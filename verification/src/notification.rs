//! What happens when consensus reports a new best chain.
//!
//! The transactions that have been remembered since the last report are offered
//! to the deferred pool one after the other. Before one is put back, the account
//! of its sender is read; where that fails the whole ends with the error.
use vstd::prelude::*;

use crate::transaction::InsertRequest;

verus! {

/// What the handling of a report waits for.
pub enum Notification<E> {
    /// For the account of the sender to be read.
    Reading(InsertRequest),
    /// For the transaction to be offered to the deferred pool.
    Inserting(InsertRequest),
    /// For nothing: the report is handled, or an account could not be read.
    Finished(Result<(), E>),
}

impl<E> Notification<E> {
    /// What follows the reading of the account: the transaction is offered, or
    /// everything ends with the error.
    pub open spec fn after_read(self, read: Result<(), E>) -> Notification<E>
        recommends
            self is Reading,
    {
        match read {
            Ok(()) => Notification::Inserting(self->Reading_0),
            Err(e) => Notification::Finished(Err(e)),
        }
    }

    /// Goes on once the account has been read, or could not be. In the latter
    /// case the transaction at hand is not offered.
    pub fn on_account_read(self, read: Result<(), E>) -> (r: Notification<E>)
        requires
            self is Reading,
        ensures
            r == self.after_read(read),
    {
        match (self, read) {
            (Notification::Reading(request), Ok(())) => Notification::Inserting(request),
            (_, Err(e)) => Notification::Finished(Err(e)),
            (other, Ok(())) => other,
        }
    }
}

} // verus!
