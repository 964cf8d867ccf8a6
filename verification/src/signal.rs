//! The accounts that hold the slot transactions of all other accounts.
//!
//! Slot transactions that cannot be executed yet stand in a trie of their own,
//! which is pruned every epoch. When an epoch starts, those that become
//! executable move to the queues of single accounts, and the accounts whose
//! queues are not empty are listed.
use vstd::prelude::*;

use crate::hash::{address_bytes, is_address_text, parse_address, Address};

verus! {

/// The account that holds the slot transactions that cannot be executed yet.
/// Its address is the end of the Keccak-256 hash of `Boundless!!!`.
pub fn global_slot_tx_queue_address() -> (r: Address)
    ensures
        r.bytes@ == address_bytes("db73c9d8eeaac3e5de3f83b71fb7aa4e41764d09"@),
{
    proof {
        reveal_strlit("db73c9d8eeaac3e5de3f83b71fb7aa4e41764d09");
        assert(is_address_text("db73c9d8eeaac3e5de3f83b71fb7aa4e41764d09"@));
    }
    parse_address("db73c9d8eeaac3e5de3f83b71fb7aa4e41764d09").unwrap()
}

/// The account that lists the accounts with a slot transaction ready.
pub fn global_slot_tx_account_list_address() -> (r: Address)
    ensures
        r.bytes@ == address_bytes("bab69eae9ea958e501ea40b8c6dc27a9614a5b9b"@),
{
    proof {
        reveal_strlit("bab69eae9ea958e501ea40b8c6dc27a9614a5b9b");
        assert(is_address_text("bab69eae9ea958e501ea40b8c6dc27a9614a5b9b"@));
    }
    parse_address("bab69eae9ea958e501ea40b8c6dc27a9614a5b9b").unwrap()
}

} // verus!
