//! Unsigned 256-bit numbers.
use vstd::prelude::*;

use crate::text::decimal;

verus! {

/// One more than the largest 256-bit number.
pub open spec fn u256_limit() -> nat {
    0x1_0000_0000_0000_0000_0000_0000_0000_0000_0000_0000_0000_0000_0000_0000_0000_0000nat
}

/// An unsigned 256-bit number as four 64-bit words, the least significant first.
#[derive(Clone, Copy, Debug, PartialEq, Eq)]
pub struct U256 {
    pub words: [u64; 4],
}

impl View for U256 {
    type V = nat;

    /// The number that the words stand for.
    open spec fn view(&self) -> nat {
        (self.words[0] + self.words[1] * 0x1_0000_0000_0000_0000
            + self.words[2] * 0x1_0000_0000_0000_0000_0000_0000_0000_0000
            + self.words[3] * 0x1_0000_0000_0000_0000_0000_0000_0000_0000_0000_0000_0000_0000) as nat
    }
}

impl U256 {
    /// The number zero.
    pub fn zero() -> (r: U256)
        ensures
            r@ == 0,
    {
        U256 { words: [0, 0, 0, 0] }
    }

    /// A 64-bit number, widened.
    pub fn from_u64(n: u64) -> (r: U256)
        ensures
            r@ == n,
    {
        U256 { words: [n, 0, 0, 0] }
    }

    /// Calls `+` of `ethereum_types::U256`. Trusted: where the sum fits into
    /// 256 bits the call does not panic and gives the sum.
    #[verifier::external_body]
    pub(crate) fn plus(self, other: U256) -> (r: U256)
        requires
            self@ + other@ < u256_limit(),
        ensures
            r@ == self@ + other@,
    {
        U256 { words: (ethereum_types::U256(self.words) + ethereum_types::U256(other.words)).0 }
    }

    /// Calls `-` of `ethereum_types::U256`. Trusted: where the second number
    /// is not the larger the call does not panic and gives the difference.
    #[verifier::external_body]
    pub(crate) fn minus(self, other: U256) -> (r: U256)
        requires
            other@ <= self@,
        ensures
            r@ == self@ - other@,
    {
        U256 { words: (ethereum_types::U256(self.words) - ethereum_types::U256(other.words)).0 }
    }

    /// Calls `/` of `ethereum_types::U256`. Trusted: for a divisor other than
    /// zero the call does not panic and gives the quotient, rounded down.
    #[verifier::external_body]
    pub(crate) fn divided_by(self, other: U256) -> (r: U256)
        requires
            other@ != 0,
        ensures
            r@ == self@ / other@,
    {
        U256 { words: (ethereum_types::U256(self.words) / ethereum_types::U256(other.words)).0 }
    }

    /// Calls `<` of `ethereum_types::U256`. Trusted: it tells whether the
    /// first number is smaller than the second.
    #[verifier::external_body]
    pub(crate) fn less_than(self, other: U256) -> (r: bool)
        ensures
            r == (self@ < other@),
    {
        ethereum_types::U256(self.words) < ethereum_types::U256(other.words)
    }

    /// Calls `to_string` on `ethereum_types::U256`, that is its `Display`.
    /// Trusted: it gives the decimal text of the number.
    #[verifier::external_body]
    pub(crate) fn to_decimal(self) -> (s: String)
        ensures
            s@ == decimal(self@),
    {
        ethereum_types::U256(self.words).to_string()
    }

    /// The larger of two numbers.
    pub fn max(self, other: U256) -> (r: U256)
        ensures
            r@ == if self@ < other@ { other@ } else { self@ },
    {
        if self.less_than(other) {
            other
        } else {
            self
        }
    }

    /// The smaller of two numbers.
    pub fn min(self, other: U256) -> (r: U256)
        ensures
            r@ == if other@ < self@ { other@ } else { self@ },
    {
        if other.less_than(self) {
            other
        } else {
            self
        }
    }
}

/// Every value is below the limit of 256 bits.
pub proof fn lemma_u256_bounded(x: U256)
    ensures
        x@ < u256_limit(),
{
}

} // verus!
