//! Transaction hashes and account addresses.
use vstd::prelude::*;

verus! {

/// A 256-bit hash, as the big-endian numbers of its first and its last sixteen bytes.
#[derive(Clone, Copy, Debug, PartialEq, Eq, Structural, Hash)]
pub struct H256 {
    pub hi: u128,
    pub lo: u128,
}

impl H256 {
    /// Whether this hash comes before the other, byte by byte from the first.
    pub open spec fn before(self, other: H256) -> bool {
        self.hi < other.hi || (self.hi == other.hi && self.lo < other.lo)
    }

    /// Whether this hash comes before the other, byte by byte from the first.
    pub fn is_before(&self, other: &H256) -> (r: bool)
        ensures
            r == self.before(*other),
    {
        self.hi < other.hi || (self.hi == other.hi && self.lo < other.lo)
    }

    /// The hash made of zeros.
    pub fn zero() -> (r: H256)
        ensures
            r == (H256 { hi: 0, lo: 0 }),
    {
        H256 { hi: 0, lo: 0 }
    }
}

/// The address of an account.
#[derive(Clone, Copy, Debug, PartialEq, Eq)]
pub struct Address {
    pub bytes: [u8; 20],
}

/// Whether a character is a hexadecimal digit.
pub open spec fn is_hex_digit(c: char) -> bool {
    '0' <= c <= '9' || 'a' <= c <= 'f' || 'A' <= c <= 'F'
}

/// The value of a hexadecimal digit.
pub open spec fn hex_value(c: char) -> int {
    if '0' <= c <= '9' {
        c as int - '0' as int
    } else if 'a' <= c <= 'f' {
        c as int - 'a' as int + 10
    } else {
        c as int - 'A' as int + 10
    }
}

/// Whether a text is an address in hexadecimal digits.
pub open spec fn is_address_text(s: Seq<char>) -> bool {
    s.len() == 40 && forall|i: int| 0 <= i < s.len() ==> is_hex_digit(#[trigger] s[i])
}

/// The bytes that pairs of hexadecimal digits stand for.
pub open spec fn address_bytes(s: Seq<char>) -> Seq<u8> {
    Seq::new(20, |i: int| (16 * hex_value(s[2 * i]) + hex_value(s[2 * i + 1])) as u8)
}

/// Calls `from_str` of `ethereum_types::H160`. Trusted: on forty hexadecimal
/// digits it succeeds with the bytes that the pairs of digits stand for.
#[verifier::external_body]
pub(crate) fn parse_address(s: &str) -> (r: Option<Address>)
    requires
        is_address_text(s@),
    ensures
        r is Some,
        r->0.bytes@ == address_bytes(s@),
{
    match <ethereum_types::H160 as std::str::FromStr>::from_str(s) {
        Ok(address) => Some(Address { bytes: address.0 }),
        Err(_) => None,
    }
}

} // verus!
