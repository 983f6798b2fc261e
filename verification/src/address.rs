//! Account and contract addresses, and 32-byte digests, as plain values.
use vstd::prelude::*;

verus! {

/// An address: its kind (account or contract) and its 32-byte key held as
/// two big-endian 128-bit halves. Addresses are ordered by kind, then by
/// key bytes, the order in which pairs sort their two tokens.
#[derive(Clone, Copy, Debug, PartialEq, Eq, Structural)]
pub struct Addr {
    pub kind: u8,
    pub hi: u128,
    pub lo: u128,
}

/// Strict address order: by kind, then high half, then low half.
pub open spec fn addr_lt(a: Addr, b: Addr) -> bool {
    a.kind < b.kind || (a.kind == b.kind && (a.hi < b.hi || (a.hi == b.hi && a.lo < b.lo)))
}

impl Addr {
    /// Whether `self` sorts strictly before `other`.
    pub fn lt(&self, other: &Addr) -> (b: bool)
        ensures
            b == addr_lt(*self, *other),
    {
        if self.kind != other.kind {
            self.kind < other.kind
        } else if self.hi != other.hi {
            self.hi < other.hi
        } else {
            self.lo < other.lo
        }
    }
}

/// The address order is a strict total order.
pub proof fn lemma_addr_order(a: Addr, b: Addr, c: Addr)
    ensures
        !addr_lt(a, a),
        addr_lt(a, b) ==> !addr_lt(b, a),
        a != b ==> addr_lt(a, b) || addr_lt(b, a),
        addr_lt(a, b) && addr_lt(b, c) ==> addr_lt(a, c),
{
}

/// A 32-byte value (a SHA-256 digest, a wasm hash or a salt) held as two
/// big-endian 128-bit halves.
#[derive(Clone, Copy, Debug, PartialEq, Eq, Structural)]
pub struct Digest {
    pub hi: u128,
    pub lo: u128,
}

} // verus!
