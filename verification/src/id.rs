//! Content hashes and the fixed-width identities derived from them.
//!
//! A content hash has variable length. The ledger graph never keys anything by
//! the hash itself: it keys by a 64-bit identity that is a truncation of the
//! hash, so two hashes that agree on their first eight bytes share an identity.
use vstd::prelude::*;

verus! {

/// The content hash of a record, as raw bytes of any length.
#[derive(Debug)]
pub struct TransactionHash(pub Vec<u8>);

/// What an insertion is told about a record besides its own hash: the hashes
/// of the two records it approves.
#[derive(Debug)]
pub struct Transaction {
    pub trunk: TransactionHash,
    pub branch: TransactionHash,
}

/// The identity of a record: the first eight bytes of its content hash, read
/// as a little-endian number.
#[derive(Clone, Copy, Debug, PartialEq, Eq, Hash, Structural)]
pub struct TransactionId(pub u64);

/// The byte at position `i` of `bytes`, or zero past its end.
pub open spec fn byte_or_zero(bytes: Seq<u8>, i: int) -> int {
    if 0 <= i < bytes.len() {
        bytes[i] as int
    } else {
        0
    }
}

/// The number that the first eight bytes of `bytes` spell in little-endian
/// order; a shorter sequence is padded with zero bytes.
pub open spec fn truncated(bytes: Seq<u8>) -> int {
    byte_or_zero(bytes, 0) + byte_or_zero(bytes, 1) * 0x100 + byte_or_zero(bytes, 2) * 0x1_0000
        + byte_or_zero(bytes, 3) * 0x100_0000 + byte_or_zero(bytes, 4) * 0x1_0000_0000
        + byte_or_zero(bytes, 5) * 0x100_0000_0000 + byte_or_zero(bytes, 6) * 0x1_0000_0000_0000
        + byte_or_zero(bytes, 7) * 0x100_0000_0000_0000
}

/// The identity that a content hash with these bytes gets.
pub open spec fn identity_of(bytes: Seq<u8>) -> TransactionId {
    TransactionId(truncated(bytes) as u64)
}

fn byte_at(bytes: &Vec<u8>, i: usize) -> (b: u64)
    ensures
        b == byte_or_zero(bytes@, i as int),
{
    if i < bytes.len() {
        bytes[i] as u64
    } else {
        0
    }
}

impl TransactionId {
    /// Derives the identity of the record with content hash `hash`.
    pub fn new(hash: &TransactionHash) -> (id: Self)
        ensures
            id == identity_of(hash.0@),
            id.0 == truncated(hash.0@),
    {
        let b0 = byte_at(&hash.0, 0);
        let b1 = byte_at(&hash.0, 1);
        let b2 = byte_at(&hash.0, 2);
        let b3 = byte_at(&hash.0, 3);
        let b4 = byte_at(&hash.0, 4);
        let b5 = byte_at(&hash.0, 5);
        let b6 = byte_at(&hash.0, 6);
        let b7 = byte_at(&hash.0, 7);
        let low: u64 = b0 + b1 * 0x100 + b2 * 0x1_0000 + b3 * 0x100_0000;
        let high: u64 = b4 * 0x1_0000_0000 + b5 * 0x100_0000_0000 + b6 * 0x1_0000_0000_0000 + b7
            * 0x100_0000_0000_0000;
        TransactionId(low + high)
    }
}

impl From<TransactionHash> for TransactionId {
    /// Derives the identity of the record with content hash `hash`.
    fn from(hash: TransactionHash) -> (id: Self) {
        TransactionId::new(&hash)
    }
}

impl vstd::std_specs::convert::FromSpecImpl<TransactionHash> for TransactionId {
    open spec fn obeys_from_spec() -> bool {
        true
    }

    open spec fn from_spec(hash: TransactionHash) -> Self {
        identity_of(hash.0@)
    }
}

/// Hashes that agree on their first eight bytes get the same identity,
/// whatever follows.
pub proof fn lemma_identity_ignores_tail(a: Seq<u8>, b: Seq<u8>)
    requires
        forall|i: int| 0 <= i < 8 ==> byte_or_zero(a, i) == byte_or_zero(b, i),
    ensures
        identity_of(a) == identity_of(b),
{
}

/// Hashes that differ somewhere in their first eight bytes get different
/// identities.
pub proof fn lemma_identity_separates_prefixes(a: Seq<u8>, b: Seq<u8>)
    requires
        exists|i: int| 0 <= i < 8 && byte_or_zero(a, i) != byte_or_zero(b, i),
    ensures
        identity_of(a) != identity_of(b),
{
    let a0 = byte_or_zero(a, 0);
    let a1 = byte_or_zero(a, 1);
    let a2 = byte_or_zero(a, 2);
    let a3 = byte_or_zero(a, 3);
    let a4 = byte_or_zero(a, 4);
    let a5 = byte_or_zero(a, 5);
    let a6 = byte_or_zero(a, 6);
    let a7 = byte_or_zero(a, 7);
    let b0 = byte_or_zero(b, 0);
    let b1 = byte_or_zero(b, 1);
    let b2 = byte_or_zero(b, 2);
    let b3 = byte_or_zero(b, 3);
    let b4 = byte_or_zero(b, 4);
    let b5 = byte_or_zero(b, 5);
    let b6 = byte_or_zero(b, 6);
    let b7 = byte_or_zero(b, 7);
    if truncated(a) == truncated(b) {
        assert(a0 == b0 && a1 == b1 && a2 == b2 && a3 == b3 && a4 == b4 && a5 == b5 && a6 == b6
            && a7 == b7) by {
            assert(0 <= a0 < 256 && 0 <= a1 < 256 && 0 <= a2 < 256 && 0 <= a3 < 256);
            assert(0 <= a4 < 256 && 0 <= a5 < 256 && 0 <= a6 < 256 && 0 <= a7 < 256);
            assert(0 <= b0 < 256 && 0 <= b1 < 256 && 0 <= b2 < 256 && 0 <= b3 < 256);
            assert(0 <= b4 < 256 && 0 <= b5 < 256 && 0 <= b6 < 256 && 0 <= b7 < 256);
            assert(truncated(a) % 0x100 == a0 && truncated(b) % 0x100 == b0);
            assert((truncated(a) / 0x100) % 0x100 == a1 && (truncated(b) / 0x100) % 0x100 == b1);
            assert((truncated(a) / 0x1_0000) % 0x100 == a2 && (truncated(b) / 0x1_0000) % 0x100
                == b2);
            assert((truncated(a) / 0x100_0000) % 0x100 == a3 && (truncated(b) / 0x100_0000)
                % 0x100 == b3);
            assert((truncated(a) / 0x1_0000_0000) % 0x100 == a4 && (truncated(b) / 0x1_0000_0000)
                % 0x100 == b4);
            assert((truncated(a) / 0x100_0000_0000) % 0x100 == a5 && (truncated(b)
                / 0x100_0000_0000) % 0x100 == b5);
            assert((truncated(a) / 0x1_0000_0000_0000) % 0x100 == a6 && (truncated(b)
                / 0x1_0000_0000_0000) % 0x100 == b6);
            assert((truncated(a) / 0x100_0000_0000_0000) % 0x100 == a7 && (truncated(b)
                / 0x100_0000_0000_0000) % 0x100 == b7);
        }
        assert(false);
    }
    assert(0 <= truncated(a) <= u64::MAX && 0 <= truncated(b) <= u64::MAX) by {
        assert(0 <= a0 < 256 && 0 <= a1 < 256 && 0 <= a2 < 256 && 0 <= a3 < 256);
        assert(0 <= a4 < 256 && 0 <= a5 < 256 && 0 <= a6 < 256 && 0 <= a7 < 256);
        assert(0 <= b0 < 256 && 0 <= b1 < 256 && 0 <= b2 < 256 && 0 <= b3 < 256);
        assert(0 <= b4 < 256 && 0 <= b5 < 256 && 0 <= b6 < 256 && 0 <= b7 < 256);
    }
}

} // verus!
