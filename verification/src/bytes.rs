//! Big-endian integer reads and byte-sequence searches shared by the
//! format recognizers.

use vstd::prelude::*;
use byteorder::ByteOrder;

verus! {

/// The big-endian 16-bit value held by the two bytes of `data` at `i`.
pub open spec fn be16(data: Seq<u8>, i: int) -> int {
    data[i] * 256 + data[i + 1]
}

/// The big-endian 32-bit value held by the four bytes of `data` at `i`.
pub open spec fn be32(data: Seq<u8>, i: int) -> int {
    ((data[i] * 256 + data[i + 1]) * 256 + data[i + 2]) * 256 + data[i + 3]
}

/// Relies on byteorder's `BigEndian::read_u16`: returns the big-endian
/// integer held by the first two bytes of the slice (panics on a shorter
/// slice, which the precondition rules out).
#[verifier::external_body]
pub fn read_u16_be(buf: &[u8]) -> (r: u16)
    requires
        buf@.len() >= 2,
    ensures
        r == be16(buf@, 0),
{
    byteorder::BigEndian::read_u16(buf)
}

/// Relies on byteorder's `BigEndian::read_u32`: returns the big-endian
/// integer held by the first four bytes of the slice (panics on a shorter
/// slice, which the precondition rules out).
#[verifier::external_body]
pub fn read_u32_be(buf: &[u8]) -> (r: u32)
    requires
        buf@.len() >= 4,
    ensures
        r == be32(buf@, 0),
{
    byteorder::BigEndian::read_u32(buf)
}

/// The position of the first byte equal to `b` at or after `i`, if any.
pub open spec fn first_byte_at(data: Seq<u8>, i: int, b: u8) -> Option<int>
    decreases data.len() - i,
{
    if i >= data.len() {
        None
    } else if data[i] == b {
        Some(i)
    } else {
        first_byte_at(data, i + 1, b)
    }
}

/// The position of the first two adjacent bytes equal to `(a, b)` at or
/// after `i`, if any.
pub open spec fn first_pair_at(data: Seq<u8>, i: int, a: u8, b: u8) -> Option<int>
    decreases data.len() - i,
{
    if i + 2 > data.len() {
        None
    } else if data[i] == a && data[i + 1] == b {
        Some(i)
    } else {
        first_pair_at(data, i + 1, a, b)
    }
}

/// What a `first_byte_at` answer means: a found position carries the byte,
/// lies in range, and nothing earlier carries it; a miss means no position does.
pub proof fn lemma_first_byte_at_facts(data: Seq<u8>, i: int, b: u8)
    requires
        0 <= i,
    ensures
        first_byte_at(data, i, b) matches Some(p) ==> i <= p < data.len() && data[p] == b
            && (forall|k: int| i <= k < p ==> data[k] != b),
        first_byte_at(data, i, b) is None ==> forall|k: int| i <= k < data.len() ==> data[k] != b,
    decreases data.len() - i,
{
    if i >= data.len() {
    } else if data[i] == b {
    } else {
        lemma_first_byte_at_facts(data, i + 1, b);
    }
}

/// The converse: a position known to hold the first occurrence of `b` is the
/// one `first_byte_at` finds.
pub proof fn lemma_first_byte_at_found(data: Seq<u8>, i: int, b: u8, p: int)
    requires
        0 <= i <= p < data.len(),
        data[p] == b,
        forall|k: int| i <= k < p ==> data[k] != b,
    ensures
        first_byte_at(data, i, b) == Some(p),
    decreases p - i,
{
    if i < p {
        lemma_first_byte_at_found(data, i + 1, b, p);
    }
}

/// A miss on every position means `first_byte_at` finds nothing.
pub proof fn lemma_first_byte_at_none(data: Seq<u8>, i: int, b: u8)
    requires
        0 <= i,
        forall|k: int| i <= k < data.len() ==> data[k] != b,
    ensures
        first_byte_at(data, i, b) is None,
    decreases data.len() - i,
{
    if i < data.len() {
        lemma_first_byte_at_none(data, i + 1, b);
    }
}

/// A found pair position lies in range and holds the pair.
pub proof fn lemma_first_pair_at_facts(data: Seq<u8>, i: int, a: u8, b: u8)
    requires
        0 <= i,
    ensures
        first_pair_at(data, i, a, b) matches Some(p) ==> i <= p && p + 2 <= data.len()
            && data[p] == a && data[p + 1] == b,
    decreases data.len() - i,
{
    if i + 2 > data.len() {
    } else if data[i] == a && data[i + 1] == b {
    } else {
        lemma_first_pair_at_facts(data, i + 1, a, b);
    }
}

/// A position known to hold the first occurrence of the pair is the one
/// `first_pair_at` finds.
pub proof fn lemma_first_pair_at_found(data: Seq<u8>, i: int, a: u8, b: u8, p: int)
    requires
        0 <= i <= p,
        p + 2 <= data.len(),
        data[p] == a && data[p + 1] == b,
        forall|k: int| i <= k < p ==> !(#[trigger] data[k] == a && data[k + 1] == b),
    ensures
        first_pair_at(data, i, a, b) == Some(p),
    decreases p - i,
{
    if i < p {
        lemma_first_pair_at_found(data, i + 1, a, b, p);
    }
}

} // verus!
