//! GIF carving: a GIF file opens with `GIF87a` or `GIF89a` and closes with
//! the single trailer byte `0x3B`; the first trailer byte after the header
//! bounds the file. No block structure is parsed: this keeps the recognizer
//! simple at the price of stopping at a `0x3B` inside image data.

use vstd::prelude::*;
use vstd::slice::slice_index_get;
use crate::bytes::{first_byte_at, lemma_first_byte_at_facts, lemma_first_byte_at_found,
    lemma_first_byte_at_none};
use crate::carver::Carver;

verus! {

/// An accepted GIF header: the 6 bytes `GIF87a` or `GIF89a` at `off`.
pub open spec fn gif_matches(data: Seq<u8>, off: int) -> bool {
    &&& 0 <= off
    &&& off + 6 <= data.len()
    &&& data[off] == 0x47
    &&& data[off + 1] == 0x49
    &&& data[off + 2] == 0x46
    &&& data[off + 3] == 0x38
    &&& (data[off + 4] == 0x37 || data[off + 4] == 0x39)
    &&& data[off + 5] == 0x61
}

/// The length of the GIF file at `off`: up to and including the first
/// trailer byte `0x3B`, or `None` when no trailer follows.
pub open spec fn gif_extract(data: Seq<u8>, off: int) -> Option<int> {
    if gif_matches(data, off) {
        match first_byte_at(data, off, 0x3B) {
            Some(p) => Some(p + 1 - off),
            None => None,
        }
    } else {
        None
    }
}

/// GIF recognizer.
#[derive(Clone, Copy, Debug)]
pub struct GifCarver;

impl Carver for GifCarver {
    open spec fn spec_extension(&self) -> Seq<char> {
        "gif"@
    }

    open spec fn spec_magic(&self) -> Seq<u8> {
        seq![0x47u8, 0x49u8, 0x46u8, 0x38u8]
    }

    open spec fn spec_min_header_len(&self) -> int {
        6
    }

    open spec fn spec_matches(&self, data: Seq<u8>, offset: int) -> bool {
        gif_matches(data, offset)
    }

    open spec fn spec_extract(&self, data: Seq<u8>, offset: int) -> Option<int> {
        gif_extract(data, offset)
    }

    proof fn lemma_magic_nonempty(&self) {
    }

    proof fn lemma_matches_bounds(&self, data: Seq<u8>, offset: int) {
    }

    proof fn lemma_extract_bounds(&self, data: Seq<u8>, offset: int) {
        if gif_matches(data, offset) {
            lemma_first_byte_at_facts(data, offset, 0x3B);
        }
    }

    fn extension(&self) -> (r: &'static str) {
        "gif"
    }

    /// The shared prefix of the two accepted signatures; only its first
    /// byte feeds the fast-reject filter, the full check is
    /// `matches_header`.
    fn header_magic(&self) -> (r: &'static [u8]) {
        let a: &'static [u8; 4] = &[0x47, 0x49, 0x46, 0x38];
        a.as_slice()
    }

    fn matches_header(&self, data: &[u8], offset: usize) -> (b: bool) {
        if data.len() < 6 || offset > data.len() - 6 {
            false
        } else {
            *slice_index_get(data, offset) == 0x47 && *slice_index_get(data, offset + 1) == 0x49
                && *slice_index_get(data, offset + 2) == 0x46
                && *slice_index_get(data, offset + 3) == 0x38
                && (*slice_index_get(data, offset + 4) == 0x37
                || *slice_index_get(data, offset + 4) == 0x39)
                && *slice_index_get(data, offset + 5) == 0x61
        }
    }

    #[verifier::loop_isolation(false)]
    fn extract(&self, data: &[u8], start_offset: usize) -> (r: Option<usize>) {
        let n = data.len();
        if !self.matches_header(data, start_offset) {
            return None;
        }
        let off = start_offset;
        let mut pos: usize = off;
        loop
            invariant
                off <= pos <= data@.len(),
                first_byte_at(data@, off as int, 0x3B) == first_byte_at(data@, pos as int, 0x3B),
            decreases data@.len() - pos,
        {
            if pos == n {
                return None;
            }
            if *slice_index_get(data, pos) == 0x3B {
                return Some(pos + 1 - off);
            }
            pos = pos + 1;
        }
    }
}

/// A GIF header followed by a first trailer byte at `p` carves to exactly
/// `p - off + 1` bytes: the trailer closes the file.
pub proof fn lemma_gif_round_trip(data: Seq<u8>, off: int, p: int)
    requires
        gif_matches(data, off),
        off <= p < data.len(),
        data[p] == 0x3B,
        forall|k: int| off <= k < p ==> data[k] != 0x3B,
    ensures
        gif_extract(data, off) == Some(p + 1 - off),
{
    lemma_first_byte_at_found(data, off, 0x3B, p);
}

/// With no trailer byte anywhere after the header, nothing is carved.
pub proof fn lemma_gif_no_trailer(data: Seq<u8>, off: int)
    requires
        gif_matches(data, off),
        forall|k: int| off <= k < data.len() ==> data[k] != 0x3B,
    ensures
        gif_extract(data, off) is None,
{
    lemma_first_byte_at_none(data, off, 0x3B);
}

} // verus!
