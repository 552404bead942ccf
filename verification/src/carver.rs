//! The format-recognizer abstraction: a carver identifies a format's header
//! in the shared input buffer and determines the byte length of the embedded
//! file by parsing the format's internal structure.

use vstd::prelude::*;

verus! {

/// A contiguous sub-range of the input buffer recovered as one file,
/// together with the extension used to name it.
#[derive(Clone, Copy, Debug)]
pub struct ExtractedFile {
    pub start: usize,
    pub length: usize,
    pub extension: &'static str,
}

impl ExtractedFile {
    /// The mathematical identity of a recovered file: its start offset,
    /// extension and length.
    pub open spec fn triple(self) -> (int, Seq<char>, int) {
        (self.start as int, self.extension@, self.length as int)
    }
}

/// A format recognizer. `spec_matches` and `spec_extract` give the exact
/// mathematical meaning of the two executable operations, and the proof
/// obligations tie every recognizer to the invariants the scan engine
/// relies on: a reported region never leaves the buffer, and a match pins
/// the first byte of the buffer slice to the magic's first byte.
pub trait Carver: Sized {
    /// The extension used to name recovered files of this format.
    spec fn spec_extension(&self) -> Seq<char>;

    /// The signature bytes whose first byte feeds the fast-reject filter.
    spec fn spec_magic(&self) -> Seq<u8>;

    /// The shortest buffer tail in which a header of this format fits.
    spec fn spec_min_header_len(&self) -> int;

    /// Whether the bytes at `offset` form an accepted header of this format.
    spec fn spec_matches(&self, data: Seq<u8>, offset: int) -> bool;

    /// The total byte length of the embedded file at `offset`, when the
    /// format's structure determines one.
    spec fn spec_extract(&self, data: Seq<u8>, offset: int) -> Option<int>;

    /// The magic is never empty, so the fast-reject filter has a first byte
    /// to key on.
    proof fn lemma_magic_nonempty(&self)
        ensures
            self.spec_magic().len() > 0,
    ;

    /// A header never matches where fewer than `spec_min_header_len` bytes
    /// remain, and a match forces the byte at `offset` to be the magic's
    /// first byte.
    proof fn lemma_matches_bounds(&self, data: Seq<u8>, offset: int)
        ensures
            self.spec_matches(data, offset) ==> 0 <= offset
                && offset + self.spec_min_header_len() <= data.len()
                && self.spec_min_header_len() > 0,
            self.spec_matches(data, offset) ==> data[offset] == self.spec_magic()[0],
    ;

    /// A length is only ever reported where the header matches, and the
    /// reported region lies inside the buffer.
    proof fn lemma_extract_bounds(&self, data: Seq<u8>, offset: int)
        ensures
            self.spec_extract(data, offset) is Some ==> self.spec_matches(data, offset),
            self.spec_extract(data, offset) matches Some(l) ==> 0 < l
                && offset + l <= data.len(),
    ;

    fn extension(&self) -> (r: &'static str)
        ensures
            r@ == self.spec_extension(),
    ;

    fn header_magic(&self) -> (r: &'static [u8])
        ensures
            r@ == self.spec_magic(),
    ;

    fn matches_header(&self, data: &[u8], offset: usize) -> (b: bool)
        ensures
            b == self.spec_matches(data@, offset as int),
    ;

    fn extract(&self, data: &[u8], start_offset: usize) -> (r: Option<usize>)
        ensures
            match r {
                Some(l) => self.spec_extract(data@, start_offset as int) == Some(l as int),
                None => self.spec_extract(data@, start_offset as int) is None,
            },
    ;
}

/// In a buffer too short to hold a recognizer's header at `offset`, the
/// header never matches and nothing is ever carved there.
pub proof fn lemma_truncated_buffer<C: Carver>(c: &C, data: Seq<u8>, offset: int)
    requires
        data.len() < offset + c.spec_min_header_len(),
    ensures
        !c.spec_matches(data, offset),
        c.spec_extract(data, offset) is None,
{
    c.lemma_matches_bounds(data, offset);
    c.lemma_extract_bounds(data, offset);
}

} // verus!
