//! PNG carving: after the 8-byte signature a PNG file is a sequence of
//! chunks, each framed as a 4-byte big-endian data length, a 4-byte type
//! tag, the data, and a 4-byte checksum; the `IEND` chunk closes the file.

use vstd::prelude::*;
use vstd::slice::{slice_index_get, slice_subrange};
use crate::bytes::{be32, read_u32_be};
use crate::carver::Carver;

verus! {

/// An accepted PNG header: the 8-byte PNG signature at `off`.
pub open spec fn png_matches(data: Seq<u8>, off: int) -> bool {
    &&& 0 <= off
    &&& off + 8 <= data.len()
    &&& data[off] == 0x89
    &&& data[off + 1] == 0x50
    &&& data[off + 2] == 0x4E
    &&& data[off + 3] == 0x47
    &&& data[off + 4] == 0x0D
    &&& data[off + 5] == 0x0A
    &&& data[off + 6] == 0x1A
    &&& data[off + 7] == 0x0A
}

/// Whether the chunk opening at `pos` carries the type tag `IEND`.
pub open spec fn png_iend_at(data: Seq<u8>, pos: int) -> bool {
    &&& data[pos + 4] == 0x49
    &&& data[pos + 5] == 0x45
    &&& data[pos + 6] == 0x4E
    &&& data[pos + 7] == 0x44
}

/// The chunk walk from `pos`: each chunk occupies `12 + L` bytes for its
/// declared data length `L`; an `IEND` chunk that fits in the buffer ends
/// the file. The answer is the carved length measured from `off`, or `None`
/// where a chunk header or body would leave the buffer before `IEND`.
pub open spec fn png_scan(data: Seq<u8>, off: int, pos: int) -> Option<int>
    decreases data.len() - pos,
{
    if pos < 0 || pos + 8 > data.len() {
        None
    } else {
        let next = pos + 12 + be32(data, pos);
        if next > data.len() {
            None
        } else if png_iend_at(data, pos) {
            Some(next - off)
        } else {
            png_scan(data, off, next)
        }
    }
}

/// The length of the PNG file at `off`, when its chunk structure
/// determines one.
pub open spec fn png_extract(data: Seq<u8>, off: int) -> Option<int> {
    if png_matches(data, off) {
        png_scan(data, off, off + 8)
    } else {
        None
    }
}

/// A determined length never leaves the buffer and is positive.
proof fn lemma_png_scan_bounds(data: Seq<u8>, off: int, pos: int)
    requires
        off <= pos,
    ensures
        png_scan(data, off, pos) matches Some(l) ==> 0 < l && off + l <= data.len(),
    decreases data.len() - pos,
{
    if pos < 0 || pos + 8 > data.len() {
    } else {
        let next = pos + 12 + be32(data, pos);
        if next <= data.len() && !png_iend_at(data, pos) {
            lemma_png_scan_bounds(data, off, next);
        }
    }
}

/// PNG recognizer.
#[derive(Clone, Copy, Debug)]
pub struct PngCarver;

impl Carver for PngCarver {
    open spec fn spec_extension(&self) -> Seq<char> {
        "png"@
    }

    open spec fn spec_magic(&self) -> Seq<u8> {
        seq![0x89u8, 0x50u8, 0x4Eu8, 0x47u8, 0x0Du8, 0x0Au8, 0x1Au8, 0x0Au8]
    }

    open spec fn spec_min_header_len(&self) -> int {
        8
    }

    open spec fn spec_matches(&self, data: Seq<u8>, offset: int) -> bool {
        png_matches(data, offset)
    }

    open spec fn spec_extract(&self, data: Seq<u8>, offset: int) -> Option<int> {
        png_extract(data, offset)
    }

    proof fn lemma_magic_nonempty(&self) {
    }

    proof fn lemma_matches_bounds(&self, data: Seq<u8>, offset: int) {
    }

    proof fn lemma_extract_bounds(&self, data: Seq<u8>, offset: int) {
        if png_matches(data, offset) {
            lemma_png_scan_bounds(data, offset, offset + 8);
        }
    }

    fn extension(&self) -> (r: &'static str) {
        "png"
    }

    fn header_magic(&self) -> (r: &'static [u8]) {
        let a: &'static [u8; 8] = &[0x89, 0x50, 0x4E, 0x47, 0x0D, 0x0A, 0x1A, 0x0A];
        a.as_slice()
    }

    fn matches_header(&self, data: &[u8], offset: usize) -> (b: bool) {
        if data.len() < 8 || offset > data.len() - 8 {
            false
        } else {
            *slice_index_get(data, offset) == 0x89 && *slice_index_get(data, offset + 1) == 0x50
                && *slice_index_get(data, offset + 2) == 0x4E
                && *slice_index_get(data, offset + 3) == 0x47
                && *slice_index_get(data, offset + 4) == 0x0D
                && *slice_index_get(data, offset + 5) == 0x0A
                && *slice_index_get(data, offset + 6) == 0x1A
                && *slice_index_get(data, offset + 7) == 0x0A
        }
    }

    #[verifier::loop_isolation(false)]
    fn extract(&self, data: &[u8], start_offset: usize) -> (r: Option<usize>) {
        let n = data.len();
        if !self.matches_header(data, start_offset) {
            return None;
        }
        let off = start_offset;
        assert(off + 8 <= n);
        let mut pos: usize = off + 8;
        loop
            invariant
                off + 8 <= pos <= data@.len(),
                png_scan(data@, off as int, off + 8) == png_scan(data@, off as int, pos as int),
            decreases data@.len() - pos,
        {
            if n - pos < 8 {
                return None;
            }
            let length = read_u32_be(slice_subrange(data, pos, pos + 4));
            assert(length == be32(data@, pos as int));
            let rem: u64 = (n - pos) as u64;
            if 12u64 + (length as u64) > rem {
                return None;
            }
            let next: usize = pos + 12 + (length as usize);
            if *slice_index_get(data, pos + 4) == 0x49 && *slice_index_get(data, pos + 5) == 0x45
                && *slice_index_get(data, pos + 6) == 0x4E
                && *slice_index_get(data, pos + 7) == 0x44 {
                return Some(next - off);
            }
            pos = next;
        }
    }
}

/// The shape behind the PNG round trip: the signature followed by a run of
/// well-framed chunks, the last of which is `IEND`, carves to exactly the
/// end of the `IEND` chunk. `bounds` lists the chunk start positions and,
/// last, the position one past the final chunk, so the carved length is
/// `8` plus the sum of `12 + L` over the chunks.
pub proof fn lemma_png_round_trip(data: Seq<u8>, off: int, bounds: Seq<int>)
    requires
        png_matches(data, off),
        bounds.len() >= 2,
        bounds[0] == off + 8,
        forall|i: int| 0 <= i < bounds.len() - 1 ==> #[trigger] bounds[i] + 8 <= data.len()
            && bounds[i + 1] == bounds[i] + 12 + be32(data, bounds[i])
            && bounds[i + 1] <= data.len(),
        forall|i: int| 0 <= i < bounds.len() - 2 ==> !png_iend_at(data, #[trigger] bounds[i]),
        png_iend_at(data, bounds[bounds.len() - 2]),
    ensures
        png_extract(data, off) == Some(bounds[bounds.len() - 1] - off),
{
    lemma_png_scan_through(data, off, bounds, 0);
}

/// The chunk walk started at the `i`-th chunk of a well-framed run reaches
/// the end of the final `IEND` chunk.
proof fn lemma_png_scan_through(data: Seq<u8>, off: int, bounds: Seq<int>, i: int)
    requires
        bounds.len() >= 2,
        0 <= i <= bounds.len() - 2,
        0 <= bounds[i],
        forall|j: int| 0 <= j < bounds.len() - 1 ==> #[trigger] bounds[j] + 8 <= data.len()
            && bounds[j + 1] == bounds[j] + 12 + be32(data, bounds[j])
            && bounds[j + 1] <= data.len(),
        forall|j: int| 0 <= j < bounds.len() - 2 ==> !png_iend_at(data, #[trigger] bounds[j]),
        png_iend_at(data, bounds[bounds.len() - 2]),
    ensures
        png_scan(data, off, bounds[i]) == Some(bounds[bounds.len() - 1] - off),
    decreases bounds.len() - i,
{
    assert(bounds[i] + 8 <= data.len() && bounds[i + 1] == bounds[i] + 12 + be32(data, bounds[i])
        && bounds[i + 1] <= data.len());
    assert(be32(data, bounds[i]) >= 0);
    if i == bounds.len() - 2 {
        assert(png_iend_at(data, bounds[i]));
        assert(png_scan(data, off, bounds[i]) == Some(bounds[i + 1] - off));
    } else {
        assert(!png_iend_at(data, bounds[i]));
        lemma_png_scan_through(data, off, bounds, i + 1);
        assert(png_scan(data, off, bounds[i]) == png_scan(data, off, bounds[i + 1]));
    }
}

} // verus!
