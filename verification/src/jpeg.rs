//! JPEG carving: a JPEG stream starts with the two-byte start-of-image
//! marker `FF D8` and is walked marker segment by marker segment until the
//! end-of-image marker `FF D9` bounds the file.

use vstd::prelude::*;
use vstd::slice::{slice_index_get, slice_subrange};
use crate::bytes::{be16, first_pair_at, read_u16_be};
use crate::bytes::{lemma_first_pair_at_facts, lemma_first_pair_at_found};
use crate::carver::Carver;

verus! {

/// An accepted JPEG header: the start-of-image marker `FF D8` at `off`.
pub open spec fn jpeg_matches(data: Seq<u8>, off: int) -> bool {
    &&& 0 <= off
    &&& off + 2 <= data.len()
    &&& data[off] == 0xFF
    &&& data[off + 1] == 0xD8
}

/// The marker walk from `pos`: every segment must open with `FF`; `D9` ends
/// the image; `DA` opens the compressed bitstream, which runs to the first
/// `FF D9` pair; standalone markers occupy two bytes; any other marker
/// carries a big-endian length field that says how far to skip. The answer
/// is the carved length measured from `off`, or `None` where the walk runs
/// off the buffer or meets a byte that is no marker.
pub open spec fn jpeg_scan(data: Seq<u8>, off: int, pos: int) -> Option<int>
    decreases data.len() - pos,
{
    if pos < 0 || pos + 2 > data.len() {
        None
    } else if data[pos] != 0xFF {
        None
    } else {
        let m = data[pos + 1];
        if m == 0xD9 {
            Some(pos + 2 - off)
        } else if m == 0xDA {
            if pos + 4 > data.len() {
                None
            } else if pos + 2 + be16(data, pos + 2) > data.len() {
                None
            } else {
                match first_pair_at(data, pos + 2 + be16(data, pos + 2), 0xFF, 0xD9) {
                    Some(p) => Some(p + 2 - off),
                    None => None,
                }
            }
        } else if m == 0x01 || (0xD0 <= m && m <= 0xD7) {
            jpeg_scan(data, off, pos + 2)
        } else {
            if pos + 4 > data.len() {
                None
            } else if pos + 2 + be16(data, pos + 2) > data.len() {
                None
            } else {
                jpeg_scan(data, off, pos + 2 + be16(data, pos + 2))
            }
        }
    }
}

/// The length of the JPEG file at `off`, when its structure determines one.
pub open spec fn jpeg_extract(data: Seq<u8>, off: int) -> Option<int> {
    if jpeg_matches(data, off) {
        jpeg_scan(data, off, off + 2)
    } else {
        None
    }
}

/// A determined length never leaves the buffer and is positive.
proof fn lemma_jpeg_scan_bounds(data: Seq<u8>, off: int, pos: int)
    requires
        off <= pos,
    ensures
        jpeg_scan(data, off, pos) matches Some(l) ==> 0 < l && off + l <= data.len(),
    decreases data.len() - pos,
{
    if pos < 0 || pos + 2 > data.len() {
    } else if data[pos] != 0xFF {
    } else {
        let m = data[pos + 1];
        if m == 0xD9 {
        } else if m == 0xDA {
            if pos + 4 <= data.len() && pos + 2 + be16(data, pos + 2) <= data.len() {
                lemma_first_pair_at_facts(data, pos + 2 + be16(data, pos + 2), 0xFF, 0xD9);
            }
        } else if m == 0x01 || (0xD0 <= m && m <= 0xD7) {
            lemma_jpeg_scan_bounds(data, off, pos + 2);
        } else {
            if pos + 4 <= data.len() && pos + 2 + be16(data, pos + 2) <= data.len() {
                lemma_jpeg_scan_bounds(data, off, pos + 2 + be16(data, pos + 2));
            }
        }
    }
}

/// JPEG recognizer.
#[derive(Clone, Copy, Debug)]
pub struct JpegCarver;

impl Carver for JpegCarver {
    open spec fn spec_extension(&self) -> Seq<char> {
        "jpg"@
    }

    open spec fn spec_magic(&self) -> Seq<u8> {
        seq![0xFFu8, 0xD8u8]
    }

    open spec fn spec_min_header_len(&self) -> int {
        2
    }

    open spec fn spec_matches(&self, data: Seq<u8>, offset: int) -> bool {
        jpeg_matches(data, offset)
    }

    open spec fn spec_extract(&self, data: Seq<u8>, offset: int) -> Option<int> {
        jpeg_extract(data, offset)
    }

    proof fn lemma_magic_nonempty(&self) {
    }

    proof fn lemma_matches_bounds(&self, data: Seq<u8>, offset: int) {
    }

    proof fn lemma_extract_bounds(&self, data: Seq<u8>, offset: int) {
        if jpeg_matches(data, offset) {
            lemma_jpeg_scan_bounds(data, offset, offset + 2);
        }
    }

    fn extension(&self) -> (r: &'static str) {
        "jpg"
    }

    fn header_magic(&self) -> (r: &'static [u8]) {
        let a: &'static [u8; 2] = &[0xFF, 0xD8];
        a.as_slice()
    }

    fn matches_header(&self, data: &[u8], offset: usize) -> (b: bool) {
        if data.len() < 2 || offset > data.len() - 2 {
            false
        } else {
            *slice_index_get(data, offset) == 0xFF && *slice_index_get(data, offset + 1) == 0xD8
        }
    }

    #[verifier::loop_isolation(false)]
    fn extract(&self, data: &[u8], start_offset: usize) -> (r: Option<usize>) {
        let n = data.len();
        if !self.matches_header(data, start_offset) {
            return None;
        }
        let off = start_offset;
        assert(off + 2 <= n);
        let mut pos: usize = off + 2;
        loop
            invariant
                off + 2 <= pos <= data@.len(),
                jpeg_scan(data@, off as int, off + 2) == jpeg_scan(data@, off as int, pos as int),
            decreases data@.len() - pos,
        {
            if data.len() - pos < 2 {
                return None;
            }
            if *slice_index_get(data, pos) != 0xFF {
                return None;
            }
            let m = *slice_index_get(data, pos + 1);
            if m == 0xD9 {
                return Some(pos + 2 - off);
            } else if m == 0xDA {
                if data.len() - pos < 4 {
                    return None;
                }
                let seg = read_u16_be(slice_subrange(data, pos + 2, pos + 4)) as usize;
                assert(seg == be16(data@, pos + 2));
                if seg > data.len() - (pos + 2) {
                    return None;
                }
                let bs = pos + 2 + seg;
                let mut q: usize = bs;
                loop
                    invariant
                        bs <= q <= data@.len(),
                        first_pair_at(data@, bs as int, 0xFF, 0xD9) == first_pair_at(
                            data@,
                            q as int,
                            0xFF,
                            0xD9,
                        ),
                    decreases data@.len() - q,
                {
                    if data.len() - q < 2 {
                        return None;
                    }
                    if *slice_index_get(data, q) == 0xFF && *slice_index_get(data, q + 1) == 0xD9 {
                        return Some(q + 2 - off);
                    }
                    q = q + 1;
                }
            } else if m == 0x01 || (0xD0 <= m && m <= 0xD7) {
                pos = pos + 2;
            } else {
                if data.len() - pos < 4 {
                    return None;
                }
                let seg = read_u16_be(slice_subrange(data, pos + 2, pos + 4)) as usize;
                assert(seg == be16(data@, pos + 2));
                if seg > data.len() - (pos + 2) {
                    return None;
                }
                pos = pos + 2 + seg;
            }
        }
    }
}

/// The shape behind the JPEG round trip: a start-of-image marker, one
/// ordinary marker segment, a start-of-scan segment, and a bitstream whose
/// first `FF D9` pair stands at `eoi` carve to exactly the bytes up to and
/// including that end-of-image marker.
pub proof fn lemma_jpeg_round_trip(data: Seq<u8>, off: int, eoi: int)
    requires
        jpeg_matches(data, off),
        // one ordinary marker segment at off + 2
        off + 6 <= data.len(),
        data[off + 2] == 0xFF,
        data[off + 3] != 0xD9 && data[off + 3] != 0xDA && data[off + 3] != 0x01
            && !(0xD0 <= data[off + 3] && data[off + 3] <= 0xD7),
        // the start-of-scan segment right after it
        off + 4 + be16(data, off + 4) + 4 <= data.len(),
        data[off + 4 + be16(data, off + 4)] == 0xFF,
        data[off + 4 + be16(data, off + 4) + 1] == 0xDA,
        // the bitstream begins after the scan header and first meets `FF D9` at `eoi`
        off + 4 + be16(data, off + 4) + 2 + be16(data, off + 4 + be16(data, off + 4) + 2)
            <= eoi,
        eoi + 2 <= data.len(),
        data[eoi] == 0xFF,
        data[eoi + 1] == 0xD9,
        forall|k: int|
            off + 4 + be16(data, off + 4) + 2 + be16(data, off + 4 + be16(data, off + 4) + 2)
                <= k < eoi ==> !(#[trigger] data[k] == 0xFF && data[k + 1] == 0xD9),
    ensures
        jpeg_extract(data, off) == Some(eoi + 2 - off),
{
    let s0 = off + 2;
    let s1 = s0 + 2 + be16(data, s0 + 2);
    let bs = s1 + 2 + be16(data, s1 + 2);
    assert(be16(data, s0 + 2) >= 0);
    lemma_first_pair_at_found(data, bs, 0xFF, 0xD9, eoi);
    assert(jpeg_scan(data, off, s1) == Some(eoi + 2 - off));
    assert(jpeg_scan(data, off, s0) == jpeg_scan(data, off, s1));
}

} // verus!
