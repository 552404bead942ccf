//! PDF carving: a PDF file opens with the literal `%PDF` and, because of
//! incremental updates, may hold several `%%EOF` trailers; the recognizer
//! takes the last `%%EOF` inside a bounded window of 10 MiB (10485760
//! bytes), so one candidate never forces a scan of the whole buffer.

use vstd::prelude::*;
use vstd::slice::slice_index_get;
use crate::carver::Carver;

verus! {

/// An accepted PDF header: the literal bytes `%PDF` at `off`.
pub open spec fn pdf_matches(data: Seq<u8>, off: int) -> bool {
    &&& 0 <= off
    &&& off + 4 <= data.len()
    &&& data[off] == 0x25
    &&& data[off + 1] == 0x50
    &&& data[off + 2] == 0x44
    &&& data[off + 3] == 0x46
}

/// One past the last buffer position the bounded search may touch: at most
/// 10 MiB past `off`, and never past the end of the buffer.
pub open spec fn pdf_window_end(data: Seq<u8>, off: int) -> int {
    if data.len() > off + 10485760 {
        off + 10485760
    } else {
        data.len() as int
    }
}

/// Whether the literal bytes `%%EOF` stand at `i`.
pub open spec fn pdf_eof_at(data: Seq<u8>, i: int) -> bool {
    &&& 0 <= i
    &&& i + 5 <= data.len()
    &&& data[i] == 0x25
    &&& data[i + 1] == 0x25
    &&& data[i + 2] == 0x45
    &&& data[i + 3] == 0x4F
    &&& data[i + 4] == 0x46
}

/// The position of the last `%%EOF` starting in `[lo, i]`, if any.
pub open spec fn pdf_last_eof(data: Seq<u8>, lo: int, i: int) -> Option<int>
    decreases i - lo + 1,
{
    if i < lo {
        None
    } else if pdf_eof_at(data, i) {
        Some(i)
    } else {
        pdf_last_eof(data, lo, i - 1)
    }
}

/// The length of the PDF file at `off`: up to and including the last
/// `%%EOF` in the search window, or `None` when the window holds none.
pub open spec fn pdf_extract(data: Seq<u8>, off: int) -> Option<int> {
    if pdf_matches(data, off) {
        match pdf_last_eof(data, off, pdf_window_end(data, off) - 5) {
            Some(p) => Some(p + 5 - off),
            None => None,
        }
    } else {
        None
    }
}

/// A found trailer position lies in range and holds the literal; later
/// positions in range hold none.
proof fn lemma_pdf_last_eof_facts(data: Seq<u8>, lo: int, i: int)
    ensures
        pdf_last_eof(data, lo, i) matches Some(p) ==> lo <= p <= i && pdf_eof_at(data, p)
            && (forall|k: int| p < k <= i ==> !pdf_eof_at(data, k)),
        pdf_last_eof(data, lo, i) is None ==> forall|k: int| lo <= k <= i ==> !pdf_eof_at(data, k),
    decreases i - lo + 1,
{
    if i < lo {
    } else if pdf_eof_at(data, i) {
    } else {
        lemma_pdf_last_eof_facts(data, lo, i - 1);
    }
}

/// The converse: a position known to hold the last trailer in range is the
/// one `pdf_last_eof` finds.
proof fn lemma_pdf_last_eof_found(data: Seq<u8>, lo: int, i: int, p: int)
    requires
        lo <= p <= i,
        pdf_eof_at(data, p),
        forall|k: int| p < k <= i ==> !pdf_eof_at(data, k),
    ensures
        pdf_last_eof(data, lo, i) == Some(p),
    decreases i - p,
{
    if p < i {
        lemma_pdf_last_eof_found(data, lo, i - 1, p);
    }
}

/// A miss on every position in range means `pdf_last_eof` finds nothing.
proof fn lemma_pdf_last_eof_none(data: Seq<u8>, lo: int, i: int)
    requires
        forall|k: int| lo <= k <= i ==> !pdf_eof_at(data, k),
    ensures
        pdf_last_eof(data, lo, i) is None,
    decreases i - lo + 1,
{
    if i >= lo {
        lemma_pdf_last_eof_none(data, lo, i - 1);
    }
}

/// PDF recognizer.
#[derive(Clone, Copy, Debug)]
pub struct PdfCarver;

impl Carver for PdfCarver {
    open spec fn spec_extension(&self) -> Seq<char> {
        "pdf"@
    }

    open spec fn spec_magic(&self) -> Seq<u8> {
        seq![0x25u8, 0x50u8, 0x44u8, 0x46u8]
    }

    open spec fn spec_min_header_len(&self) -> int {
        4
    }

    open spec fn spec_matches(&self, data: Seq<u8>, offset: int) -> bool {
        pdf_matches(data, offset)
    }

    open spec fn spec_extract(&self, data: Seq<u8>, offset: int) -> Option<int> {
        pdf_extract(data, offset)
    }

    proof fn lemma_magic_nonempty(&self) {
    }

    proof fn lemma_matches_bounds(&self, data: Seq<u8>, offset: int) {
    }

    proof fn lemma_extract_bounds(&self, data: Seq<u8>, offset: int) {
        if pdf_matches(data, offset) {
            lemma_pdf_last_eof_facts(data, offset, pdf_window_end(data, offset) - 5);
        }
    }

    fn extension(&self) -> (r: &'static str) {
        "pdf"
    }

    fn header_magic(&self) -> (r: &'static [u8]) {
        let a: &'static [u8; 4] = &[0x25, 0x50, 0x44, 0x46];
        a.as_slice()
    }

    fn matches_header(&self, data: &[u8], offset: usize) -> (b: bool) {
        if data.len() < 4 || offset > data.len() - 4 {
            false
        } else {
            *slice_index_get(data, offset) == 0x25 && *slice_index_get(data, offset + 1) == 0x50
                && *slice_index_get(data, offset + 2) == 0x44
                && *slice_index_get(data, offset + 3) == 0x46
        }
    }

    #[verifier::loop_isolation(false)]
    fn extract(&self, data: &[u8], start_offset: usize) -> (r: Option<usize>) {
        let n = data.len();
        if !self.matches_header(data, start_offset) {
            return None;
        }
        let off = start_offset;
        let end: usize = if n - off > 10485760 {
            off + 10485760
        } else {
            n
        };
        assert(end == pdf_window_end(data@, off as int));
        if end - off < 5 {
            return None;
        }
        let mut i: usize = end - 5;
        loop
            invariant
                off <= i <= end - 5,
                pdf_last_eof(data@, off as int, end - 5) == pdf_last_eof(
                    data@,
                    off as int,
                    i as int,
                ),
            decreases i,
        {
            if *slice_index_get(data, i) == 0x25 && *slice_index_get(data, i + 1) == 0x25
                && *slice_index_get(data, i + 2) == 0x45 && *slice_index_get(data, i + 3) == 0x4F
                && *slice_index_get(data, i + 4) == 0x46 {
                return Some(i + 5 - off);
            }
            if i == off {
                assert(pdf_last_eof(data@, off as int, off - 1) is None);
                return None;
            }
            i = i - 1;
        }
    }
}

/// With `%%EOF` absent from the whole search window, nothing is carved:
/// a trailer beyond 10 MiB is out of the recognizer's reach.
pub proof fn lemma_pdf_window_bound(data: Seq<u8>, off: int)
    requires
        pdf_matches(data, off),
        forall|k: int| off <= k <= pdf_window_end(data, off) - 5 ==> !pdf_eof_at(data, k),
    ensures
        pdf_extract(data, off) is None,
{
    lemma_pdf_last_eof_none(data, off, pdf_window_end(data, off) - 5);
}

/// Of two trailers inside the window the later one bounds the file: a
/// position holding `%%EOF` with no later `%%EOF` in the window carves to
/// exactly `p + 5 - off` bytes.
pub proof fn lemma_pdf_last_eof_wins(data: Seq<u8>, off: int, p: int)
    requires
        pdf_matches(data, off),
        off <= p <= pdf_window_end(data, off) - 5,
        pdf_eof_at(data, p),
        forall|k: int| p < k <= pdf_window_end(data, off) - 5 ==> !pdf_eof_at(data, k),
    ensures
        pdf_extract(data, off) == Some(p + 5 - off),
{
    lemma_pdf_last_eof_found(data, off, pdf_window_end(data, off) - 5, p);
}

} // verus!
