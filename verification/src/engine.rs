//! The scan engine: enumerates every offset of the input buffer, rejects
//! in one table lookup the offsets at which no registered format can start,
//! and at the surviving offsets runs every registered recognizer in
//! registration order, emitting one `ExtractedFile` per successful
//! extraction. Chunking a scan into ranges is pure scheduling: the files
//! found do not depend on how the buffer is split.

use vstd::prelude::*;
use vstd::slice::slice_index_get;
use crate::carver::{Carver, ExtractedFile};
use crate::gif::GifCarver;
use crate::jpeg::JpegCarver;
use crate::pdf::PdfCarver;
use crate::png::PngCarver;

verus! {

/// The closed set of registered recognizers, dispatched by variant.
#[derive(Clone, Copy, Debug)]
pub enum AnyCarver {
    Jpeg(JpegCarver),
    Png(PngCarver),
    Gif(GifCarver),
    Pdf(PdfCarver),
}

impl Carver for AnyCarver {
    open spec fn spec_extension(&self) -> Seq<char> {
        match self {
            AnyCarver::Jpeg(c) => c.spec_extension(),
            AnyCarver::Png(c) => c.spec_extension(),
            AnyCarver::Gif(c) => c.spec_extension(),
            AnyCarver::Pdf(c) => c.spec_extension(),
        }
    }

    open spec fn spec_magic(&self) -> Seq<u8> {
        match self {
            AnyCarver::Jpeg(c) => c.spec_magic(),
            AnyCarver::Png(c) => c.spec_magic(),
            AnyCarver::Gif(c) => c.spec_magic(),
            AnyCarver::Pdf(c) => c.spec_magic(),
        }
    }

    open spec fn spec_min_header_len(&self) -> int {
        match self {
            AnyCarver::Jpeg(c) => c.spec_min_header_len(),
            AnyCarver::Png(c) => c.spec_min_header_len(),
            AnyCarver::Gif(c) => c.spec_min_header_len(),
            AnyCarver::Pdf(c) => c.spec_min_header_len(),
        }
    }

    open spec fn spec_matches(&self, data: Seq<u8>, offset: int) -> bool {
        match self {
            AnyCarver::Jpeg(c) => c.spec_matches(data, offset),
            AnyCarver::Png(c) => c.spec_matches(data, offset),
            AnyCarver::Gif(c) => c.spec_matches(data, offset),
            AnyCarver::Pdf(c) => c.spec_matches(data, offset),
        }
    }

    open spec fn spec_extract(&self, data: Seq<u8>, offset: int) -> Option<int> {
        match self {
            AnyCarver::Jpeg(c) => c.spec_extract(data, offset),
            AnyCarver::Png(c) => c.spec_extract(data, offset),
            AnyCarver::Gif(c) => c.spec_extract(data, offset),
            AnyCarver::Pdf(c) => c.spec_extract(data, offset),
        }
    }

    proof fn lemma_magic_nonempty(&self) {
        match self {
            AnyCarver::Jpeg(c) => c.lemma_magic_nonempty(),
            AnyCarver::Png(c) => c.lemma_magic_nonempty(),
            AnyCarver::Gif(c) => c.lemma_magic_nonempty(),
            AnyCarver::Pdf(c) => c.lemma_magic_nonempty(),
        }
    }

    proof fn lemma_matches_bounds(&self, data: Seq<u8>, offset: int) {
        match self {
            AnyCarver::Jpeg(c) => c.lemma_matches_bounds(data, offset),
            AnyCarver::Png(c) => c.lemma_matches_bounds(data, offset),
            AnyCarver::Gif(c) => c.lemma_matches_bounds(data, offset),
            AnyCarver::Pdf(c) => c.lemma_matches_bounds(data, offset),
        }
    }

    proof fn lemma_extract_bounds(&self, data: Seq<u8>, offset: int) {
        match self {
            AnyCarver::Jpeg(c) => c.lemma_extract_bounds(data, offset),
            AnyCarver::Png(c) => c.lemma_extract_bounds(data, offset),
            AnyCarver::Gif(c) => c.lemma_extract_bounds(data, offset),
            AnyCarver::Pdf(c) => c.lemma_extract_bounds(data, offset),
        }
    }

    fn extension(&self) -> (r: &'static str) {
        match self {
            AnyCarver::Jpeg(c) => c.extension(),
            AnyCarver::Png(c) => c.extension(),
            AnyCarver::Gif(c) => c.extension(),
            AnyCarver::Pdf(c) => c.extension(),
        }
    }

    fn header_magic(&self) -> (r: &'static [u8]) {
        match self {
            AnyCarver::Jpeg(c) => c.header_magic(),
            AnyCarver::Png(c) => c.header_magic(),
            AnyCarver::Gif(c) => c.header_magic(),
            AnyCarver::Pdf(c) => c.header_magic(),
        }
    }

    fn matches_header(&self, data: &[u8], offset: usize) -> (b: bool) {
        match self {
            AnyCarver::Jpeg(c) => c.matches_header(data, offset),
            AnyCarver::Png(c) => c.matches_header(data, offset),
            AnyCarver::Gif(c) => c.matches_header(data, offset),
            AnyCarver::Pdf(c) => c.matches_header(data, offset),
        }
    }

    fn extract(&self, data: &[u8], start_offset: usize) -> (r: Option<usize>) {
        match self {
            AnyCarver::Jpeg(c) => c.extract(data, start_offset),
            AnyCarver::Png(c) => c.extract(data, start_offset),
            AnyCarver::Gif(c) => c.extract(data, start_offset),
            AnyCarver::Pdf(c) => c.extract(data, start_offset),
        }
    }
}

/// The files the recognizers `cs` find at the single offset `off`, in
/// registration order: one `(start, extension, length)` triple per
/// recognizer whose structure walk determines a length there.
pub open spec fn hits_at(cs: Seq<AnyCarver>, data: Seq<u8>, off: int) -> Seq<(int, Seq<char>, int)>
    decreases cs.len(),
{
    if cs.len() == 0 {
        Seq::empty()
    } else {
        (match cs[0].spec_extract(data, off) {
            Some(l) => seq![(off, cs[0].spec_extension(), l)],
            None => Seq::empty(),
        }) + hits_at(cs.skip(1), data, off)
    }
}

/// The files found over the offset range `[lo, hi)`, offset by offset.
pub open spec fn hits_in(cs: Seq<AnyCarver>, data: Seq<u8>, lo: int, hi: int) -> Seq<
    (int, Seq<char>, int),
>
    decreases hi - lo,
{
    if lo >= hi {
        Seq::empty()
    } else {
        hits_at(cs, data, lo) + hits_in(cs, data, lo + 1, hi)
    }
}

/// Whether some registered recognizer's magic starts with the byte `b`.
pub open spec fn first_byte_present(cs: Seq<AnyCarver>, b: u8) -> bool {
    exists|k: int| 0 <= k < cs.len() && (#[trigger] cs[k].spec_magic())[0] == b
}

/// The fast-reject gate is sound: at an offset whose byte opens no
/// registered magic, no recognizer finds anything, so skipping the offset
/// without invoking any recognizer loses no file.
pub proof fn lemma_filter_sound(cs: Seq<AnyCarver>, data: Seq<u8>, off: int)
    requires
        0 <= off < data.len(),
        !first_byte_present(cs, data[off]),
    ensures
        hits_at(cs, data, off) == Seq::<(int, Seq<char>, int)>::empty(),
    decreases cs.len(),
{
    if cs.len() > 0 {
        if cs[0].spec_extract(data, off) is Some {
            cs[0].lemma_extract_bounds(data, off);
            cs[0].lemma_matches_bounds(data, off);
            assert((cs[0].spec_magic())[0] == data[off]);
            assert(first_byte_present(cs, data[off]));
        }
        assert(forall|k: int| 0 <= k < cs.skip(1).len()
            ==> (#[trigger] cs.skip(1)[k].spec_magic())[0] != data[off]) by {
            assert(forall|k: int| 0 <= k < cs.skip(1).len() ==> cs.skip(1)[k] == cs[k + 1]);
        }
        lemma_filter_sound(cs.skip(1), data, off);
        assert(hits_at(cs, data, off) =~= Seq::<(int, Seq<char>, int)>::empty());
    } else {
        assert(hits_at(cs, data, off) =~= Seq::<(int, Seq<char>, int)>::empty());
    }
}

/// Scanning a range is the same as scanning its two halves one after the
/// other: the files recovered do not depend on how the buffer is cut into
/// chunks, which is what makes parallel chunk scheduling deterministic.
pub proof fn lemma_scan_split(cs: Seq<AnyCarver>, data: Seq<u8>, a: int, b: int, c: int)
    requires
        a <= b <= c,
    ensures
        hits_in(cs, data, a, c) == hits_in(cs, data, a, b) + hits_in(cs, data, b, c),
    decreases b - a,
{
    if a >= b {
        assert(hits_in(cs, data, a, c) =~= hits_in(cs, data, a, b) + hits_in(cs, data, b, c));
    } else {
        lemma_scan_split(cs, data, a + 1, b, c);
        assert(hits_in(cs, data, a, c) =~= hits_in(cs, data, a, b) + hits_in(cs, data, b, c));
    }
}

/// Extending a scanned range by one offset appends that offset's files.
proof fn lemma_hits_in_snoc(cs: Seq<AnyCarver>, data: Seq<u8>, lo: int, off: int)
    requires
        lo <= off,
    ensures
        hits_in(cs, data, lo, off + 1) == hits_in(cs, data, lo, off) + hits_at(cs, data, off),
{
    lemma_scan_split(cs, data, lo, off, off + 1);
    assert(hits_in(cs, data, off + 1, off + 1) =~= Seq::<(int, Seq<char>, int)>::empty());
    assert(hits_in(cs, data, off, off + 1) =~= hits_at(cs, data, off));
}

/// The 256-entry presence table over the first bytes of the registered
/// magics, frozen after construction: one lookup decides whether any
/// recognizer could start at an offset.
pub struct FirstByteFilter {
    table: Vec<bool>,
}

impl FirstByteFilter {
    /// The table covers every byte value.
    pub closed spec fn wf(&self) -> bool {
        self.table@.len() == 256
    }

    /// What the table answers for the byte `b`.
    pub closed spec fn spec_allows(&self, b: u8) -> bool {
        self.table@[b as int]
    }

    /// The table answers exactly "does some recognizer's magic start with
    /// this byte" for the recognizer list it was built from.
    pub open spec fn covers(&self, cs: Seq<AnyCarver>) -> bool {
        forall|b: u8| self.spec_allows(b) == first_byte_present(cs, b)
    }

    /// Build the table for a recognizer list.
    pub fn build(cs: &Vec<AnyCarver>) -> (r: Self)
        ensures
            r.wf(),
            r.covers(cs@),
    {
        let mut table: Vec<bool> = Vec::new();
        let mut v: usize = 0;
        while v < 256
            invariant
                v <= 256,
                table@.len() == v,
                forall|j: int| 0 <= j < v ==> table@[j] == first_byte_present(cs@, j as u8),
            decreases 256 - v,
        {
            let p = has_first_byte(cs, v as u8);
            table.push(p);
            v = v + 1;
        }
        FirstByteFilter { table }
    }

    /// One table lookup: may any recognizer start with the byte `b`?
    pub fn allows(&self, b: u8) -> (r: bool)
        requires
            self.wf(),
        ensures
            r == self.spec_allows(b),
    {
        self.table[b as usize]
    }
}

/// Whether some recognizer in the list has a magic opening with `b`.
fn has_first_byte(cs: &Vec<AnyCarver>, b: u8) -> (r: bool)
    ensures
        r == first_byte_present(cs@, b),
{
    let mut k: usize = 0;
    while k < cs.len()
        invariant
            k <= cs@.len(),
            forall|j: int| 0 <= j < k ==> (#[trigger] cs@[j].spec_magic())[0] != b,
        decreases cs@.len() - k,
    {
        let m = cs[k].header_magic();
        proof {
            cs@[k as int].lemma_magic_nonempty();
        }
        if *slice_index_get(m, 0) == b {
            return true;
        }
        k = k + 1;
    }
    false
}

/// The scan engine: a registered recognizer list and the frozen
/// fast-reject filter built from it.
pub struct ScanEngine {
    pub carvers: Vec<AnyCarver>,
    pub filter: FirstByteFilter,
}

impl ScanEngine {
    /// A usable engine: at least one recognizer, each registered under its
    /// own extension, and a filter that answers for exactly this list.
    pub open spec fn wf(&self) -> bool {
        &&& self.carvers@.len() > 0
        &&& (forall|i: int, j: int| 0 <= i < j < self.carvers@.len()
            ==> #[trigger] self.carvers@[i].spec_extension()
            != #[trigger] self.carvers@[j].spec_extension())
        &&& self.filter.wf()
        &&& self.filter.covers(self.carvers@)
    }

    /// Register a recognizer list and build its fast-reject filter.
    pub fn new(carvers: Vec<AnyCarver>) -> (r: Self)
        requires
            carvers@.len() > 0,
            forall|i: int, j: int| 0 <= i < j < carvers@.len()
                ==> #[trigger] carvers@[i].spec_extension()
                != #[trigger] carvers@[j].spec_extension(),
        ensures
            r.wf(),
            r.carvers@ == carvers@,
    {
        let filter = FirstByteFilter::build(&carvers);
        ScanEngine { carvers, filter }
    }

    /// Scan the offsets `[lo, hi)` of the buffer. The result is exactly
    /// the files the recognizers determine there, in offset order and, at
    /// one offset, in registration order; every reported region lies
    /// inside the buffer.
    #[verifier::loop_isolation(false)]
    pub fn scan_range(&self, data: &[u8], lo: usize, hi: usize) -> (out: Vec<ExtractedFile>)
        requires
            self.wf(),
            lo <= hi,
            hi <= data@.len(),
        ensures
            out@.map_values(|e: ExtractedFile| e.triple()) == hits_in(
                self.carvers@,
                data@,
                lo as int,
                hi as int,
            ),
            forall|i: int| 0 <= i < out@.len() ==> lo <= (#[trigger] out@[i]).start
                && out@[i].start < hi && 0 < out@[i].length
                && out@[i].start + out@[i].length <= data@.len(),
    {
        let cs = &self.carvers;
        let mut out: Vec<ExtractedFile> = Vec::new();
        let mut off: usize = lo;
        while off < hi
            invariant
                lo <= off <= hi,
                out@.map_values(|e: ExtractedFile| e.triple()) == hits_in(
                    cs@,
                    data@,
                    lo as int,
                    off as int,
                ),
                forall|i: int| 0 <= i < out@.len() ==> lo <= (#[trigger] out@[i]).start
                    && out@[i].start < hi && 0 < out@[i].length
                    && out@[i].start + out@[i].length <= data@.len(),
            decreases hi - off,
        {
            let b = *slice_index_get(data, off);
            if self.filter.allows(b) {
                proof {
                    assert(cs@.skip(0) =~= cs@);
                }
                let mut j: usize = 0;
                while j < cs.len()
                    invariant
                        j <= cs@.len(),
                        out@.map_values(|e: ExtractedFile| e.triple()) + hits_at(
                            cs@.skip(j as int),
                            data@,
                            off as int,
                        ) == hits_in(cs@, data@, lo as int, off as int) + hits_at(
                            cs@,
                            data@,
                            off as int,
                        ),
                        forall|i: int| 0 <= i < out@.len() ==> lo <= (#[trigger] out@[i]).start
                            && out@[i].start < hi && 0 < out@[i].length
                            && out@[i].start + out@[i].length <= data@.len(),
                    decreases cs@.len() - j,
                {
                    let c = cs[j];
                    let ghost tail = cs@.skip(j as int);
                    proof {
                        assert(tail[0] == cs@[j as int]);
                        assert(tail.skip(1) =~= cs@.skip(j as int + 1));
                        c.lemma_extract_bounds(data@, off as int);
                    }
                    if c.matches_header(data, off) {
                        match c.extract(data, off) {
                            Some(l) => {
                                let e = ExtractedFile {
                                    start: off,
                                    length: l,
                                    extension: c.extension(),
                                };
                                let ghost prev = out@;
                                out.push(e);
                                proof {
                                    assert(out@.map_values(|e: ExtractedFile| e.triple())
                                        =~= prev.map_values(|e: ExtractedFile| e.triple())
                                        + seq![(off as int, c.spec_extension(), l as int)]);
                                    assert(hits_at(tail, data@, off as int) == seq![
                                        (off as int, c.spec_extension(), l as int),
                                    ] + hits_at(cs@.skip(j as int + 1), data@, off as int));
                                }
                            },
                            None => {
                                proof {
                                    assert(hits_at(tail, data@, off as int) =~= hits_at(
                                        cs@.skip(j as int + 1),
                                        data@,
                                        off as int,
                                    ));
                                }
                            },
                        }
                    } else {
                        proof {
                            assert(cs@[j as int].spec_extract(data@, off as int) is None);
                            assert(hits_at(tail, data@, off as int) =~= hits_at(
                                cs@.skip(j as int + 1),
                                data@,
                                off as int,
                            ));
                        }
                    }
                    j = j + 1;
                }
                proof {
                    assert(cs@.skip(cs@.len() as int) =~= Seq::<AnyCarver>::empty());
                    assert(hits_at(cs@.skip(cs@.len() as int), data@, off as int)
                        =~= Seq::<(int, Seq<char>, int)>::empty());
                    lemma_hits_in_snoc(cs@, data@, lo as int, off as int);
                    assert(out@.map_values(|e: ExtractedFile| e.triple()) =~= hits_in(
                        cs@,
                        data@,
                        lo as int,
                        off as int + 1,
                    ));
                }
            } else {
                proof {
                    assert(!first_byte_present(cs@, data@[off as int]));
                    lemma_filter_sound(cs@, data@, off as int);
                    lemma_hits_in_snoc(cs@, data@, lo as int, off as int);
                }
            }
            off = off + 1;
        }
        out
    }

    /// Scan the whole buffer.
    pub fn scan(&self, data: &[u8]) -> (out: Vec<ExtractedFile>)
        requires
            self.wf(),
        ensures
            out@.map_values(|e: ExtractedFile| e.triple()) == hits_in(
                self.carvers@,
                data@,
                0,
                data@.len() as int,
            ),
            forall|i: int| 0 <= i < out@.len() ==> 0 < (#[trigger] out@[i]).length
                && out@[i].start + out@[i].length <= data@.len(),
    {
        self.scan_range(data, 0, data.len())
    }
}

/// The standard recognizer registration: JPEG, PNG, GIF, PDF, in that
/// order, each under its own extension.
pub fn default_carvers() -> (r: Vec<AnyCarver>)
    ensures
        r@.len() == 4,
        r@[0] == AnyCarver::Jpeg(JpegCarver),
        r@[1] == AnyCarver::Png(PngCarver),
        r@[2] == AnyCarver::Gif(GifCarver),
        r@[3] == AnyCarver::Pdf(PdfCarver),
        forall|i: int, j: int| 0 <= i < j < r@.len()
            ==> #[trigger] r@[i].spec_extension() != #[trigger] r@[j].spec_extension(),
{
    let mut v: Vec<AnyCarver> = Vec::new();
    v.push(AnyCarver::Jpeg(JpegCarver));
    v.push(AnyCarver::Png(PngCarver));
    v.push(AnyCarver::Gif(GifCarver));
    v.push(AnyCarver::Pdf(PdfCarver));
    proof {
        reveal_strlit("jpg");
        reveal_strlit("png");
        reveal_strlit("gif");
        reveal_strlit("pdf");
        assert("jpg"@[0] != "png"@[0] && "jpg"@[0] != "gif"@[0] && "jpg"@[0] != "pdf"@[0]);
        assert("png"@[0] != "gif"@[0] && "png"@[1] != "pdf"@[1] && "gif"@[0] != "pdf"@[0]);
    }
    v
}

/// An engine over the standard recognizer registration.
pub fn default_engine() -> (r: ScanEngine)
    ensures
        r.wf(),
        r.carvers@.len() == 4,
        r.carvers@[0] == AnyCarver::Jpeg(JpegCarver),
        r.carvers@[1] == AnyCarver::Png(PngCarver),
        r.carvers@[2] == AnyCarver::Gif(GifCarver),
        r.carvers@[3] == AnyCarver::Pdf(PdfCarver),
{
    ScanEngine::new(default_carvers())
}

} // verus!
