//! The scan engine: fast-reject filter, full scans, and independence of
//! the result set from how the buffer is chunked.

use rforemost::carver::Carver;
use rforemost::engine::{default_carvers, default_engine, AnyCarver, FirstByteFilter, ScanEngine};

fn triples(files: &[rforemost::carver::ExtractedFile]) -> Vec<(usize, &'static str, usize)> {
    let mut v: Vec<(usize, &'static str, usize)> = files
        .iter()
        .map(|e| (e.start, e.extension, e.length))
        .collect();
    v.sort();
    v
}

fn sample_buffer() -> Vec<u8> {
    let mut buf = vec![0x00; 10];
    buf.extend(vec![0xFF, 0xD8, 0xFF, 0xD9]); // JPEG at 10, length 4
    buf.extend(vec![0x00; 6]);
    buf.extend(b"GIF89a"); // GIF at 20
    buf.extend(vec![0x01; 4]);
    buf.push(0x3B); // trailer at 30: GIF length 11
    buf.extend(vec![0x00; 5]);
    buf
}

#[test]
fn default_registration_order() {
    let cs = default_carvers();
    let exts: Vec<&str> = cs.iter().map(|c| c.extension()).collect();
    assert_eq!(exts, vec!["jpg", "png", "gif", "pdf"]);
}

#[test]
fn filter_marks_exactly_the_first_bytes() {
    let cs = default_carvers();
    let filter = FirstByteFilter::build(&cs);
    for b in 0..=255u8 {
        let expected = b == 0xFF || b == 0x89 || b == b'G' || b == b'%';
        assert_eq!(filter.allows(b), expected);
    }
}

#[test]
fn scan_finds_embedded_files() {
    let engine = default_engine();
    let buf = sample_buffer();
    let files = engine.scan(&buf);
    assert_eq!(triples(&files), vec![(10, "jpg", 4), (20, "gif", 11)]);
}

#[test]
fn scan_respects_buffer_bounds() {
    let engine = default_engine();
    let buf = sample_buffer();
    for e in engine.scan(&buf) {
        assert!(e.length > 0);
        assert!(e.start + e.length <= buf.len());
    }
}

#[test]
fn scan_of_unmatchable_bytes_is_empty() {
    // no registered magic starts with 0x00, so the filter rejects every offset
    let engine = default_engine();
    let buf = vec![0x00; 4096];
    assert!(engine.scan(&buf).is_empty());
}

#[test]
fn chunked_scans_agree_with_full_scan() {
    let engine = default_engine();
    let buf = sample_buffer();
    let full = triples(&engine.scan(&buf));
    for chunk in [1, 2, 3, 7, 13, buf.len()] {
        let mut pieces = Vec::new();
        let mut lo = 0;
        while lo < buf.len() {
            let hi = (lo + chunk).min(buf.len());
            pieces.extend(engine.scan_range(&buf, lo, hi));
            lo = hi;
        }
        assert_eq!(triples(&pieces), full);
    }
}

#[test]
fn match_spanning_a_chunk_boundary_is_kept() {
    // the JPEG at 10 runs past the range end: recognizers read the full
    // buffer, the range only decides which start offsets are visited
    let engine = default_engine();
    let buf = sample_buffer();
    let files = engine.scan_range(&buf, 0, 12);
    assert_eq!(triples(&files), vec![(10, "jpg", 4)]);
}

#[test]
fn custom_registration_scans_only_its_formats() {
    let engine = ScanEngine::new(vec![AnyCarver::Gif(rforemost::gif::GifCarver)]);
    let buf = sample_buffer();
    let files = engine.scan(&buf);
    assert_eq!(triples(&files), vec![(20, "gif", 11)]);
}
