//! Length determination for each format: round trips over synthetic files
//! and absence on malformed or truncated structures.

use rforemost::carver::Carver;
use rforemost::gif::GifCarver;
use rforemost::jpeg::JpegCarver;
use rforemost::pdf::PdfCarver;
use rforemost::png::PngCarver;

const PNG_SIG: [u8; 8] = [0x89, 0x50, 0x4E, 0x47, 0x0D, 0x0A, 0x1A, 0x0A];

#[test]
fn jpeg_minimal_roundtrip() {
    // start-of-image directly followed by end-of-image
    let buf = vec![0xFF, 0xD8, 0xFF, 0xD9];
    assert_eq!(JpegCarver.extract(&buf, 0), Some(4));
}

#[test]
fn jpeg_segment_and_scan_roundtrip() {
    // FFD8 + one APP0 segment of declared length 4 + FFDA scan header of
    // declared length 4 + two bitstream bytes + FFD9
    let buf = vec![
        0xFF, 0xD8, // SOI
        0xFF, 0xE0, 0x00, 0x04, 0x01, 0x02, // APP0, length 4
        0xFF, 0xDA, 0x00, 0x04, 0x03, 0x04, // SOS, length 4
        0x05, 0x06, // bitstream
        0xFF, 0xD9, // EOI
    ];
    assert_eq!(JpegCarver.extract(&buf, 0), Some(buf.len()));
}

#[test]
fn jpeg_roundtrip_with_trailing_data() {
    let mut buf = vec![0xFF, 0xD8, 0xFF, 0xD9];
    buf.extend(vec![0xAA; 16]);
    assert_eq!(JpegCarver.extract(&buf, 0), Some(4));
}

#[test]
fn jpeg_at_nonzero_offset() {
    let mut buf = vec![0x00, 0x11, 0x22];
    buf.extend(vec![0xFF, 0xD8, 0xFF, 0xD9]);
    assert_eq!(JpegCarver.extract(&buf, 3), Some(4));
}

#[test]
fn jpeg_standalone_markers_are_skipped() {
    let buf = vec![0xFF, 0xD8, 0xFF, 0x01, 0xFF, 0xD0, 0xFF, 0xD7, 0xFF, 0xD9];
    assert_eq!(JpegCarver.extract(&buf, 0), Some(10));
}

#[test]
fn jpeg_malformed_marker_byte() {
    // after the header the walk must see 0xFF; 0x00 is a malformed stream
    let buf = vec![0xFF, 0xD8, 0x00, 0xD9, 0xFF, 0xD9];
    assert_eq!(JpegCarver.extract(&buf, 0), None);
}

#[test]
fn jpeg_truncated_segment_length() {
    // segment marker with no room for its length field
    let buf = vec![0xFF, 0xD8, 0xFF, 0xE0, 0x00];
    assert_eq!(JpegCarver.extract(&buf, 0), None);
}

#[test]
fn jpeg_bitstream_without_eoi() {
    let buf = vec![0xFF, 0xD8, 0xFF, 0xDA, 0x00, 0x04, 0x03, 0x04, 0x05, 0x06];
    assert_eq!(JpegCarver.extract(&buf, 0), None);
}

#[test]
fn jpeg_segment_skip_depends_on_declared_length() {
    // the declared APP0 length 6 makes the walk land exactly on the EOI
    let buf = vec![
        0xFF, 0xD8, // SOI
        0xFF, 0xE0, 0x00, 0x06, 0xFF, 0xD9, 0x00, 0x00, // APP0, length 6
        0xFF, 0xD9, // EOI
    ];
    assert_eq!(JpegCarver.extract(&buf, 0), Some(12));
}

fn png_chunk(tag: &[u8; 4], data: &[u8]) -> Vec<u8> {
    let mut out = Vec::new();
    out.extend((data.len() as u32).to_be_bytes());
    out.extend(tag);
    out.extend(data);
    out.extend([0u8; 4]); // checksum: not validated by the carver
    out
}

#[test]
fn png_roundtrip_two_chunks() {
    let mut buf = PNG_SIG.to_vec();
    buf.extend(png_chunk(b"IHDR", &[0x01, 0x02]));
    buf.extend(png_chunk(b"IEND", &[]));
    // 8 + (12 + 2) + (12 + 0)
    assert_eq!(buf.len(), 34);
    assert_eq!(PngCarver.extract(&buf, 0), Some(34));
}

#[test]
fn png_roundtrip_with_trailing_data() {
    let mut buf = PNG_SIG.to_vec();
    buf.extend(png_chunk(b"IEND", &[]));
    buf.extend(vec![0x55; 9]);
    assert_eq!(PngCarver.extract(&buf, 0), Some(20));
}

#[test]
fn png_chunk_length_drives_the_walk() {
    // a wrong declared length would miss the IEND header entirely
    let mut buf = PNG_SIG.to_vec();
    buf.extend(png_chunk(b"tEXt", &[0x61, 0x62, 0x63]));
    buf.extend(png_chunk(b"IEND", &[]));
    assert_eq!(PngCarver.extract(&buf, 0), Some(8 + 15 + 12));
}

#[test]
fn png_no_iend_is_absence() {
    let mut buf = PNG_SIG.to_vec();
    buf.extend(png_chunk(b"IHDR", &[0x01]));
    assert_eq!(PngCarver.extract(&buf, 0), None);
}

#[test]
fn png_iend_overrunning_buffer_is_absence() {
    let mut buf = PNG_SIG.to_vec();
    // IEND claims 4 data bytes but the buffer ends after its type tag
    buf.extend([0x00, 0x00, 0x00, 0x04]);
    buf.extend(b"IEND");
    assert_eq!(PngCarver.extract(&buf, 0), None);
}

#[test]
fn gif_roundtrip_trailer_position() {
    let mut buf = b"GIF89a".to_vec();
    buf.extend(vec![0x00; 10]);
    buf.push(0x3B); // trailer at position 16
    buf.extend(vec![0x01, 0x3B]); // later bytes do not matter
    assert_eq!(GifCarver.extract(&buf, 0), Some(17));
}

#[test]
fn gif87a_roundtrip() {
    let mut buf = b"GIF87a".to_vec();
    buf.push(0x3B);
    assert_eq!(GifCarver.extract(&buf, 0), Some(7));
}

#[test]
fn gif_no_trailer_is_absence() {
    let mut buf = b"GIF89a".to_vec();
    buf.extend(vec![0x01; 20]);
    assert_eq!(GifCarver.extract(&buf, 0), None);
}

#[test]
fn pdf_last_eof_wins() {
    let mut buf = b"%PDF-1.4 ".to_vec();
    buf.extend(b"%%EOF");
    buf.extend(vec![0x20; 7]);
    buf.extend(b"%%EOF"); // starts at 21, ends at 26
    buf.extend(vec![0x20; 3]);
    assert_eq!(PdfCarver.extract(&buf, 0), Some(26));
}

#[test]
fn pdf_single_eof() {
    let mut buf = b"%PDF".to_vec();
    buf.extend(b"%%EOF");
    assert_eq!(PdfCarver.extract(&buf, 0), Some(9));
}

#[test]
fn pdf_no_eof_is_absence() {
    let buf = b"%PDF-1.4 no trailer here".to_vec();
    assert_eq!(PdfCarver.extract(&buf, 0), None);
}

#[test]
fn pdf_eof_beyond_window_is_absence() {
    // %%EOF exists, but only past the 10 MiB search window
    let window = 10 * 1024 * 1024;
    let mut buf = b"%PDF".to_vec();
    buf.resize(window + 2, 0x20);
    buf.extend(b"%%EOF");
    assert_eq!(PdfCarver.extract(&buf, 0), None);
}

#[test]
fn pdf_eof_inside_window_is_found() {
    let window = 10 * 1024 * 1024;
    let mut buf = b"%PDF".to_vec();
    buf.resize(window - 5, 0x20);
    buf.extend(b"%%EOF"); // ends exactly at the window edge
    assert_eq!(PdfCarver.extract(&buf, 0), Some(window));
}
