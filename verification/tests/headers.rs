//! Header matching: each recognizer accepts exactly its signature set and
//! rejects every single-byte mutation and every truncated buffer.

use rforemost::carver::Carver;
use rforemost::gif::GifCarver;
use rforemost::jpeg::JpegCarver;
use rforemost::pdf::PdfCarver;
use rforemost::png::PngCarver;

const PNG_SIG: [u8; 8] = [0x89, 0x50, 0x4E, 0x47, 0x0D, 0x0A, 0x1A, 0x0A];

#[test]
fn jpeg_header_exact() {
    let buf = vec![0xFF, 0xD8, 0x00];
    assert!(JpegCarver.matches_header(&buf, 0));
    assert!(!JpegCarver.matches_header(&buf, 1));
    let mid = vec![0x00, 0xFF, 0xD8];
    assert!(JpegCarver.matches_header(&mid, 1));
}

#[test]
fn jpeg_header_mutations_rejected() {
    for i in 0..2 {
        let mut buf: Vec<u8> = vec![0xFF, 0xD8];
        buf[i] = buf[i].wrapping_add(1);
        assert!(!JpegCarver.matches_header(&buf, 0));
    }
}

#[test]
fn png_header_exact() {
    let buf = PNG_SIG.to_vec();
    assert!(PngCarver.matches_header(&buf, 0));
    for i in 0..8 {
        let mut m = PNG_SIG.to_vec();
        m[i] = m[i].wrapping_add(1);
        assert!(!PngCarver.matches_header(&m, 0));
    }
}

#[test]
fn gif_header_both_versions() {
    assert!(GifCarver.matches_header(b"GIF87a", 0));
    assert!(GifCarver.matches_header(b"GIF89a", 0));
    assert!(!GifCarver.matches_header(b"GIF88a", 0));
    assert!(!GifCarver.matches_header(b"GIF97a", 0));
    for i in 0..6 {
        let mut m = b"GIF89a".to_vec();
        m[i] = m[i].wrapping_add(1);
        assert!(!GifCarver.matches_header(&m, 0));
    }
}

#[test]
fn pdf_header_exact() {
    assert!(PdfCarver.matches_header(b"%PDF-1.7", 0));
    for i in 0..4 {
        let mut m = b"%PDF".to_vec();
        m[i] = m[i].wrapping_add(1);
        assert!(!PdfCarver.matches_header(&m, 0));
    }
}

#[test]
fn truncated_buffers_never_match() {
    for len in 0..2 {
        let buf = vec![0xFF; len];
        assert!(!JpegCarver.matches_header(&buf, 0));
        assert_eq!(JpegCarver.extract(&buf, 0), None);
    }
    for len in 0..8 {
        let buf = PNG_SIG[..len].to_vec();
        assert!(!PngCarver.matches_header(&buf, 0));
        assert_eq!(PngCarver.extract(&buf, 0), None);
    }
    for len in 0..6 {
        let buf = b"GIF89a"[..len].to_vec();
        assert!(!GifCarver.matches_header(&buf, 0));
        assert_eq!(GifCarver.extract(&buf, 0), None);
    }
    for len in 0..4 {
        let buf = b"%PDF"[..len].to_vec();
        assert!(!PdfCarver.matches_header(&buf, 0));
        assert_eq!(PdfCarver.extract(&buf, 0), None);
    }
}

#[test]
fn offset_past_end_never_matches() {
    let buf = vec![0xFF, 0xD8];
    assert!(!JpegCarver.matches_header(&buf, 1));
    assert!(!JpegCarver.matches_header(&buf, 2));
    assert!(!JpegCarver.matches_header(&buf, usize::MAX));
}

#[test]
fn extensions_and_magics() {
    assert_eq!(JpegCarver.extension(), "jpg");
    assert_eq!(PngCarver.extension(), "png");
    assert_eq!(GifCarver.extension(), "gif");
    assert_eq!(PdfCarver.extension(), "pdf");
    assert_eq!(JpegCarver.header_magic(), &[0xFF, 0xD8]);
    assert_eq!(PngCarver.header_magic(), &PNG_SIG);
    assert_eq!(GifCarver.header_magic(), b"GIF8");
    assert_eq!(PdfCarver.header_magic(), b"%PDF");
}
