use mime_db::{from_prefix, MimeDb, Source, SourceEntry};

fn empty() -> MimeDb {
    MimeDb::build(&vec![])
}

fn sniffed(bytes: &[u8]) -> Option<&'static str> {
    let db = empty();
    from_prefix(&db, bytes).map(|(m, _)| m)
}

#[test]
fn png() {
    assert_eq!(sniffed(&[0x89, 0x50, 0x4E, 0x47, 0x0D, 0x0A, 0x1A, 0x0A]), Some("image/png"));
}

#[test]
fn gif() {
    assert_eq!(sniffed(b"GIF89a"), Some("image/gif"));
    assert_eq!(sniffed(b"GIF87a"), Some("image/gif"));
}

#[test]
fn riff_webp() {
    assert_eq!(sniffed(b"RIFF\0\0\0\0WEBP"), Some("image/webp"));
    assert_eq!(sniffed(b"RIFF\0\0\0\0WAVE"), Some("audio/wav"));
    assert_eq!(sniffed(b"RIFF\0\0\0\0AVI "), Some("video/x-msvideo"));
}

#[test]
fn riff_too_short() {
    assert_eq!(sniffed(b"RIFF\0\0\0\0WEB"), None);
    assert_eq!(sniffed(b"RIFF\0\0\0\0XXXX"), None);
}

#[test]
fn gzip() {
    assert_eq!(sniffed(&[0x1F, 0x8B]), Some("application/gzip"));
}

#[test]
fn offset_needs_bytes_past_offset() {
    assert_eq!(sniffed(&[0x66, 0x74, 0x79, 0x70]), None);
    assert_eq!(sniffed(b"\0\0\0\x14ftyp3gp5"), Some("video/3gpp"));
}

#[test]
fn tar_at_offset() {
    let mut b = vec![0u8; 257];
    b[0] = 0x61;
    b.extend_from_slice(b"ustar\x0000");
    assert_eq!(sniffed(&b), Some("application/tar"));
    let mut c = vec![0x61u8; 257];
    c.extend_from_slice(b"ustar  \x00");
    assert_eq!(sniffed(&c), Some("application/tar"));
}

#[test]
fn empty_buffer() {
    assert_eq!(sniffed(&[]), None);
}

#[test]
fn earlier_signature_wins() {
    assert_eq!(sniffed(&[0x47, 0x49, 0x46, 0x38, 0x37]), Some("video/mpeg"));
    assert_eq!(sniffed(&[0xFF, 0xD8, 0xFF, 0xE0]), Some("image/jpeg"));
    assert_eq!(sniffed(&[0xFF, 0xFB]), Some("audio/mp3"));
    assert_eq!(sniffed(b"P6 1 1 255"), Some("image/x-portable-anymap"));
}

#[test]
fn sniffed_type_is_looked_up() {
    let db = MimeDb::build(&vec![vec![(
        "image/PNG".to_string(),
        SourceEntry { compressible: false, extensions: vec!["png".to_string()], source: Source::Iana },
    )]]);
    let (m, e) = from_prefix(&db, b"\x89PNG\r\n\x1a\n rest").unwrap();
    assert_eq!(m, "image/png");
    assert_eq!(e.unwrap().extensions, vec!["png".to_string()]);
    let (m, e) = from_prefix(&db, b"GIF89a").unwrap();
    assert_eq!(m, "image/gif");
    assert!(e.is_none());
}
