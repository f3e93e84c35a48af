use vstd::prelude::*;

use crate::casefold::fold_of;
use crate::table::{find_mime, lookup_mime, mime_view_of, MimeDb, MimeEntry};

verus! {

/// `p` occurs in `b` starting at `off`.
pub open spec fn starts_at(b: Seq<u8>, off: int, p: Seq<u8>) -> bool {
    0 <= off && off + p.len() <= b.len() && b.subrange(off, off + p.len()) == p
}

/// The media type of the first signature of `cat` that occurs in `b` at `off`.
pub open spec fn first_match(cat: Seq<(Seq<u8>, Seq<char>)>, b: Seq<u8>, off: int) -> Option<
    Seq<char>,
>
    decreases cat.len(),
{
    if cat.len() == 0 {
        None
    } else if starts_at(b, off, cat[0].0) {
        Some(cat[0].1)
    } else {
        first_match(cat.drop_first(), b, off)
    }
}

/// The media type of the first offset signature of `cat` that `b` holds; the
/// buffer must extend past the offset.
pub open spec fn first_offset_match(cat: Seq<(nat, Seq<u8>, Seq<char>)>, b: Seq<u8>) -> Option<
    Seq<char>,
>
    decreases cat.len(),
{
    if cat.len() == 0 {
        None
    } else if b.len() > cat[0].0 && starts_at(b, cat[0].0 as int, cat[0].1) {
        Some(cat[0].2)
    } else {
        first_offset_match(cat.drop_first(), b)
    }
}

/// The tag that opens a RIFF container.
pub open spec fn riff_tag() -> Seq<u8> {
    seq![0x52, 0x49, 0x46, 0x46]
}

/// The media type recognised in a buffer: plain prefixes first, then the
/// sub-type of a RIFF container, then signatures at an offset.
pub open spec fn sniff(b: Seq<u8>) -> Option<Seq<char>> {
    let plain = first_match(prefix_signatures(), b, 0);
    let riff = first_match(riff_signatures(), b, 8);
    if plain is Some {
        plain
    } else if starts_at(b, 0, riff_tag()) && b.len() >= 12 && riff is Some {
        riff
    } else {
        first_offset_match(offset_signatures(), b)
    }
}

/// The signatures of a catalog, as plain values.
pub open spec fn sigs_view(v: Seq<(Vec<u8>, &'static str)>) -> Seq<(Seq<u8>, Seq<char>)> {
    v.map_values(|e: (Vec<u8>, &'static str)| (e.0@, e.1@))
}

/// The offset signatures of a catalog, as plain values.
pub open spec fn offset_sigs_view(v: Seq<(usize, Vec<u8>, &'static str)>) -> Seq<
    (nat, Seq<u8>, Seq<char>),
> {
    v.map_values(|e: (usize, Vec<u8>, &'static str)| (e.0 as nat, e.1@, e.2@))
}

/// Signatures matched at the start of a buffer, in priority order.
pub open spec fn prefix_signatures() -> Seq<(Seq<u8>, Seq<char>)> {
    seq![
        (seq![0x89, 0x50, 0x4E, 0x47, 0x0D, 0x0A, 0x1A, 0x0A], "image/png"@),
        (seq![0xFF, 0xD8, 0xFF], "image/jpeg"@),
        (seq![0xCF, 0x84, 0x01], "image/jpeg"@),
        (seq![0x47, 0x49, 0x46, 0x38, 0x39, 0x61], "image/gif"@),
        (seq![0x47, 0x49, 0x46, 0x38, 0x37, 0x61], "image/gif"@),
        (seq![0x4D, 0x4D, 0x00, 0x2A], "image/tiff"@),
        (seq![0x49, 0x49, 0x2A, 0x00], "image/tiff"@),
        (seq![0x44, 0x44, 0x53, 0x20], "image/vnd.ms-dds"@),
        (seq![0x42, 0x4D], "image/bmp"@),
        (seq![0x00, 0x00, 0x01, 0x00], "image/x-icon"@),
        (seq![0x69, 0x63, 0x6E, 0x73], "image/x-icns"@),
        (seq![0x23, 0x3F, 0x52, 0x41, 0x44, 0x49, 0x41, 0x4E, 0x43, 0x45], "image/vnd.radiance"@),
        (seq![0x50, 0x31], "image/x-portable-anymap"@),
        (seq![0x50, 0x32], "image/x-portable-anymap"@),
        (seq![0x50, 0x33], "image/x-portable-anymap"@),
        (seq![0x50, 0x34], "image/x-portable-anymap"@),
        (seq![0x50, 0x35], "image/x-portable-anymap"@),
        (seq![0x50, 0x36], "image/x-portable-anymap"@),
        (seq![0x50, 0x37], "image/x-portable-anymap"@),
        (seq![0x66, 0x61, 0x72, 0x62, 0x66, 0x65, 0x6C, 0x64], "image/x-farbfeld"@),
        (seq![0x00, 0x00, 0x00, 0x20, 0x66, 0x74, 0x79, 0x70, 0x61, 0x76, 0x69, 0x66], "image/avif"@),
        (seq![0x00, 0x00, 0x00, 0x1C, 0x66, 0x74, 0x79, 0x70, 0x69, 0x73, 0x6F, 0x6D], "video/mp4"@),
        (seq![0x00, 0x00, 0x00, 0x1C, 0x66, 0x74, 0x79, 0x70, 0x4D, 0x53, 0x4E, 0x56], "video/mp4"@),
        (seq![0x00, 0x00, 0x00, 0x1C, 0x66, 0x74, 0x79, 0x70, 0x6D, 0x6D, 0x70, 0x34], "video/mp4"@),
        (seq![0x66, 0x74, 0x79, 0x70, 0x68, 0x65, 0x69, 0x63, 0x66, 0x74, 0x79, 0x70, 0x6D], "image/heic"@),
        (seq![0x76, 0x2F, 0x31, 0x01], "image/x-exr"@),
        (seq![0x38, 0x42, 0x50, 0x53], "image/vnd.adobe.photoshop"@),
        (seq![0x25, 0x50, 0x44, 0x46, 0x2D], "application/pdf"@),
        (seq![0x4F, 0x67, 0x67, 0x53], "audio/ogg"@),
        (seq![0xFF, 0xFB], "audio/mp3"@),
        (seq![0xFF, 0xF3], "audio/mp3"@),
        (seq![0xFF, 0xF2], "audio/mp3"@),
        (seq![0xFF, 0x0A], "image/jxl"@),
        (seq![0x00, 0x00, 0x00, 0x0C, 0x4A, 0x58, 0x4C, 0x20, 0x0D, 0x0A, 0x87, 0x0A], "image/jxl"@),
        (seq![0x49, 0x44, 0x33], "audio/mp3"@),
        (seq![0x4F, 0x54, 0x54, 0x4F], "font/otf"@),
        (seq![0x00, 0x01, 0x00, 0x00, 0x00], "font/ttf"@),
        (seq![0x66, 0x4C, 0x61, 0x43], "audio/x-flac"@),
        (seq![0x00, 0x00, 0x00, 0x0C, 0x4A, 0x58, 0x4C, 0x20, 0x0D, 0x0A, 0x87, 0x0A], "image/jxl"@),
        (seq![0x4D, 0x54, 0x68, 0x64], "audio/midi"@),
        (seq![0xD0, 0xCF, 0x11, 0xE0, 0xA1, 0xB1, 0x1A, 0xE1], "application/msword"@),
        (seq![0x1F, 0x8B], "application/gzip"@),
        (seq![0x37, 0x7A, 0xBC, 0xAF, 0x27, 0x1C], "application/x-7z-compressed"@),
        (seq![0xFD, 0x37, 0x7A, 0x58, 0x5A, 0x00], "application/x-xz"@),
        (seq![0x46, 0x4C, 0x49, 0x46], "image/flif"@),
        (seq![0x1A, 0x45, 0xDF, 0xA3], "video/x-matroska"@),
        (seq![0x47], "video/mpeg"@),
        (seq![0x78, 0x01], "application/z-lib"@),
        (seq![0x78, 0x5E], "application/z-lib"@),
        (seq![0x78, 0x9C], "application/z-lib"@),
        (seq![0x78, 0xDA], "application/z-lib"@),
        (seq![0x78, 0x20], "application/z-lib"@),
        (seq![0x78, 0x7D], "application/z-lib"@),
        (seq![0x78, 0xBB], "application/z-lib"@),
        (seq![0x78, 0xF9], "application/z-lib"@),
        (seq![0x46, 0x4C, 0x68, 0x64], "application/vnd.fl-studio"@),
        (seq![0x23, 0x45, 0x58, 0x54, 0x4D, 0x33, 0x55], "audio/mpegurl"@),
        (seq![0x42, 0x5A, 0x68], "application/x-bzip2"@),
        (seq![0x42, 0x4C, 0x45, 0x4E, 0x44, 0x45, 0x52], "application/x-blend"@),
        (seq![0x46, 0x4C, 0x56], "video/x-flv"@),
        (seq![0x4D, 0x53, 0x43, 0x46], "application/vnd.ms-cab-compressed"@),
        (seq![0x30, 0x26, 0xB2, 0x75, 0x8E, 0x66, 0xCF, 0x11, 0xA6, 0xD9, 0x00, 0xAA, 0x00, 0x62, 0xCE, 0x6C], "video/x-ms-wmv"@),
        (seq![0x53, 0x49, 0x4D, 0x50, 0x4C, 0x45, 0x20, 0x20, 0x3D, 0x20, 0x20, 0x20, 0x20, 0x20, 0x20, 0x20, 0x20, 0x20, 0x20, 0x20, 0x20, 0x20, 0x20, 0x20, 0x20, 0x20, 0x20, 0x20, 0x20, 0x54], "image/fits"@),
        (seq![0x06, 0x06, 0xED, 0xF5, 0xD8, 0x1D, 0x46, 0xE5, 0xBD, 0x31, 0xEF, 0xE7, 0xFE, 0x74, 0xB7, 0x1D], "application/x-indesign"@),
    ]
}
/// Sub-types of a RIFF container, matched at offset 8, in priority order.
pub open spec fn riff_signatures() -> Seq<(Seq<u8>, Seq<char>)> {
    seq![
        (seq![0x57, 0x45, 0x42, 0x50], "image/webp"@),
        (seq![0x57, 0x41, 0x56, 0x45], "audio/wav"@),
        (seq![0x41, 0x56, 0x49, 0x20], "video/x-msvideo"@),
        (seq![0x43, 0x44, 0x44, 0x41], "audio/cda"@),
        (seq![0x41, 0x56, 0x49, 0x20], "video/avi"@),
    ]
}
/// Signatures matched at a fixed offset, in priority order.
pub open spec fn offset_signatures() -> Seq<(nat, Seq<u8>, Seq<char>)> {
    seq![
        (4nat, seq![0x66, 0x74, 0x79, 0x70, 0x33, 0x67], "video/3gpp"@),
        (257nat, seq![0x75, 0x73, 0x74, 0x61, 0x72, 0x00, 0x30, 0x30], "application/tar"@),
        (257nat, seq![0x75, 0x73, 0x74, 0x61, 0x72, 0x20, 0x20, 0x00], "application/tar"@),
    ]
}
#[verifier::rlimit(100)]
#[verifier::spinoff_prover]
fn prefix_catalog() -> (r: Vec<(Vec<u8>, &'static str)>)
    ensures
        sigs_view(r@) == prefix_signatures(),
{
    let mut r: Vec<(Vec<u8>, &'static str)> = Vec::new();
    r.push((vec![0x89, 0x50, 0x4E, 0x47, 0x0D, 0x0A, 0x1A, 0x0A], "image/png"));
    r.push((vec![0xFF, 0xD8, 0xFF], "image/jpeg"));
    r.push((vec![0xCF, 0x84, 0x01], "image/jpeg"));
    r.push((vec![0x47, 0x49, 0x46, 0x38, 0x39, 0x61], "image/gif"));
    r.push((vec![0x47, 0x49, 0x46, 0x38, 0x37, 0x61], "image/gif"));
    r.push((vec![0x4D, 0x4D, 0x00, 0x2A], "image/tiff"));
    r.push((vec![0x49, 0x49, 0x2A, 0x00], "image/tiff"));
    r.push((vec![0x44, 0x44, 0x53, 0x20], "image/vnd.ms-dds"));
    r.push((vec![0x42, 0x4D], "image/bmp"));
    r.push((vec![0x00, 0x00, 0x01, 0x00], "image/x-icon"));
    r.push((vec![0x69, 0x63, 0x6E, 0x73], "image/x-icns"));
    r.push((vec![0x23, 0x3F, 0x52, 0x41, 0x44, 0x49, 0x41, 0x4E, 0x43, 0x45], "image/vnd.radiance"));
    r.push((vec![0x50, 0x31], "image/x-portable-anymap"));
    r.push((vec![0x50, 0x32], "image/x-portable-anymap"));
    r.push((vec![0x50, 0x33], "image/x-portable-anymap"));
    r.push((vec![0x50, 0x34], "image/x-portable-anymap"));
    r.push((vec![0x50, 0x35], "image/x-portable-anymap"));
    r.push((vec![0x50, 0x36], "image/x-portable-anymap"));
    r.push((vec![0x50, 0x37], "image/x-portable-anymap"));
    r.push((vec![0x66, 0x61, 0x72, 0x62, 0x66, 0x65, 0x6C, 0x64], "image/x-farbfeld"));
    r.push((vec![0x00, 0x00, 0x00, 0x20, 0x66, 0x74, 0x79, 0x70, 0x61, 0x76, 0x69, 0x66], "image/avif"));
    r.push((vec![0x00, 0x00, 0x00, 0x1C, 0x66, 0x74, 0x79, 0x70, 0x69, 0x73, 0x6F, 0x6D], "video/mp4"));
    r.push((vec![0x00, 0x00, 0x00, 0x1C, 0x66, 0x74, 0x79, 0x70, 0x4D, 0x53, 0x4E, 0x56], "video/mp4"));
    r.push((vec![0x00, 0x00, 0x00, 0x1C, 0x66, 0x74, 0x79, 0x70, 0x6D, 0x6D, 0x70, 0x34], "video/mp4"));
    r.push((vec![0x66, 0x74, 0x79, 0x70, 0x68, 0x65, 0x69, 0x63, 0x66, 0x74, 0x79, 0x70, 0x6D], "image/heic"));
    r.push((vec![0x76, 0x2F, 0x31, 0x01], "image/x-exr"));
    r.push((vec![0x38, 0x42, 0x50, 0x53], "image/vnd.adobe.photoshop"));
    r.push((vec![0x25, 0x50, 0x44, 0x46, 0x2D], "application/pdf"));
    r.push((vec![0x4F, 0x67, 0x67, 0x53], "audio/ogg"));
    r.push((vec![0xFF, 0xFB], "audio/mp3"));
    r.push((vec![0xFF, 0xF3], "audio/mp3"));
    r.push((vec![0xFF, 0xF2], "audio/mp3"));
    r.push((vec![0xFF, 0x0A], "image/jxl"));
    r.push((vec![0x00, 0x00, 0x00, 0x0C, 0x4A, 0x58, 0x4C, 0x20, 0x0D, 0x0A, 0x87, 0x0A], "image/jxl"));
    r.push((vec![0x49, 0x44, 0x33], "audio/mp3"));
    r.push((vec![0x4F, 0x54, 0x54, 0x4F], "font/otf"));
    r.push((vec![0x00, 0x01, 0x00, 0x00, 0x00], "font/ttf"));
    r.push((vec![0x66, 0x4C, 0x61, 0x43], "audio/x-flac"));
    r.push((vec![0x00, 0x00, 0x00, 0x0C, 0x4A, 0x58, 0x4C, 0x20, 0x0D, 0x0A, 0x87, 0x0A], "image/jxl"));
    r.push((vec![0x4D, 0x54, 0x68, 0x64], "audio/midi"));
    r.push((vec![0xD0, 0xCF, 0x11, 0xE0, 0xA1, 0xB1, 0x1A, 0xE1], "application/msword"));
    r.push((vec![0x1F, 0x8B], "application/gzip"));
    r.push((vec![0x37, 0x7A, 0xBC, 0xAF, 0x27, 0x1C], "application/x-7z-compressed"));
    r.push((vec![0xFD, 0x37, 0x7A, 0x58, 0x5A, 0x00], "application/x-xz"));
    r.push((vec![0x46, 0x4C, 0x49, 0x46], "image/flif"));
    r.push((vec![0x1A, 0x45, 0xDF, 0xA3], "video/x-matroska"));
    r.push((vec![0x47], "video/mpeg"));
    r.push((vec![0x78, 0x01], "application/z-lib"));
    r.push((vec![0x78, 0x5E], "application/z-lib"));
    r.push((vec![0x78, 0x9C], "application/z-lib"));
    r.push((vec![0x78, 0xDA], "application/z-lib"));
    r.push((vec![0x78, 0x20], "application/z-lib"));
    r.push((vec![0x78, 0x7D], "application/z-lib"));
    r.push((vec![0x78, 0xBB], "application/z-lib"));
    r.push((vec![0x78, 0xF9], "application/z-lib"));
    r.push((vec![0x46, 0x4C, 0x68, 0x64], "application/vnd.fl-studio"));
    r.push((vec![0x23, 0x45, 0x58, 0x54, 0x4D, 0x33, 0x55], "audio/mpegurl"));
    r.push((vec![0x42, 0x5A, 0x68], "application/x-bzip2"));
    r.push((vec![0x42, 0x4C, 0x45, 0x4E, 0x44, 0x45, 0x52], "application/x-blend"));
    r.push((vec![0x46, 0x4C, 0x56], "video/x-flv"));
    r.push((vec![0x4D, 0x53, 0x43, 0x46], "application/vnd.ms-cab-compressed"));
    r.push((vec![0x30, 0x26, 0xB2, 0x75, 0x8E, 0x66, 0xCF, 0x11, 0xA6, 0xD9, 0x00, 0xAA, 0x00, 0x62, 0xCE, 0x6C], "video/x-ms-wmv"));
    r.push((vec![0x53, 0x49, 0x4D, 0x50, 0x4C, 0x45, 0x20, 0x20, 0x3D, 0x20, 0x20, 0x20, 0x20, 0x20, 0x20, 0x20, 0x20, 0x20, 0x20, 0x20, 0x20, 0x20, 0x20, 0x20, 0x20, 0x20, 0x20, 0x20, 0x20, 0x54], "image/fits"));
    r.push((vec![0x06, 0x06, 0xED, 0xF5, 0xD8, 0x1D, 0x46, 0xE5, 0xBD, 0x31, 0xEF, 0xE7, 0xFE, 0x74, 0xB7, 0x1D], "application/x-indesign"));
    assert(sigs_view(r@) =~~= prefix_signatures());
    r
}
fn riff_catalog() -> (r: Vec<(Vec<u8>, &'static str)>)
    ensures
        sigs_view(r@) == riff_signatures(),
{
    let mut r: Vec<(Vec<u8>, &'static str)> = Vec::new();
    r.push((vec![0x57, 0x45, 0x42, 0x50], "image/webp"));
    r.push((vec![0x57, 0x41, 0x56, 0x45], "audio/wav"));
    r.push((vec![0x41, 0x56, 0x49, 0x20], "video/x-msvideo"));
    r.push((vec![0x43, 0x44, 0x44, 0x41], "audio/cda"));
    r.push((vec![0x41, 0x56, 0x49, 0x20], "video/avi"));
    assert(sigs_view(r@) =~~= riff_signatures());
    r
}
fn offset_catalog() -> (r: Vec<(usize, Vec<u8>, &'static str)>)
    ensures
        offset_sigs_view(r@) == offset_signatures(),
{
    let mut r: Vec<(usize, Vec<u8>, &'static str)> = Vec::new();
    r.push((4, vec![0x66, 0x74, 0x79, 0x70, 0x33, 0x67], "video/3gpp"));
    r.push((257, vec![0x75, 0x73, 0x74, 0x61, 0x72, 0x00, 0x30, 0x30], "application/tar"));
    r.push((257, vec![0x75, 0x73, 0x74, 0x61, 0x72, 0x20, 0x20, 0x00], "application/tar"));
    assert(offset_sigs_view(r@) =~~= offset_signatures());
    r
}
/// Whether `p` occurs in `b` starting at `off`.
fn has_at(b: &[u8], off: usize, p: &Vec<u8>) -> (r: bool)
    ensures
        r == starts_at(b@, off as int, p@),
{
    if off > b.len() || p.len() > b.len() - off {
        return false;
    }
    let n = b.len();
    let mut i: usize = 0;
    while i < p.len()
        invariant
            n == b@.len(),
            off + p@.len() <= n,
            0 <= i <= p@.len(),
            forall|j: int| 0 <= j < i ==> b@[off + j] == p@[j],
        decreases p@.len() - i,
    {
        assert(off + i < b@.len());
        if b[off + i] != p[i] {
            assert(b@.subrange(off as int, off + p@.len())[i as int] != p@[i as int]);
            return false;
        }
        i = i + 1;
    }
    assert(b@.subrange(off as int, off + p@.len()) =~= p@);
    true
}

/// The media type of the first signature of `cat` found at `off`.
fn scan(cat: &Vec<(Vec<u8>, &'static str)>, b: &[u8], off: usize) -> (r: Option<&'static str>)
    ensures
        match r {
            Some(m) => first_match(sigs_view(cat@), b@, off as int) == Some(m@),
            None => first_match(sigs_view(cat@), b@, off as int) is None,
        },
{
    let ghost whole = sigs_view(cat@);
    assert(whole.subrange(0, whole.len() as int) =~= whole);
    let mut i: usize = 0;
    while i < cat.len()
        invariant
            whole == sigs_view(cat@),
            0 <= i <= cat@.len(),
            first_match(whole, b@, off as int) == first_match(
                whole.subrange(i as int, whole.len() as int),
                b@,
                off as int,
            ),
        decreases cat@.len() - i,
    {
        let ghost rest = whole.subrange(i as int, whole.len() as int);
        assert(rest.drop_first() =~= whole.subrange(i + 1, whole.len() as int));
        assert(rest[0] == whole[i as int]);
        if has_at(b, off, &cat[i].0) {
            return Some(cat[i].1);
        }
        i = i + 1;
    }
    None
}

/// The media type of the first offset signature of `cat` that `b` holds.
fn scan_offsets(cat: &Vec<(usize, Vec<u8>, &'static str)>, b: &[u8]) -> (r: Option<&'static str>)
    ensures
        match r {
            Some(m) => first_offset_match(offset_sigs_view(cat@), b@) == Some(m@),
            None => first_offset_match(offset_sigs_view(cat@), b@) is None,
        },
{
    let ghost whole = offset_sigs_view(cat@);
    assert(whole.subrange(0, whole.len() as int) =~= whole);
    let mut i: usize = 0;
    while i < cat.len()
        invariant
            whole == offset_sigs_view(cat@),
            0 <= i <= cat@.len(),
            first_offset_match(whole, b@) == first_offset_match(
                whole.subrange(i as int, whole.len() as int),
                b@,
            ),
        decreases cat@.len() - i,
    {
        let ghost rest = whole.subrange(i as int, whole.len() as int);
        assert(rest.drop_first() =~= whole.subrange(i + 1, whole.len() as int));
        assert(rest[0] == whole[i as int]);
        let off = cat[i].0;
        if b.len() > off && has_at(b, off, &cat[i].1) {
            return Some(cat[i].2);
        }
        i = i + 1;
    }
    None
}

/// Recognises a buffer's media type from its leading bytes, and looks that
/// type up in `db`.
pub fn from_prefix<'a>(db: &'a MimeDb, bytes: &[u8]) -> (r: Option<(&'static str, Option<&'a MimeEntry>)>)
    requires
        db.wf(),
    ensures
        match r {
            Some((m, e)) => sniff(bytes@) == Some(m@) && mime_view_of(e) == find_mime(
                db@.mimes,
                fold_of(m@),
            ),
            None => sniff(bytes@) is None,
        },
{
    let prefixes = prefix_catalog();
    let found = scan(&prefixes, bytes, 0);
    let mime = match found {
        Some(m) => Some(m),
        None => {
            let tag: Vec<u8> = vec![0x52, 0x49, 0x46, 0x46];
            let in_riff = if bytes.len() >= 12 && has_at(bytes, 0, &tag) {
                scan(&riff_catalog(), bytes, 8)
            } else {
                None
            };
            match in_riff {
                Some(m) => Some(m),
                None => scan_offsets(&offset_catalog(), bytes),
            }
        },
    };
    match mime {
        Some(m) => Some((m, lookup_mime(db, m))),
        None => None,
    }
}

} // verus!
