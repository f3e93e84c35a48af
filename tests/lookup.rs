use mime_db::{
    list_mimes, lookup_ext, lookup_mime, lookup_mime_from_ext, MimeDb, Source, SourceEntry,
};

fn rec(mime: &str, compressible: bool, exts: &[&str], source: Source) -> (String, SourceEntry) {
    (
        mime.to_string(),
        SourceEntry {
            compressible,
            extensions: exts.iter().map(|e| e.to_string()).collect(),
            source,
        },
    )
}

fn sample() -> MimeDb {
    let extras = vec![
        rec("text/plain", false, &["txt"], Source::Unspecified),
        rec("application/x-foo", false, &["foo"], Source::Nginx),
    ];
    let main = vec![
        rec("text/plain", true, &["txt", "text"], Source::Iana),
        rec("image/jpeg", false, &["jpg", "jpeg", "jpe"], Source::Iana),
        rec("image/pjpeg", false, &["jpg"], Source::Apache),
        rec("application/foo", true, &["foo"], Source::Iana),
        rec("Text/HTML", true, &["html", "htm"], Source::Iana),
    ];
    MimeDb::build(&vec![extras, main])
}

#[test]
fn later_dataset_replaces_whole_entry() {
    let db = sample();
    let e = lookup_mime(&db, "text/plain").unwrap();
    assert_eq!(e.extensions, vec!["txt".to_string(), "text".to_string()]);
    assert!(e.compressible);
}

#[test]
fn override_within_one_source_order() {
    let a = vec![rec("text/plain", false, &["txt"], Source::Unspecified)];
    let b = vec![rec("text/plain", false, &["txt", "text"], Source::Unspecified)];
    let db = MimeDb::build(&vec![a, b]);
    let e = lookup_mime(&db, "text/plain").unwrap();
    assert_eq!(e.extensions, vec!["txt".to_string(), "text".to_string()]);
    assert_eq!(list_mimes(&db).len(), 1);
    assert_eq!(lookup_ext(&db, "text").unwrap().types, vec!["text/plain".to_string()]);
}

#[test]
fn more_authoritative_source_listed_first() {
    let db = sample();
    let e = lookup_ext(&db, "foo").unwrap();
    assert_eq!(e.types, vec!["application/foo".to_string(), "application/x-foo".to_string()]);
    let m = lookup_mime_from_ext(&db, "foo").unwrap();
    assert!(m.compressible);
    assert_eq!(m.extensions, vec!["foo".to_string()]);
    let jpg = lookup_ext(&db, "jpg").unwrap();
    assert_eq!(jpg.types, vec!["image/jpeg".to_string(), "image/pjpeg".to_string()]);
}

#[test]
fn lookups_ignore_case() {
    let db = sample();
    let a = lookup_ext(&db, "JPG").unwrap();
    let b = lookup_ext(&db, "jpg").unwrap();
    let c = lookup_ext(&db, "Jpg").unwrap();
    assert_eq!(a.types, b.types);
    assert_eq!(b.types, c.types);
    let m1 = lookup_mime(&db, "IMAGE/JPEG").unwrap();
    let m2 = lookup_mime(&db, "image/jpeg").unwrap();
    assert_eq!(m1.extensions, m2.extensions);
}

#[test]
fn unicode_keys_ignore_case() {
    let db = MimeDb::build(&vec![vec![rec("text/x-été", false, &["ÉTÉ"], Source::Iana)]]);
    assert_eq!(lookup_ext(&db, "été").unwrap().types, vec!["text/x-été".to_string()]);
    assert!(lookup_mime(&db, "TEXT/X-ÉTÉ").is_some());
}

#[test]
fn media_type_keys_are_lower_cased() {
    let db = sample();
    let keys: Vec<&str> = list_mimes(&db).iter().map(|(k, _)| *k).collect();
    assert!(keys.contains(&"text/html"));
    assert!(!keys.contains(&"Text/HTML"));
    assert_eq!(lookup_ext(&db, "htm").unwrap().types, vec!["text/html".to_string()]);
}

#[test]
fn every_listed_extension_resolves_back() {
    let db = sample();
    let all = list_mimes(&db);
    assert_eq!(all.len(), 6);
    for (mime, entry) in all {
        for ext in &entry.extensions {
            let e = lookup_ext(&db, ext).unwrap();
            assert!(e.types.iter().any(|t| t == mime));
        }
    }
}

#[test]
fn unknown_keys_are_absent() {
    let db = sample();
    assert!(lookup_ext(&db, "this-extension-does-not-exist-xyz").is_none());
    assert!(lookup_mime(&db, "application/does-not-exist").is_none());
    assert!(lookup_mime_from_ext(&db, "this-extension-does-not-exist-xyz").is_none());
}

#[test]
fn canonical_type_missing_from_table() {
    let db = MimeDb::build(&vec![]);
    assert!(list_mimes(&db).is_empty());
    assert!(lookup_ext(&db, "txt").is_none());
    assert!(lookup_mime_from_ext(&db, "txt").is_none());
}

#[test]
fn same_extension_twice_is_listed_once() {
    let db = MimeDb::build(&vec![vec![rec("image/png", false, &["png", "PNG"], Source::Iana)]]);
    assert_eq!(lookup_ext(&db, "png").unwrap().types, vec!["image/png".to_string()]);
}

#[test]
fn building_twice_gives_same_tables() {
    let a = sample();
    let b = sample();
    let la: Vec<(String, bool, Vec<String>)> = list_mimes(&a)
        .iter()
        .map(|(k, e)| (k.to_string(), e.compressible, e.extensions.clone()))
        .collect();
    let lb: Vec<(String, bool, Vec<String>)> = list_mimes(&b)
        .iter()
        .map(|(k, e)| (k.to_string(), e.compressible, e.extensions.clone()))
        .collect();
    assert_eq!(la, lb);
    for ext in ["txt", "text", "jpg", "foo", "htm", "nope"] {
        let x = lookup_ext(&a, ext).map(|e| e.types.clone());
        let y = lookup_ext(&b, ext).map(|e| e.types.clone());
        assert_eq!(x, y);
        let x = lookup_mime_from_ext(&a, ext).map(|e| e.extensions.clone());
        let y = lookup_mime_from_ext(&b, ext).map(|e| e.extensions.clone());
        assert_eq!(x, y);
    }
}
