//! Bidirectional lookup between file extensions and media types, built from
//! prioritised datasets, and content sniffing by leading byte signatures.

pub mod casefold;
pub mod laws;
pub mod sniff;
pub mod table;

pub use sniff::from_prefix;
pub use table::{
    list_mimes, lookup_ext, lookup_mime, lookup_mime_from_ext, ExtEntry, MimeDb, MimeEntry, Source,
    SourceEntry,
};
