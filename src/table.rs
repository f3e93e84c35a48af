use vstd::prelude::*;

use crate::casefold::{fold_case, fold_of, lower_of, to_lower};

verus! {

/// The views of a sequence of strings.
pub open spec fn strs_view(v: Seq<String>) -> Seq<Seq<char>> {
    v.map_values(|s: String| s@)
}

/// The dataset that asserted a media type's extensions, from the most
/// authoritative to the least.
#[derive(Clone, Copy, Debug, PartialEq, Eq, Structural)]
pub enum Source {
    Iana,
    Apache,
    Nginx,
    Unspecified,
}

/// One media type: whether its content compresses well, and its extensions.
#[derive(Debug)]
pub struct MimeEntry {
    pub compressible: bool,
    pub extensions: Vec<String>,
}

/// One extension: every media type that claims it, most authoritative first.
#[derive(Debug)]
pub struct ExtEntry {
    pub types: Vec<String>,
}

/// One record of an input dataset.
#[derive(Debug)]
pub struct SourceEntry {
    pub compressible: bool,
    pub extensions: Vec<String>,
    pub source: Source,
}

/// What a media type entry holds, as plain values.
pub struct MimeView {
    pub compressible: bool,
    pub extensions: Seq<Seq<char>>,
}

/// What an extension entry holds, as plain values.
pub struct ExtView {
    pub types: Seq<Seq<char>>,
}

impl View for MimeEntry {
    type V = MimeView;

    open spec fn view(&self) -> MimeView {
        MimeView { compressible: self.compressible, extensions: strs_view(self.extensions@) }
    }
}

impl View for ExtEntry {
    type V = ExtView;

    open spec fn view(&self) -> ExtView {
        ExtView { types: strs_view(self.types@) }
    }
}

/// A row of the media type table: its (lower-cased) key, its entry and the
/// dataset it came from.
pub struct MimeRow {
    pub key: Seq<char>,
    pub entry: MimeView,
    pub source: Source,
}

/// A row of the extension table, keyed by the folded extension.
pub struct ExtRow {
    pub key: Seq<char>,
    pub entry: ExtView,
}

/// The two tables, in storage order.
pub struct DbView {
    pub mimes: Seq<MimeRow>,
    pub exts: Seq<ExtRow>,
}

/// The entry whose key folds to `f`, if any.
pub open spec fn find_mime(rows: Seq<MimeRow>, f: Seq<char>) -> Option<MimeView> {
    if exists|i: int| 0 <= i < rows.len() && fold_of(#[trigger] rows[i].key) == f {
        Some(rows[choose|i: int| 0 <= i < rows.len() && fold_of(#[trigger] rows[i].key) == f].entry)
    } else {
        None
    }
}

/// The entry whose folded key is `f`, if any.
pub open spec fn find_ext(rows: Seq<ExtRow>, f: Seq<char>) -> Option<ExtView> {
    if exists|i: int| 0 <= i < rows.len() && #[trigger] rows[i].key == f {
        Some(rows[choose|i: int| 0 <= i < rows.len() && #[trigger] rows[i].key == f].entry)
    } else {
        None
    }
}

/// The table row that a dataset record gives: its key is lower-cased.
pub open spec fn row_of(mime: String, e: SourceEntry) -> MimeRow {
    MimeRow {
        key: lower_of(mime@),
        entry: MimeView { compressible: e.compressible, extensions: strs_view(e.extensions@) },
        source: e.source,
    }
}

/// Adds a row, replacing in place the row whose key folds alike, if any.
pub open spec fn merge_row(rows: Seq<MimeRow>, row: MimeRow) -> Seq<MimeRow> {
    if exists|i: int| 0 <= i < rows.len() && fold_of(#[trigger] rows[i].key) == fold_of(row.key) {
        rows.update(
            choose|i: int| 0 <= i < rows.len() && fold_of(#[trigger] rows[i].key) == fold_of(row.key),
            row,
        )
    } else {
        rows.push(row)
    }
}

/// Applies the records of one dataset, in order, to a table.
pub open spec fn merge_entries(rows: Seq<MimeRow>, es: Seq<(String, SourceEntry)>) -> Seq<MimeRow>
    decreases es.len(),
{
    if es.len() == 0 {
        rows
    } else {
        merge_row(merge_entries(rows, es.drop_last()), row_of(es.last().0, es.last().1))
    }
}

/// Applies the datasets in order, each one overriding those before it.
pub open spec fn merge_datasets(ds: Seq<Seq<(String, SourceEntry)>>) -> Seq<MimeRow>
    decreases ds.len(),
{
    if ds.len() == 0 {
        Seq::empty()
    } else {
        merge_entries(merge_datasets(ds.drop_last()), ds.last())
    }
}

/// The row lists an extension that folds to `f`.
pub open spec fn claims(row: MimeRow, f: Seq<char>) -> bool {
    exists|j: int| 0 <= j < row.entry.extensions.len() && fold_of(#[trigger] row.entry.extensions[j]) == f
}

/// The keys, in table order, of the rows from dataset `s` that claim `f`.
pub open spec fn ranked(rows: Seq<MimeRow>, f: Seq<char>, s: Source) -> Seq<Seq<char>>
    decreases rows.len(),
{
    if rows.len() == 0 {
        Seq::empty()
    } else {
        let t = ranked(rows.drop_last(), f, s);
        if rows.last().source == s && claims(rows.last(), f) {
            t.push(rows.last().key)
        } else {
            t
        }
    }
}

/// The media types that claim `f`, sorted by source with ties in table order.
pub open spec fn types_for(rows: Seq<MimeRow>, f: Seq<char>) -> Seq<Seq<char>> {
    ranked(rows, f, Source::Iana) + ranked(rows, f, Source::Apache) + ranked(rows, f, Source::Nginx)
        + ranked(rows, f, Source::Unspecified)
}

/// Appends the folded forms of `exts` not yet in `keys`, in order.
pub open spec fn add_keys(keys: Seq<Seq<char>>, exts: Seq<Seq<char>>) -> Seq<Seq<char>>
    decreases exts.len(),
{
    if exts.len() == 0 {
        keys
    } else {
        let k = add_keys(keys, exts.drop_last());
        let f = fold_of(exts.last());
        if k.contains(f) {
            k
        } else {
            k.push(f)
        }
    }
}

/// Every folded extension that the rows list, in order of first appearance.
pub open spec fn ext_keys(rows: Seq<MimeRow>) -> Seq<Seq<char>>
    decreases rows.len(),
{
    if rows.len() == 0 {
        Seq::empty()
    } else {
        add_keys(ext_keys(rows.drop_last()), rows.last().entry.extensions)
    }
}

/// The extension table derived from the media type table.
pub open spec fn ext_rows(rows: Seq<MimeRow>) -> Seq<ExtRow> {
    ext_keys(rows).map_values(|f: Seq<char>| ExtRow { key: f, entry: ExtView { types: types_for(rows, f) } })
}

/// The records of each dataset, in order.
pub open spec fn datasets_view(ds: Seq<Vec<(String, SourceEntry)>>) -> Seq<Seq<(String, SourceEntry)>> {
    ds.map_values(|d: Vec<(String, SourceEntry)>| d@)
}

/// The tables built from the datasets.
pub open spec fn build_view(ds: Seq<Seq<(String, SourceEntry)>>) -> DbView {
    DbView { mimes: merge_datasets(ds), exts: ext_rows(merge_datasets(ds)) }
}

/// What resolving an extension to its canonical media type gives.
pub open spec fn mime_from_ext(d: DbView, ext: Seq<char>) -> Option<MimeView> {
    match find_ext(d.exts, fold_of(ext)) {
        Some(e) => if e.types.len() > 0 {
            find_mime(d.mimes, fold_of(e.types[0]))
        } else {
            None
        },
        None => None,
    }
}

/// No two media type keys fold to the same string.
pub open spec fn mime_keys_unique(rows: Seq<MimeRow>) -> bool {
    forall|i: int, j: int|
        0 <= i < rows.len() && 0 <= j < rows.len() && fold_of(#[trigger] rows[i].key) == fold_of(
            #[trigger] rows[j].key,
        ) ==> i == j
}

/// No two extension keys are equal.
pub open spec fn ext_keys_unique(rows: Seq<ExtRow>) -> bool {
    forall|i: int, j: int|
        0 <= i < rows.len() && 0 <= j < rows.len() && #[trigger] rows[i].key == #[trigger] rows[j].key
            ==> i == j
}

/// The value of a looked-up media type entry, if any.
pub open spec fn mime_view_of(r: Option<&MimeEntry>) -> Option<MimeView> {
    match r {
        Some(e) => Some(e@),
        None => None,
    }
}

/// The value of a looked-up extension entry, if any.
pub open spec fn ext_view_of(r: Option<&ExtEntry>) -> Option<ExtView> {
    match r {
        Some(e) => Some(e@),
        None => None,
    }
}

struct MimeSlot {
    key: String,
    folded: String,
    entry: MimeEntry,
    source: Source,
    folded_exts: Vec<String>,
}

struct ExtSlot {
    key: String,
    entry: ExtEntry,
}

impl MimeSlot {
    spec fn row(&self) -> MimeRow {
        MimeRow { key: self.key@, entry: self.entry@, source: self.source }
    }

    spec fn wf(&self) -> bool {
        &&& self.folded@ == fold_of(self.key@)
        &&& self.folded_exts@.len() == self.entry.extensions@.len()
        &&& forall|j: int|
            0 <= j < self.folded_exts@.len() ==> #[trigger] self.folded_exts@[j]@ == fold_of(
                self.entry.extensions@[j]@,
            )
    }
}

spec fn rows_of(v: Seq<MimeSlot>) -> Seq<MimeRow> {
    v.map_values(|s: MimeSlot| s.row())
}

spec fn ext_slots_rows(v: Seq<ExtSlot>) -> Seq<ExtRow> {
    v.map_values(|s: ExtSlot| s.row())
}

spec fn slots_wf(v: Seq<MimeSlot>) -> bool {
    forall|i: int| 0 <= i < v.len() ==> (#[trigger] v[i]).wf()
}

impl ExtSlot {
    spec fn row(&self) -> ExtRow {
        ExtRow { key: self.key@, entry: self.entry@ }
    }
}

/// The media type and extension tables.
pub struct MimeDb {
    mimes: Vec<MimeSlot>,
    exts: Vec<ExtSlot>,
}

impl View for MimeDb {
    type V = DbView;

    closed spec fn view(&self) -> DbView {
        DbView {
            mimes: rows_of(self.mimes@),
            exts: ext_slots_rows(self.exts@),
        }
    }
}

impl MimeDb {
    /// The tables are consistent: keys are unique under case folding.
    pub closed spec fn wf(&self) -> bool {
        &&& slots_wf(self.mimes@)
        &&& mime_keys_unique(self@.mimes)
        &&& ext_keys_unique(self@.exts)
        &&& self@.exts == ext_rows(self@.mimes)
    }
}

/// Looks up an extension, ignoring case.
pub fn lookup_ext<'a>(db: &'a MimeDb, ext: &str) -> (r: Option<&'a ExtEntry>)
    requires
        db.wf(),
    ensures
        ext_view_of(r) == find_ext(db@.exts, fold_of(ext@)),
{
    let f = fold_case(ext);
    let mut i: usize = 0;
    while i < db.exts.len()
        invariant
            db.wf(),
            f@ == fold_of(ext@),
            0 <= i <= db.exts@.len(),
            forall|j: int| 0 <= j < i ==> (#[trigger] db@.exts[j]).key != f@,
        decreases db.exts@.len() - i,
    {
        if db.exts[i].key == f {
            proof {
                assert(db@.exts[i as int].key == f@);
            }
            return Some(&db.exts[i].entry);
        }
        i = i + 1;
    }
    None
}

/// Looks up a media type, ignoring case.
pub fn lookup_mime<'a>(db: &'a MimeDb, mime: &str) -> (r: Option<&'a MimeEntry>)
    requires
        db.wf(),
    ensures
        mime_view_of(r) == find_mime(db@.mimes, fold_of(mime@)),
{
    let f = fold_case(mime);
    let mut i: usize = 0;
    while i < db.mimes.len()
        invariant
            db.wf(),
            f@ == fold_of(mime@),
            0 <= i <= db.mimes@.len(),
            forall|j: int| 0 <= j < i ==> fold_of((#[trigger] db@.mimes[j]).key) != f@,
        decreases db.mimes@.len() - i,
    {
        assert(db.mimes@[i as int].wf());
        if db.mimes[i].folded == f {
            proof {
                assert(fold_of(db@.mimes[i as int].key) == f@);
            }
            return Some(&db.mimes[i].entry);
        }
        i = i + 1;
    }
    None
}


/// Lists every media type with its entry, in storage order.
pub fn list_mimes<'a>(db: &'a MimeDb) -> (r: Vec<(&'a str, &'a MimeEntry)>)
    ensures
        r@.len() == db@.mimes.len(),
        forall|i: int|
            0 <= i < r@.len() ==> (#[trigger] r@[i]).0@ == db@.mimes[i].key && r@[i].1@
                == db@.mimes[i].entry,
{
    let mut r: Vec<(&'a str, &'a MimeEntry)> = Vec::new();
    let mut i: usize = 0;
    while i < db.mimes.len()
        invariant
            0 <= i <= db.mimes@.len(),
            r@.len() == i,
            forall|k: int|
                0 <= k < i ==> (#[trigger] r@[k]).0@ == db@.mimes[k].key && r@[k].1@
                    == db@.mimes[k].entry,
        decreases db.mimes@.len() - i,
    {
        let slot = &db.mimes[i];
        r.push((slot.key.as_str(), &slot.entry));
        i = i + 1;
    }
    r
}

/// Resolves an extension to the entry of its first, most authoritative,
/// media type.
pub fn lookup_mime_from_ext<'a>(db: &'a MimeDb, ext: &str) -> (r: Option<&'a MimeEntry>)
    requires
        db.wf(),
    ensures
        mime_view_of(r) == mime_from_ext(db@, ext@),
{
    let entry = match lookup_ext(db, ext) {
        Some(e) => e,
        None => return None,
    };
    if entry.types.len() == 0 {
        return None;
    }
    lookup_mime(db, entry.types[0].as_str())
}

fn copy_strings(v: &Vec<String>) -> (r: Vec<String>)
    ensures
        r@ == v@,
{
    let mut r: Vec<String> = Vec::new();
    let mut i: usize = 0;
    while i < v.len()
        invariant
            0 <= i <= v@.len(),
            r@ == v@.take(i as int),
        decreases v@.len() - i,
    {
        r.push(v[i].clone());
        assert(r@ =~= v@.take(i + 1));
        i = i + 1;
    }
    assert(v@.take(v@.len() as int) =~= v@);
    r
}

fn fold_all(v: &Vec<String>) -> (r: Vec<String>)
    ensures
        r@.len() == v@.len(),
        forall|j: int| 0 <= j < r@.len() ==> #[trigger] r@[j]@ == fold_of(v@[j]@),
{
    let mut r: Vec<String> = Vec::new();
    let mut i: usize = 0;
    while i < v.len()
        invariant
            0 <= i <= v@.len(),
            r@.len() == i,
            forall|j: int| 0 <= j < i ==> #[trigger] r@[j]@ == fold_of(v@[j]@),
        decreases v@.len() - i,
    {
        r.push(fold_case(v[i].as_str()));
        i = i + 1;
    }
    r
}

fn make_slot(mime: &String, e: &SourceEntry) -> (r: MimeSlot)
    ensures
        r.wf(),
        r.row() == row_of(*mime, *e),
{
    let key = to_lower(mime.as_str());
    let folded = fold_case(key.as_str());
    let extensions = copy_strings(&e.extensions);
    let folded_exts = fold_all(&extensions);
    MimeSlot {
        key,
        folded,
        entry: MimeEntry { compressible: e.compressible, extensions },
        source: e.source,
        folded_exts,
    }
}

pub(crate) proof fn lemma_merge_row_unique(rows: Seq<MimeRow>, row: MimeRow)
    requires
        mime_keys_unique(rows),
    ensures
        mime_keys_unique(merge_row(rows, row)),
{
    let m = merge_row(rows, row);
    if exists|i: int| 0 <= i < rows.len() && fold_of(#[trigger] rows[i].key) == fold_of(row.key) {
        let k = choose|i: int| 0 <= i < rows.len() && fold_of(#[trigger] rows[i].key) == fold_of(row.key);
        assert forall|i: int, j: int|
            0 <= i < m.len() && 0 <= j < m.len() && fold_of(#[trigger] m[i].key) == fold_of(
                #[trigger] m[j].key,
            ) implies i == j by {
            if i != k && j != k {
                assert(m[i] == rows[i] && m[j] == rows[j]);
            } else if i == k && j != k {
                assert(fold_of(rows[j].key) == fold_of(rows[k].key));
            } else if j == k && i != k {
                assert(fold_of(rows[i].key) == fold_of(rows[k].key));
            }
        }
    } else {
        assert forall|i: int, j: int|
            0 <= i < m.len() && 0 <= j < m.len() && fold_of(#[trigger] m[i].key) == fold_of(
                #[trigger] m[j].key,
            ) implies i == j by {
            if i < rows.len() && j < rows.len() {
                assert(m[i] == rows[i] && m[j] == rows[j]);
            } else if i < rows.len() {
                assert(m[j] == row);
                assert(m[i] == rows[i]);
            } else if j < rows.len() {
                assert(m[i] == row);
                assert(m[j] == rows[j]);
            }
        }
    }
}

/// Adds a slot to the table, replacing the one whose key folds alike.
fn merge_slot(slots: &mut Vec<MimeSlot>, s: MimeSlot)
    requires
        slots_wf(old(slots)@),
        mime_keys_unique(rows_of(old(slots)@)),
        s.wf(),
    ensures
        slots_wf(final(slots)@),
        mime_keys_unique(rows_of(final(slots)@)),
        rows_of(final(slots)@) == merge_row(rows_of(old(slots)@), s.row()),
{
    let ghost rows = rows_of(slots@);
    proof {
        lemma_merge_row_unique(rows, s.row());
    }
    let mut i: usize = 0;
    while i < slots.len()
        invariant
            slots@ == old(slots)@,
            rows == rows_of(slots@),
            slots_wf(slots@),
            mime_keys_unique(rows),
            s.wf(),
            0 <= i <= slots@.len(),
            forall|j: int| 0 <= j < i ==> fold_of((#[trigger] rows[j]).key) != fold_of(s.row().key),
        decreases slots@.len() - i,
    {
        assert(slots@[i as int].wf());
        if slots[i].folded == s.folded {
            let ghost k = choose|j: int|
                0 <= j < rows.len() && fold_of(#[trigger] rows[j].key) == fold_of(s.row().key);
            assert(fold_of(rows[i as int].key) == fold_of(s.row().key));
            assert(k == i);
            slots.set(i, s);
            assert(rows_of(slots@) =~= rows.update(i as int, s.row()));
            return;
        }
        i = i + 1;
    }
    slots.push(s);
    assert(rows_of(slots@) =~= rows.push(s.row()));
}


/// Merges the datasets in order into a media type table.
fn merge_all(datasets: &Vec<Vec<(String, SourceEntry)>>) -> (r: Vec<MimeSlot>)
    ensures
        slots_wf(r@),
        mime_keys_unique(rows_of(r@)),
        rows_of(r@) == merge_datasets(datasets_view(datasets@)),
{
    let ghost dv = datasets_view(datasets@);
    let mut slots: Vec<MimeSlot> = Vec::new();
    assert(rows_of(slots@) =~= merge_datasets(dv.take(0)));
    let mut d: usize = 0;
    while d < datasets.len()
        invariant
            dv == datasets_view(datasets@),
            0 <= d <= datasets@.len(),
            slots_wf(slots@),
            mime_keys_unique(rows_of(slots@)),
            rows_of(slots@) == merge_datasets(dv.take(d as int)),
        decreases datasets@.len() - d,
    {
        let ds = &datasets[d];
        let ghost base = merge_datasets(dv.take(d as int));
        assert(dv[d as int] == ds@);
        assert(ds@.take(0) =~= Seq::<(String, SourceEntry)>::empty());
        let mut k: usize = 0;
        while k < ds.len()
            invariant
                0 <= k <= ds@.len(),
                slots_wf(slots@),
                mime_keys_unique(rows_of(slots@)),
                rows_of(slots@) == merge_entries(base, ds@.take(k as int)),
            decreases ds@.len() - k,
        {
            let s = make_slot(&ds[k].0, &ds[k].1);
            merge_slot(&mut slots, s);
            assert(ds@.take(k + 1).drop_last() =~= ds@.take(k as int));
            k = k + 1;
        }
        assert(ds@.take(ds@.len() as int) =~= ds@);
        assert(dv.take(d + 1).drop_last() =~= dv.take(d as int));
        d = d + 1;
    }
    assert(dv.take(dv.len() as int) =~= dv);
    slots
}

/// Whether the folded form `f` is among `v`.
fn contains_str(v: &Vec<String>, f: &String) -> (r: bool)
    ensures
        r == strs_view(v@).contains(f@),
{
    let mut i: usize = 0;
    while i < v.len()
        invariant
            0 <= i <= v@.len(),
            forall|j: int| 0 <= j < i ==> (#[trigger] v@[j])@ != f@,
        decreases v@.len() - i,
    {
        if v[i] == *f {
            assert(strs_view(v@)[i as int] == f@);
            return true;
        }
        i = i + 1;
    }
    assert forall|j: int| 0 <= j < strs_view(v@).len() implies strs_view(v@)[j] != f@ by {
        assert(v@[j]@ != f@);
    }
    false
}

/// Collects the folded extensions of the table, in order of first appearance.
fn collect_ext_keys(slots: &Vec<MimeSlot>) -> (r: Vec<String>)
    requires
        slots_wf(slots@),
    ensures
        strs_view(r@) == ext_keys(rows_of(slots@)),
{
    let ghost rows = rows_of(slots@);
    let mut keys: Vec<String> = Vec::new();
    assert(strs_view(keys@) =~= ext_keys(rows.take(0)));
    let mut i: usize = 0;
    while i < slots.len()
        invariant
            rows == rows_of(slots@),
            slots_wf(slots@),
            0 <= i <= slots@.len(),
            strs_view(keys@) == ext_keys(rows.take(i as int)),
        decreases slots@.len() - i,
    {
        let slot = &slots[i];
        assert(slot.wf());
        let ghost exts = rows[i as int].entry.extensions;
        let ghost before = ext_keys(rows.take(i as int));
        assert(exts.take(0) =~= Seq::<Seq<char>>::empty());
        let mut j: usize = 0;
        while j < slot.folded_exts.len()
            invariant
                slot.wf(),
                exts == strs_view(slot.entry.extensions@),
                0 <= j <= slot.folded_exts@.len(),
                strs_view(keys@) == add_keys(before, exts.take(j as int)),
            decreases slot.folded_exts@.len() - j,
        {
            let f = &slot.folded_exts[j];
            assert(exts.take(j + 1).drop_last() =~= exts.take(j as int));
            assert(f@ == fold_of(exts[j as int]));
            if !contains_str(&keys, f) {
                keys.push(f.clone());
                assert(strs_view(keys@) =~= add_keys(before, exts.take(j as int)).push(f@));
            }
            j = j + 1;
        }
        assert(exts.take(exts.len() as int) =~= exts);
        assert(rows.take(i + 1).drop_last() =~= rows.take(i as int));
        i = i + 1;
    }
    assert(rows.take(rows.len() as int) =~= rows);
    keys
}

/// Whether the slot lists an extension that folds to `f`.
fn slot_claims(slot: &MimeSlot, f: &String) -> (r: bool)
    requires
        slot.wf(),
    ensures
        r == claims(slot.row(), f@),
{
    let mut j: usize = 0;
    while j < slot.folded_exts.len()
        invariant
            slot.wf(),
            0 <= j <= slot.folded_exts@.len(),
            forall|k: int| 0 <= k < j ==> fold_of(#[trigger] slot.row().entry.extensions[k]) != f@,
        decreases slot.folded_exts@.len() - j,
    {
        if slot.folded_exts[j] == *f {
            assert(fold_of(slot.row().entry.extensions[j as int]) == f@);
            return true;
        }
        j = j + 1;
    }
    false
}

/// Appends the keys of the rows from dataset `s` that claim `f`.
fn push_ranked(slots: &Vec<MimeSlot>, f: &String, s: Source, out: &mut Vec<String>)
    requires
        slots_wf(slots@),
    ensures
        strs_view(final(out)@) == strs_view(old(out)@) + ranked(rows_of(slots@), f@, s),
{
    let ghost rows = rows_of(slots@);
    let ghost start = strs_view(out@);
    assert(start + ranked(rows.take(0), f@, s) =~= start);
    let mut i: usize = 0;
    while i < slots.len()
        invariant
            rows == rows_of(slots@),
            slots_wf(slots@),
            0 <= i <= slots@.len(),
            strs_view(out@) == start + ranked(rows.take(i as int), f@, s),
        decreases slots@.len() - i,
    {
        assert(slots@[i as int].wf());
        assert(rows.take(i + 1).drop_last() =~= rows.take(i as int));
        if slots[i].source == s && slot_claims(&slots[i], f) {
            let ghost prev = out@;
            let key = slots[i].key.clone();
            out.push(key);
            assert(out@ == prev.push(key));
            assert(strs_view(out@) =~= strs_view(prev).push(rows[i as int].key));
        }
        i = i + 1;
    }
    assert(rows.take(rows.len() as int) =~= rows);
}


proof fn lemma_add_keys_no_dup(keys: Seq<Seq<char>>, exts: Seq<Seq<char>>)
    requires
        keys.no_duplicates(),
    ensures
        add_keys(keys, exts).no_duplicates(),
    decreases exts.len(),
{
    if exts.len() > 0 {
        lemma_add_keys_no_dup(keys, exts.drop_last());
        let k = add_keys(keys, exts.drop_last());
        let f = fold_of(exts.last());
        if !k.contains(f) {
            let m = k.push(f);
            assert forall|i: int, j: int| 0 <= i < m.len() && 0 <= j < m.len() && i != j implies m[i]
                != m[j] by {
                if i < k.len() && j < k.len() {
                } else if i < k.len() {
                    assert(k[i] != f);
                } else {
                    assert(k[j] != f);
                }
            }
        }
    }
}

pub(crate) proof fn lemma_ext_keys_no_dup(rows: Seq<MimeRow>)
    ensures
        ext_keys(rows).no_duplicates(),
    decreases rows.len(),
{
    if rows.len() > 0 {
        lemma_ext_keys_no_dup(rows.drop_last());
        lemma_add_keys_no_dup(ext_keys(rows.drop_last()), rows.last().entry.extensions);
    }
}

impl MimeDb {
    /// In consistent tables, media type keys are unique ignoring case and the
    /// extension table is the one derived from the media type table.
    pub proof fn lemma_wf_tables(&self)
        requires
            self.wf(),
        ensures
            mime_keys_unique(self@.mimes),
            ext_keys_unique(self@.exts),
            self@.exts == ext_rows(self@.mimes),
    {
    }

    /// Builds both tables from datasets applied in order: a later record
    /// replaces an earlier one whose media type is the same ignoring case.
    pub fn build(datasets: &Vec<Vec<(String, SourceEntry)>>) -> (r: MimeDb)
        ensures
            r.wf(),
            r@ == build_view(datasets_view(datasets@)),
    {
        let mimes = merge_all(datasets);
        let keys = collect_ext_keys(&mimes);
        let ghost rows = rows_of(mimes@);
        let ghost table = ext_rows(rows);
        let mut exts: Vec<ExtSlot> = Vec::new();
        assert(table.len() == strs_view(keys@).len());
        assert(ext_slots_rows(exts@) =~= table.take(0));
        let mut i: usize = 0;
        while i < keys.len()
            invariant
                rows == rows_of(mimes@),
                table == ext_rows(rows),
                slots_wf(mimes@),
                strs_view(keys@) == ext_keys(rows),
                0 <= i <= keys@.len(),
                table.len() == keys@.len(),
                exts@.len() == i,
                ext_slots_rows(exts@) == table.take(i as int),
            decreases keys@.len() - i,
        {
            let key = &keys[i];
            assert(key@ == ext_keys(rows)[i as int]);
            let mut types: Vec<String> = Vec::new();
            push_ranked(&mimes, key, Source::Iana, &mut types);
            push_ranked(&mimes, key, Source::Apache, &mut types);
            push_ranked(&mimes, key, Source::Nginx, &mut types);
            push_ranked(&mimes, key, Source::Unspecified, &mut types);
            assert(strs_view(types@) =~= types_for(rows, key@));
            let ghost prev = exts@;
            let slot = ExtSlot { key: key.clone(), entry: ExtEntry { types } };
            exts.push(slot);
            assert(exts@ == prev.push(slot));
            assert(slot.row() == table[i as int]);
            assert(ext_slots_rows(prev) == table.take(i as int));
            assert forall|k: int| 0 <= k < i + 1 implies #[trigger] ext_slots_rows(exts@)[k]
                == table[k] by {
                if k < i {
                    assert(exts@[k] == prev[k]);
                    assert(ext_slots_rows(prev)[k] == table.take(i as int)[k]);
                }
            }
            assert(ext_slots_rows(exts@) =~= table.take(i + 1));
            i = i + 1;
        }
        assert(table.take(table.len() as int) =~= table);
        let r = MimeDb { mimes, exts };
        proof {
            lemma_ext_keys_no_dup(rows);
            assert(r@.exts == table);
            assert forall|a: int, b: int|
                0 <= a < table.len() && 0 <= b < table.len() && #[trigger] table[a].key
                    == #[trigger] table[b].key implies a == b by {
                assert(table[a].key == ext_keys(rows)[a]);
                assert(table[b].key == ext_keys(rows)[b]);
            }
        }
        r
    }
}

} // verus!
