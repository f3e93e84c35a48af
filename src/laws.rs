use vstd::prelude::*;

use crate::casefold::{fold_of, lower_of};
use crate::table::{
    add_keys, build_view, claims, ext_keys, ext_rows, find_ext, find_mime,
    lemma_ext_keys_no_dup, merge_datasets, merge_entries, merge_row, mime_from_ext,
    mime_keys_unique, ranked, row_of, types_for, ExtView, MimeDb, MimeRow, Source, SourceEntry,
};

verus! {

/// The authority of a dataset: lower is more authoritative.
pub open spec fn rank(s: Source) -> nat {
    match s {
        Source::Iana => 0,
        Source::Apache => 1,
        Source::Nginx => 2,
        Source::Unspecified => 3,
    }
}

proof fn lemma_find_merge_row(rows: Seq<MimeRow>, row: MimeRow, f: Seq<char>)
    requires
        mime_keys_unique(rows),
    ensures
        find_mime(merge_row(rows, row), f) == if fold_of(row.key) == f {
            Some(row.entry)
        } else {
            find_mime(rows, f)
        },
{
    crate::table::lemma_merge_row_unique(rows, row);
    let m = merge_row(rows, row);
    if exists|i: int| 0 <= i < rows.len() && fold_of(#[trigger] rows[i].key) == fold_of(row.key) {
        let k = choose|i: int| 0 <= i < rows.len() && fold_of(#[trigger] rows[i].key) == fold_of(row.key);
        assert(m[k] == row);
        if fold_of(row.key) != f {
            if exists|i: int| 0 <= i < rows.len() && fold_of(#[trigger] rows[i].key) == f {
                let a = choose|i: int| 0 <= i < rows.len() && fold_of(#[trigger] rows[i].key) == f;
                assert(m[a] == rows[a]);
                let b = choose|i: int| 0 <= i < m.len() && fold_of(#[trigger] m[i].key) == f;
                assert(b == a);
            } else {
                assert forall|i: int| 0 <= i < m.len() implies fold_of(#[trigger] m[i].key) != f by {
                    if i != k {
                        assert(m[i] == rows[i]);
                    }
                }
            }
        } else {
            let b = choose|i: int| 0 <= i < m.len() && fold_of(#[trigger] m[i].key) == f;
            assert(b == k);
        }
    } else {
        let n = rows.len() as int;
        assert(m[n] == row);
        if fold_of(row.key) != f {
            if exists|i: int| 0 <= i < rows.len() && fold_of(#[trigger] rows[i].key) == f {
                let a = choose|i: int| 0 <= i < rows.len() && fold_of(#[trigger] rows[i].key) == f;
                assert(m[a] == rows[a]);
                let b = choose|i: int| 0 <= i < m.len() && fold_of(#[trigger] m[i].key) == f;
                assert(b == a);
            } else {
                assert forall|i: int| 0 <= i < m.len() implies fold_of(#[trigger] m[i].key) != f by {
                    if i != n {
                        assert(m[i] == rows[i]);
                    }
                }
            }
        } else {
            let b = choose|i: int| 0 <= i < m.len() && fold_of(#[trigger] m[i].key) == f;
            assert(b == n);
        }
    }
}

proof fn lemma_merge_entries_unique(rows: Seq<MimeRow>, es: Seq<(String, SourceEntry)>)
    requires
        mime_keys_unique(rows),
    ensures
        mime_keys_unique(merge_entries(rows, es)),
    decreases es.len(),
{
    if es.len() > 0 {
        lemma_merge_entries_unique(rows, es.drop_last());
        crate::table::lemma_merge_row_unique(
            merge_entries(rows, es.drop_last()),
            row_of(es.last().0, es.last().1),
        );
    }
}

proof fn lemma_merge_datasets_unique(ds: Seq<Seq<(String, SourceEntry)>>)
    ensures
        mime_keys_unique(merge_datasets(ds)),
    decreases ds.len(),
{
    if ds.len() > 0 {
        lemma_merge_datasets_unique(ds.drop_last());
        lemma_merge_entries_unique(merge_datasets(ds.drop_last()), ds.last());
    }
}

/// The key under which a dataset record is stored, folded.
pub open spec fn record_key(e: (String, SourceEntry)) -> Seq<char> {
    fold_of(lower_of(e.0@))
}

proof fn lemma_entries_keep(rows: Seq<MimeRow>, es: Seq<(String, SourceEntry)>, f: Seq<char>)
    requires
        mime_keys_unique(rows),
        forall|j: int| 0 <= j < es.len() ==> record_key(#[trigger] es[j]) != f,
    ensures
        find_mime(merge_entries(rows, es), f) == find_mime(rows, f),
    decreases es.len(),
{
    if es.len() > 0 {
        let n = es.len() - 1;
        assert(record_key(es[n]) != f);
        lemma_entries_keep(rows, es.drop_last(), f);
        lemma_merge_entries_unique(rows, es.drop_last());
        lemma_find_merge_row(merge_entries(rows, es.drop_last()), row_of(es.last().0, es.last().1), f);
    }
}

proof fn lemma_entries_last_wins(rows: Seq<MimeRow>, es: Seq<(String, SourceEntry)>, i: int)
    requires
        mime_keys_unique(rows),
        0 <= i < es.len(),
        forall|j: int| i < j < es.len() ==> record_key(#[trigger] es[j]) != record_key(es[i]),
    ensures
        find_mime(merge_entries(rows, es), record_key(es[i])) == Some(row_of(es[i].0, es[i].1).entry),
    decreases es.len(),
{
    let f = record_key(es[i]);
    let n = es.len() - 1;
    lemma_merge_entries_unique(rows, es.drop_last());
    lemma_find_merge_row(merge_entries(rows, es.drop_last()), row_of(es.last().0, es.last().1), f);
    if i < n {
        assert(record_key(es[n]) != f);
        lemma_entries_last_wins(rows, es.drop_last(), i);
    }
}

/// Override precedence: the record applied last for a media type (ignoring
/// case) is the one the table holds, whole; earlier records of that type,
/// in earlier datasets or earlier in the same one, are discarded.
pub proof fn lemma_last_record_wins(ds: Seq<Seq<(String, SourceEntry)>>, d: int, i: int)
    requires
        0 <= d < ds.len(),
        0 <= i < ds[d].len(),
        forall|j: int| i < j < ds[d].len() ==> record_key(#[trigger] ds[d][j]) != record_key(ds[d][i]),
        forall|e: int, j: int|
            d < e < ds.len() && 0 <= j < ds[e].len() ==> record_key(#[trigger] ds[e][j]) != record_key(
                ds[d][i],
            ),
    ensures
        find_mime(merge_datasets(ds), record_key(ds[d][i])) == Some(row_of(ds[d][i].0, ds[d][i].1).entry),
        find_mime(build_view(ds).mimes, record_key(ds[d][i])) == Some(row_of(ds[d][i].0, ds[d][i].1).entry),
    decreases ds.len(),
{
    let n = ds.len() - 1;
    lemma_merge_datasets_unique(ds.drop_last());
    if d == n {
        lemma_entries_last_wins(merge_datasets(ds.drop_last()), ds.last(), i);
    } else {
        let f = record_key(ds[d][i]);
        assert forall|j: int| 0 <= j < ds.last().len() implies record_key(#[trigger] ds.last()[j]) != f by {
            assert(record_key(ds[n][j]) != f);
        }
        assert forall|e: int, j: int|
            d < e < ds.drop_last().len() && 0 <= j < ds.drop_last()[e].len() implies record_key(
                #[trigger] ds.drop_last()[e][j],
            ) != f by {
            assert(record_key(ds[e][j]) != f);
        }
        lemma_last_record_wins(ds.drop_last(), d, i);
        lemma_entries_keep(merge_datasets(ds.drop_last()), ds.last(), f);
    }
}

/// Building twice from the same datasets gives the same tables, and the same
/// canonical media type for every extension.
pub proof fn lemma_build_deterministic(a: MimeDb, b: MimeDb, ds: Seq<Seq<(String, SourceEntry)>>)
    requires
        a@ == build_view(ds),
        b@ == build_view(ds),
    ensures
        a@ == b@,
        forall|ext: Seq<char>| mime_from_ext(a@, ext) == mime_from_ext(b@, ext),
{
}

/// Lookups depend on their key only through its case folding.
pub proof fn lemma_case_insensitive(db: MimeDb, x: Seq<char>, y: Seq<char>)
    requires
        fold_of(x) == fold_of(y),
    ensures
        find_ext(db@.exts, fold_of(x)) == find_ext(db@.exts, fold_of(y)),
        find_mime(db@.mimes, fold_of(x)) == find_mime(db@.mimes, fold_of(y)),
        mime_from_ext(db@, x) == mime_from_ext(db@, y),
{
}


proof fn lemma_ranked_contains(rows: Seq<MimeRow>, f: Seq<char>, i: int)
    requires
        0 <= i < rows.len(),
        claims(rows[i], f),
    ensures
        ranked(rows, f, rows[i].source).contains(rows[i].key),
    decreases rows.len(),
{
    let s = rows[i].source;
    let n = rows.len() - 1;
    if i == n {
        let t = ranked(rows.drop_last(), f, s);
        assert(ranked(rows, f, s) == t.push(rows[i].key));
        assert(ranked(rows, f, s)[t.len() as int] == rows[i].key);
    } else {
        assert(rows.drop_last()[i] == rows[i]);
        lemma_ranked_contains(rows.drop_last(), f, i);
        let t = ranked(rows.drop_last(), f, s);
        let p = choose|p: int| 0 <= p < t.len() && t[p] == rows[i].key;
        assert(ranked(rows, f, s)[p] == rows[i].key);
    }
}

proof fn lemma_ranked_members(rows: Seq<MimeRow>, f: Seq<char>, s: Source, p: int)
    requires
        0 <= p < ranked(rows, f, s).len(),
    ensures
        exists|k: int|
            0 <= k < rows.len() && (#[trigger] rows[k]).key == ranked(rows, f, s)[p] && rows[k].source
                == s && claims(rows[k], f),
    decreases rows.len(),
{
    let t = ranked(rows.drop_last(), f, s);
    let n = rows.len() - 1;
    if p < t.len() {
        lemma_ranked_members(rows.drop_last(), f, s, p);
        let k = choose|k: int|
            0 <= k < rows.drop_last().len() && (#[trigger] rows.drop_last()[k]).key == t[p]
                && rows.drop_last()[k].source == s && claims(rows.drop_last()[k], f);
        assert(rows[k] == rows.drop_last()[k]);
    } else {
        assert(rows[n].key == ranked(rows, f, s)[p]);
    }
}

proof fn lemma_add_keys_keeps(keys: Seq<Seq<char>>, exts: Seq<Seq<char>>, x: Seq<char>)
    requires
        keys.contains(x),
    ensures
        add_keys(keys, exts).contains(x),
    decreases exts.len(),
{
    if exts.len() > 0 {
        lemma_add_keys_keeps(keys, exts.drop_last(), x);
        let k = add_keys(keys, exts.drop_last());
        let p = choose|p: int| 0 <= p < k.len() && k[p] == x;
        if !k.contains(fold_of(exts.last())) {
            assert(k.push(fold_of(exts.last()))[p] == x);
        }
    }
}

proof fn lemma_add_keys_contains(keys: Seq<Seq<char>>, exts: Seq<Seq<char>>, j: int)
    requires
        0 <= j < exts.len(),
    ensures
        add_keys(keys, exts).contains(fold_of(exts[j])),
    decreases exts.len(),
{
    let k = add_keys(keys, exts.drop_last());
    let f = fold_of(exts.last());
    if j == exts.len() - 1 {
        if !k.contains(f) {
            assert(k.push(f)[k.len() as int] == f);
        }
    } else {
        assert(exts.drop_last()[j] == exts[j]);
        lemma_add_keys_contains(keys, exts.drop_last(), j);
        let p = choose|p: int| 0 <= p < k.len() && k[p] == fold_of(exts[j]);
        if !k.contains(f) {
            assert(k.push(f)[p] == fold_of(exts[j]));
        }
    }
}

proof fn lemma_ext_keys_contains(rows: Seq<MimeRow>, i: int, f: Seq<char>)
    requires
        0 <= i < rows.len(),
        claims(rows[i], f),
    ensures
        ext_keys(rows).contains(f),
    decreases rows.len(),
{
    let n = rows.len() - 1;
    let j = choose|j: int|
        0 <= j < rows[i].entry.extensions.len() && fold_of(#[trigger] rows[i].entry.extensions[j]) == f;
    if i == n {
        lemma_add_keys_contains(ext_keys(rows.drop_last()), rows.last().entry.extensions, j);
    } else {
        assert(rows.drop_last()[i] == rows[i]);
        lemma_ext_keys_contains(rows.drop_last(), i, f);
        lemma_add_keys_keeps(ext_keys(rows.drop_last()), rows.last().entry.extensions, f);
    }
}

/// An extension that some row claims has the entry that lists, by source,
/// every media type claiming it.
proof fn lemma_find_ext_built(rows: Seq<MimeRow>, f: Seq<char>, i: int)
    requires
        0 <= i < rows.len(),
        claims(rows[i], f),
    ensures
        find_ext(ext_rows(rows), f) == Some(ExtView { types: types_for(rows, f) }),
{
    lemma_ext_keys_contains(rows, i, f);
    lemma_ext_keys_no_dup(rows);
    let keys = ext_keys(rows);
    let t = ext_rows(rows);
    let p = choose|p: int| 0 <= p < keys.len() && keys[p] == f;
    assert(t[p].key == f);
    let q = choose|q: int| 0 <= q < t.len() && #[trigger] t[q].key == f;
    assert(keys[q] == f);
    assert(q == p);
}

/// Round trip: every extension of a listed media type resolves, ignoring
/// case, to an entry whose types include that media type.
pub proof fn lemma_round_trip(db: MimeDb, i: int, j: int)
    requires
        db.wf(),
        0 <= i < db@.mimes.len(),
        0 <= j < db@.mimes[i].entry.extensions.len(),
    ensures
        match find_ext(db@.exts, fold_of(db@.mimes[i].entry.extensions[j])) {
            Some(e) => e.types.contains(db@.mimes[i].key),
            None => false,
        },
{
    db.lemma_wf_tables();
    let rows = db@.mimes;
    let f = fold_of(rows[i].entry.extensions[j]);
    assert(claims(rows[i], f));
    lemma_find_ext_built(rows, f, i);
    lemma_ranked_contains(rows, f, i);
    let r0 = ranked(rows, f, Source::Iana);
    let r1 = ranked(rows, f, Source::Apache);
    let r2 = ranked(rows, f, Source::Nginx);
    let r3 = ranked(rows, f, Source::Unspecified);
    let ts = types_for(rows, f);
    let r = ranked(rows, f, rows[i].source);
    let p = choose|p: int| 0 <= p < r.len() && r[p] == rows[i].key;
    let off: int = match rows[i].source {
        Source::Iana => 0,
        Source::Apache => r0.len() as int,
        Source::Nginx => (r0.len() + r1.len()) as int,
        Source::Unspecified => (r0.len() + r1.len() + r2.len()) as int,
    };
    assert(ts[off + p] == rows[i].key);
}


/// Where the keys of dataset `s` start among the types of `f`.
spec fn rank_offset(rows: Seq<MimeRow>, f: Seq<char>, s: Source) -> int {
    let r0 = ranked(rows, f, Source::Iana).len() as int;
    let r1 = ranked(rows, f, Source::Apache).len() as int;
    let r2 = ranked(rows, f, Source::Nginx).len() as int;
    match s {
        Source::Iana => 0,
        Source::Apache => r0,
        Source::Nginx => r0 + r1,
        Source::Unspecified => r0 + r1 + r2,
    }
}

proof fn lemma_rank_offset(rows: Seq<MimeRow>, f: Seq<char>, s: Source, p: int)
    requires
        0 <= p < ranked(rows, f, s).len(),
    ensures
        rank_offset(rows, f, s) + p < types_for(rows, f).len(),
        types_for(rows, f)[rank_offset(rows, f, s) + p] == ranked(rows, f, s)[p],
        forall|t: Source|
            rank(s) < rank(t) ==> rank_offset(rows, f, s) + p < #[trigger] rank_offset(rows, f, t),
{
}

/// Priority ordering: when media types of two datasets of different
/// authority claim an extension, the more authoritative one is listed first,
/// and the extension resolves to the entry of a media type from a dataset at
/// least as authoritative.
pub proof fn lemma_priority_order(db: MimeDb, ext: Seq<char>, i: int, j: int)
    requires
        db.wf(),
        0 <= i < db@.mimes.len(),
        0 <= j < db@.mimes.len(),
        claims(db@.mimes[i], fold_of(ext)),
        claims(db@.mimes[j], fold_of(ext)),
        rank(db@.mimes[i].source) < rank(db@.mimes[j].source),
    ensures
        match find_ext(db@.exts, fold_of(ext)) {
            Some(e) => {
                &&& exists|p: int, q: int|
                    0 <= p < q < e.types.len() && e.types[p] == db@.mimes[i].key && e.types[q]
                        == db@.mimes[j].key
                &&& exists|k: int|
                    0 <= k < db@.mimes.len() && db@.mimes[k].key == e.types[0] && claims(
                        db@.mimes[k],
                        fold_of(ext),
                    ) && rank(db@.mimes[k].source) <= rank(db@.mimes[i].source) && mime_from_ext(
                        db@,
                        ext,
                    ) == Some(db@.mimes[k].entry)
            },
            None => false,
        },
{
    db.lemma_wf_tables();
    let rows = db@.mimes;
    let f = fold_of(ext);
    lemma_find_ext_built(rows, f, i);
    let ts = types_for(rows, f);
    lemma_ranked_contains(rows, f, i);
    lemma_ranked_contains(rows, f, j);
    let si = rows[i].source;
    let sj = rows[j].source;
    let ri = ranked(rows, f, si);
    let rj = ranked(rows, f, sj);
    let p = choose|p: int| 0 <= p < ri.len() && ri[p] == rows[i].key;
    let q = choose|q: int| 0 <= q < rj.len() && rj[q] == rows[j].key;
    lemma_rank_offset(rows, f, si, p);
    lemma_rank_offset(rows, f, sj, q);
    assert(ts[rank_offset(rows, f, si) + p] == rows[i].key);
    assert(ts[rank_offset(rows, f, sj) + q] == rows[j].key);
    let first: Source = if ranked(rows, f, Source::Iana).len() > 0 {
        Source::Iana
    } else if ranked(rows, f, Source::Apache).len() > 0 {
        Source::Apache
    } else if ranked(rows, f, Source::Nginx).len() > 0 {
        Source::Nginx
    } else {
        Source::Unspecified
    };
    assert(rank(first) <= rank(si));
    lemma_rank_offset(rows, f, first, 0);
    assert(rank_offset(rows, f, first) == 0);
    lemma_ranked_members(rows, f, first, 0);
    let k = choose|k: int|
        0 <= k < rows.len() && (#[trigger] rows[k]).key == ranked(rows, f, first)[0] && rows[k].source
            == first && claims(rows[k], f);
    assert(ts[0] == rows[k].key);
    let c = choose|c: int| 0 <= c < rows.len() && fold_of(#[trigger] rows[c].key) == fold_of(ts[0]);
    assert(fold_of(rows[k].key) == fold_of(ts[0]));
    assert(c == k);
}


proof fn lemma_add_keys_members(keys: Seq<Seq<char>>, exts: Seq<Seq<char>>, x: Seq<char>)
    requires
        add_keys(keys, exts).contains(x),
    ensures
        keys.contains(x) || exists|j: int| 0 <= j < exts.len() && fold_of(#[trigger] exts[j]) == x,
    decreases exts.len(),
{
    if exts.len() > 0 {
        let k = add_keys(keys, exts.drop_last());
        let n = exts.len() - 1;
        if k.contains(x) {
            lemma_add_keys_members(keys, exts.drop_last(), x);
            if !keys.contains(x) {
                let j = choose|j: int| 0 <= j < exts.drop_last().len() && fold_of(#[trigger] exts.drop_last()[j]) == x;
                assert(exts[j] == exts.drop_last()[j]);
            }
        } else {
            assert(fold_of(exts[n]) == x);
        }
    }
}

proof fn lemma_ext_keys_members(rows: Seq<MimeRow>, x: Seq<char>)
    requires
        ext_keys(rows).contains(x),
    ensures
        exists|i: int| 0 <= i < rows.len() && claims(#[trigger] rows[i], x),
    decreases rows.len(),
{
    if rows.len() > 0 {
        let n = rows.len() - 1;
        lemma_add_keys_members(ext_keys(rows.drop_last()), rows.last().entry.extensions, x);
        if ext_keys(rows.drop_last()).contains(x) {
            lemma_ext_keys_members(rows.drop_last(), x);
            let i = choose|i: int| 0 <= i < rows.drop_last().len() && claims(#[trigger] rows.drop_last()[i], x);
            assert(rows[i] == rows.drop_last()[i]);
        } else {
            assert(claims(rows[n], x));
        }
    }
}

/// In consistent tables, every extension is claimed by some media type and
/// lists at least one.
pub proof fn lemma_ext_types_nonempty(db: MimeDb, k: int)
    requires
        db.wf(),
        0 <= k < db@.exts.len(),
    ensures
        db@.exts[k].entry.types.len() > 0,
        exists|i: int| 0 <= i < db@.mimes.len() && claims(#[trigger] db@.mimes[i], db@.exts[k].key),
{
    db.lemma_wf_tables();
    let rows = db@.mimes;
    let x = ext_keys(rows)[k];
    assert(db@.exts[k].key == x);
    lemma_ext_keys_members(rows, x);
    let i = choose|i: int| 0 <= i < rows.len() && claims(#[trigger] rows[i], x);
    lemma_ranked_contains(rows, x, i);
    let r = ranked(rows, x, rows[i].source);
    assert(r.len() > 0);
    lemma_rank_offset(rows, x, rows[i].source, 0);
}

} // verus!
