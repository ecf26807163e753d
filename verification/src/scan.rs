//! The scan orchestration logic: building catalog records from candidate
//! entries, folding walked roots into the result store with full-replace
//! semantics, repository-candidate detection, and the summary scan's state
//! and progress accounting.

use vstd::prelude::*;
use crate::classify::{classify_for_scope, spec_classify_scoped, ScanScope};
use crate::filter::{
    doc_path, doc_type, entry_is_candidate, entry_views, is_candidate, FsEntry, FsEntryV,
    TimeRange,
};
use crate::store::{
    lemma_unique_keys_push, lemma_unique_keys_remove, other_project, same_key, spec_upsert,
    unique_keys, RecordCore, RecordV, ResultStore, ScanResultItem,
};
use crate::text::{file_name, file_name_of, parent_dir_of, parent_of, str_views};

verus! {

/// Relies on uuid::Uuid::new_v4 and its hyphenated rendering: a freshly
/// drawn random identifier, always 36 characters long.
#[verifier::external_body]
fn fresh_id() -> (r: String)
    ensures
        r@.len() == 36,
{
    uuid::Uuid::new_v4().to_string()
}

/// The reproducible fields of the record a candidate entry yields: its
/// document type, its origin under the scan's scope, its stamps and size,
/// with a missing creation stamp falling back to the modification stamp.
pub open spec fn spec_record_core(e: FsEntryV, scope: ScanScope) -> RecordCore {
    RecordCore {
        file_type: match doc_type(e.path) {
            Some(t) => t,
            None => Seq::empty(),
        },
        source: spec_classify_scoped(e.path, scope).spec_tag(),
        created_at: match e.created {
            Some(c) => Some(c),
            None => e.modified,
        },
        modified_at: e.modified,
        size_bytes: e.size,
        is_valid: true,
    }
}

/// Build the record a candidate entry yields. The identifier is freshly
/// drawn, in the 36-character hyphenated form; both bookkeeping stamps are
/// `now`.
pub fn make_record(e: &FsEntry, project_id: &str, scope: ScanScope, now: u64) -> (r:
    ScanResultItem)
    requires
        doc_path(e@.path),
    ensures
        r@.project_id == project_id@,
        r@.file_path == e@.path,
        r@.id.len() == 36,
        r@.reproducible() == spec_record_core(e@, scope),
        r@.inserted_at == now,
        r@.updated_at == now,
{
    let file_type = match crate::filter::doc_type_of(e.path.as_str()) {
        Some(t) => t,
        None => {
            proof {
                assert(false);
            }
            String::new()
        },
    };
    let source = classify_for_scope(e.path.as_str(), scope).as_str().to_owned();
    let created_at = match e.created {
        Some(c) => Some(c),
        None => e.modified,
    };
    ScanResultItem {
        id: fresh_id(),
        project_id: project_id.to_owned(),
        file_path: e.path.clone(),
        file_type,
        source,
        created_at,
        modified_at: e.modified,
        size_bytes: e.size,
        is_valid: true,
        inserted_at: now,
        updated_at: now,
    }
}

/// A project's catalog, seen as a map from file path to the reproducible
/// fields of the record stored there.
pub open spec fn project_core_map(s: Seq<RecordV>, pid: Seq<char>) -> Map<Seq<char>, RecordCore> {
    Map::new(
        |path: Seq<char>|
            exists|i: int|
                0 <= i < s.len() && s[i].project_id == pid && s[i].file_path == path,
        |path: Seq<char>|
            {
                let i = choose|i: int|
                    0 <= i < s.len() && s[i].project_id == pid && s[i].file_path == path;
                s[i].reproducible()
            },
    )
}

/// Every record of the project carries these bookkeeping stamps.
pub open spec fn stamps_are(s: Seq<RecordV>, pid: Seq<char>, now: u64) -> bool {
    forall|i: int|
        0 <= i < s.len() && s[i].project_id == pid ==> s[i].inserted_at == now && s[i].updated_at
            == now
}

/// One root's entries folded into a project map, in walk order: each
/// candidate's reproducible record lands at its path, replacing any earlier
/// one; everything else is untouched.
pub open spec fn ingest_fold(
    m: Map<Seq<char>, RecordCore>,
    es: Seq<FsEntryV>,
    scope: ScanScope,
    range: TimeRange,
    now: u64,
) -> Map<Seq<char>, RecordCore>
    decreases es.len(),
{
    if es.len() == 0 {
        m
    } else {
        let m1 = ingest_fold(m, es.drop_last(), scope, range, now);
        if is_candidate(es.last(), range, now) {
            m1.insert(es.last().path, spec_record_core(es.last(), scope))
        } else {
            m1
        }
    }
}

/// The catalog a full rescan produces, up to identifiers and stamps: every
/// root's entries folded in turn into an empty map.
pub open spec fn catalog_model(
    roots: Seq<Seq<FsEntryV>>,
    scope: ScanScope,
    range: TimeRange,
    now: u64,
) -> Map<Seq<char>, RecordCore>
    decreases roots.len(),
{
    if roots.len() == 0 {
        Map::<Seq<char>, RecordCore>::empty()
    } else {
        ingest_fold(
            catalog_model(roots.drop_last(), scope, range, now),
            roots.last(),
            scope,
            range,
            now,
        )
    }
}

/// The images of a vector of entry vectors, one per root.
pub open spec fn roots_views(s: Seq<Vec<FsEntry>>) -> Seq<Seq<FsEntryV>> {
    s.map_values(|v: Vec<FsEntry>| entry_views(v@))
}

/// In a key-unique sequence, the project map's value at a path is the
/// reproducible part of whichever record holds that key.
proof fn lemma_core_map_value(s: Seq<RecordV>, pid: Seq<char>, i: int)
    requires
        unique_keys(s),
        0 <= i < s.len(),
        s[i].project_id == pid,
    ensures
        project_core_map(s, pid).dom().contains(s[i].file_path),
        project_core_map(s, pid)[s[i].file_path] == s[i].reproducible(),
{
    let p = s[i].file_path;
    let j = choose|j: int| 0 <= j < s.len() && s[j].project_id == pid && s[j].file_path == p;
    if j != i {
        if j < i {
            assert(!same_key(s[j], s[i]));
        } else {
            assert(!same_key(s[i], s[j]));
        }
    }
}

/// An upsert of a record of the project inserts its reproducible fields into
/// the project map, leaves other projects' records untouched, and preserves
/// key uniqueness and the stamp discipline.
proof fn lemma_upsert_core_map(s: Seq<RecordV>, r: RecordV, pid: Seq<char>, now: u64)
    requires
        unique_keys(s),
        r.project_id == pid,
    ensures
        unique_keys(spec_upsert(s, r)),
        project_core_map(spec_upsert(s, r), pid) == project_core_map(s, pid).insert(
            r.file_path,
            r.reproducible(),
        ),
        spec_upsert(s, r).filter(|x: RecordV| other_project(x, pid)) == s.filter(
            |x: RecordV| other_project(x, pid),
        ),
        stamps_are(s, pid, now) && r.inserted_at == now && r.updated_at == now ==> stamps_are(
            spec_upsert(s, r),
            pid,
            now,
        ),
{
    let pred = |x: RecordV| other_project(x, pid);
    let t = spec_upsert(s, r);
    if exists|i: int| 0 <= i < s.len() && same_key(s[i], r) {
        let i = choose|i: int| 0 <= i < s.len() && same_key(s[i], r);
        assert(t == s.remove(i).push(r));
        lemma_unique_keys_remove(s, i);
        let u = s.remove(i);
        assert forall|k: int| 0 <= k < u.len() implies !same_key(u[k], r) by {
            let o = if k < i {
                k
            } else {
                k + 1
            };
            assert(u[k] == s[o]);
            if o < i {
                assert(!same_key(s[o], s[i]));
            } else if o > i {
                assert(!same_key(s[i], s[o]));
            }
        }
        lemma_unique_keys_push(u, r);
        // Other projects' records: position i holds a record of this project,
        // so removing it and appending r moves nothing of theirs.
        assert(s =~= s.subrange(0, i) + seq![s[i]] + s.subrange(i + 1, s.len() as int));
        assert(u =~= s.subrange(0, i) + s.subrange(i + 1, s.len() as int));
        broadcast use vstd::prelude::Seq::filter_distributes_over_add;

        assert((seq![s[i]] + s.subrange(i + 1, s.len() as int)).filter(pred) == seq![s[i]].filter(
            pred,
        ) + s.subrange(i + 1, s.len() as int).filter(pred));
        assert(seq![s[i]].filter(pred) =~= Seq::<RecordV>::empty()) by {
            reveal_with_fuel(Seq::filter, 2);
            assert(seq![s[i]].drop_last() =~= Seq::<RecordV>::empty());
        }
        assert(seq![r].filter(pred) =~= Seq::<RecordV>::empty()) by {
            reveal_with_fuel(Seq::filter, 2);
            assert(seq![r].drop_last() =~= Seq::<RecordV>::empty());
        }
        assert(t =~= u + seq![r]);
        assert(t.filter(pred) == u.filter(pred) + seq![r].filter(pred));
        assert(u.filter(pred) == s.subrange(0, i).filter(pred) + s.subrange(
            i + 1,
            s.len() as int,
        ).filter(pred));
        assert((s.subrange(0, i) + seq![s[i]]).filter(pred) == s.subrange(0, i).filter(pred)
            + seq![s[i]].filter(pred));
        assert((s.subrange(0, i) + seq![s[i]] + s.subrange(i + 1, s.len() as int)).filter(pred)
            == (s.subrange(0, i) + seq![s[i]]).filter(pred) + s.subrange(
            i + 1,
            s.len() as int,
        ).filter(pred));
        assert(t.filter(pred) =~= s.filter(pred));
        lemma_upsert_map_equal(s, t, r, pid, i, true);
    } else {
        assert(t == s.push(r));
        assert forall|k: int| 0 <= k < s.len() implies !same_key(s[k], r) by {
            if same_key(s[k], r) {
                assert(exists|i: int| 0 <= i < s.len() && same_key(s[i], r));
            }
        }
        lemma_unique_keys_push(s, r);
        assert(seq![r].filter(pred) =~= Seq::<RecordV>::empty()) by {
            reveal_with_fuel(Seq::filter, 2);
            assert(seq![r].drop_last() =~= Seq::<RecordV>::empty());
        }
        broadcast use vstd::prelude::Seq::filter_distributes_over_add;

        assert(t =~= s + seq![r]);
        assert(t.filter(pred) =~= s.filter(pred));
        lemma_upsert_map_equal(s, t, r, pid, 0, false);
    }
}

/// The map form of an upsert: point equality of the two maps.
proof fn lemma_upsert_map_equal(
    s: Seq<RecordV>,
    t: Seq<RecordV>,
    r: RecordV,
    pid: Seq<char>,
    i: int,
    replaced: bool,
)
    requires
        unique_keys(s),
        unique_keys(t),
        r.project_id == pid,
        replaced ==> 0 <= i < s.len() && same_key(s[i], r) && t == s.remove(i).push(r),
        !replaced ==> t == s.push(r),
    ensures
        project_core_map(t, pid) == project_core_map(s, pid).insert(
            r.file_path,
            r.reproducible(),
        ),
{
    let mt = project_core_map(t, pid);
    let ms = project_core_map(s, pid).insert(r.file_path, r.reproducible());
    assert forall|p: Seq<char>| #[trigger] mt.dom().contains(p) implies ms.dom().contains(p)
        && mt[p] == ms[p] by {
        let k = choose|k: int| 0 <= k < t.len() && t[k].project_id == pid && t[k].file_path == p;
        lemma_core_map_value(t, pid, k);
        if p == r.file_path {
            assert(t[t.len() - 1] == r);
            lemma_core_map_value(t, pid, t.len() - 1);
            assert(mt[p] == r.reproducible());
        } else {
            // The witness is an old record, at a possibly shifted position.
            if replaced {
                assert(k < t.len() - 1);
                let o = if k < i {
                    k
                } else {
                    k + 1
                };
                assert(t[k] == s[o]);
                lemma_core_map_value(s, pid, o);
            } else {
                assert(k < t.len() - 1);
                assert(t[k] == s[k]);
                lemma_core_map_value(s, pid, k);
            }
        }
    }
    assert forall|p: Seq<char>| #[trigger] ms.dom().contains(p) implies mt.dom().contains(p) by {
        if p == r.file_path {
            assert(t[t.len() - 1] == r);
        } else {
            let k = choose|k: int|
                0 <= k < s.len() && s[k].project_id == pid && s[k].file_path == p;
            if replaced {
                let n = if k < i {
                    k
                } else {
                    k - 1
                };
                assert(k != i);
                assert(t[n] == s[k]);
            } else {
                assert(t[k] == s[k]);
            }
        }
    }
    assert(mt =~= ms);
}

/// A sequence every element of which the predicate admits filters to itself.
proof fn lemma_filter_all(s: Seq<RecordV>, pred: spec_fn(RecordV) -> bool)
    requires
        forall|i: int| 0 <= i < s.len() ==> pred(s[i]),
    ensures
        s.filter(pred) == s,
    decreases s.len(),
{
    reveal(Seq::filter);
    if s.len() > 0 {
        lemma_filter_all(s.drop_last(), pred);
        assert(s.filter(pred) =~= s);
    }
}

/// Fold one root's entries into the store: every candidate entry's record is
/// upserted, in walk order. Records of other projects are untouched; the
/// project's map gains exactly the fold of this root's entries; every record
/// the project holds afterwards keeps the stamp discipline.
pub fn ingest_root(
    store: &mut ResultStore,
    project_id: &str,
    entries: &Vec<FsEntry>,
    range: TimeRange,
    now: u64,
    scope: ScanScope,
)
    requires
        old(store).wf(),
    ensures
        final(store).wf(),
        project_core_map(final(store)@, project_id@) == ingest_fold(
            project_core_map(old(store)@, project_id@),
            entry_views(entries@),
            scope,
            range,
            now,
        ),
        final(store)@.filter(|x: RecordV| other_project(x, project_id@)) == old(store)@.filter(
            |x: RecordV| other_project(x, project_id@),
        ),
        stamps_are(old(store)@, project_id@, now) ==> stamps_are(final(store)@, project_id@, now),
{
    let ghost init = store@;
    let ghost pid = project_id@;
    let mut i: usize = 0;
    proof {
        assert(entry_views(entries@.subrange(0, 0)) =~= Seq::<FsEntryV>::empty());
    }
    while i < entries.len()
        invariant
            i <= entries@.len(),
            store.wf(),
            project_core_map(store@, pid) == ingest_fold(
                project_core_map(init, pid),
                entry_views(entries@.subrange(0, i as int)),
                scope,
                range,
                now,
            ),
            store@.filter(|x: RecordV| other_project(x, pid)) == init.filter(
                |x: RecordV| other_project(x, pid),
            ),
            stamps_are(init, pid, now) ==> stamps_are(store@, pid, now),
            pid == project_id@,
        decreases entries@.len() - i,
    {
        let ghost pre = entry_views(entries@.subrange(0, i as int));
        let e = &entries[i];
        if entry_is_candidate(e, range, now) {
            let rec = make_record(e, project_id, scope, now);
            let ghost before = store@;
            store.upsert(rec);
            proof {
                lemma_upsert_core_map(before, rec@, pid, now);
            }
        }
        proof {
            let nxt = entry_views(entries@.subrange(0, i + 1));
            assert(nxt =~= pre.push(entries@[i as int]@));
            assert(nxt.drop_last() =~= pre);
            assert(nxt.last() == entries@[i as int]@);
        }
        i += 1;
    }
    proof {
        assert(entries@.subrange(0, entries@.len() as int) =~= entries@);
    }
}

/// Begin a full-replace rescan: the project's records are deleted, other
/// projects' records stay.
pub fn begin_catalog(store: &mut ResultStore, project_id: &str)
    requires
        old(store).wf(),
    ensures
        final(store).wf(),
        final(store)@ == old(store)@.filter(|x: RecordV| other_project(x, project_id@)),
        project_core_map(final(store)@, project_id@) == Map::<Seq<char>, RecordCore>::empty(),
        forall|i: int| 0 <= i < final(store)@.len() ==> final(store)@[i].project_id
            != project_id@,
{
    store.replace_all(project_id);
    proof {
        let pid = project_id@;
        let s = store@;
        broadcast use vstd::seq_lib::group_filter_ensures;

        assert forall|i: int| 0 <= i < s.len() implies s[i].project_id != pid by {}
        let m = project_core_map(s, pid);
        assert forall|p: Seq<char>| !(#[trigger] m.dom().contains(p)) by {
            if exists|i: int| 0 <= i < s.len() && s[i].project_id == pid && s[i].file_path == p {
                let i = choose|i: int|
                    0 <= i < s.len() && s[i].project_id == pid && s[i].file_path == p;
                assert(s[i].project_id != pid);
            }
        }
        assert(m =~= Map::<Seq<char>, RecordCore>::empty());
    }
}

/// Run a full catalog rescan: delete the project's records, then fold every
/// root's entries in, in order. Afterwards the project's catalog is exactly
/// the model of the walked snapshot, every one of its records is stamped
/// `now`, and other projects' records are untouched.
pub fn run_catalog(
    store: &mut ResultStore,
    project_id: &str,
    roots_entries: &Vec<Vec<FsEntry>>,
    range: TimeRange,
    now: u64,
    scope: ScanScope,
)
    requires
        old(store).wf(),
    ensures
        final(store).wf(),
        project_core_map(final(store)@, project_id@) == catalog_model(
            roots_views(roots_entries@),
            scope,
            range,
            now,
        ),
        final(store)@.filter(|x: RecordV| other_project(x, project_id@)) == old(store)@.filter(
            |x: RecordV| other_project(x, project_id@),
        ),
        stamps_are(final(store)@, project_id@, now),
{
    let ghost pid = project_id@;
    begin_catalog(store, project_id);
    let ghost cleared = store@;
    proof {
        assert(roots_views(roots_entries@.subrange(0, 0)) =~= Seq::<Seq<FsEntryV>>::empty());
        lemma_filter_all(store@, |x: RecordV| other_project(x, pid));
    }
    let mut i: usize = 0;
    while i < roots_entries.len()
        invariant
            i <= roots_entries@.len(),
            store.wf(),
            project_core_map(store@, pid) == catalog_model(
                roots_views(roots_entries@.subrange(0, i as int)),
                scope,
                range,
                now,
            ),
            store@.filter(|x: RecordV| other_project(x, pid)) == cleared,
            stamps_are(store@, pid, now),
            pid == project_id@,
        decreases roots_entries@.len() - i,
    {
        let ghost pre = roots_views(roots_entries@.subrange(0, i as int));
        ingest_root(store, project_id, &roots_entries[i], range, now, scope);
        proof {
            let nxt = roots_views(roots_entries@.subrange(0, i + 1));
            assert(nxt =~= pre.push(entry_views(roots_entries@[i as int]@)));
            assert(nxt.drop_last() =~= pre);
            assert(nxt.last() == entry_views(roots_entries@[i as int]@));
        }
        i += 1;
    }
    proof {
        assert(roots_entries@.subrange(0, roots_entries@.len() as int) =~= roots_entries@);
    }
}

/// A full rescan over the same filesystem snapshot reproduces the catalog:
/// any two stores whose project catalogs both equal the model of one walked
/// snapshot agree on the project's file paths and, at every path, on all
/// reproducible fields. Only the opaque identifiers and the bookkeeping
/// stamps may differ between the two runs.
pub proof fn lemma_rescan_reproducible(
    s1: Seq<RecordV>,
    s2: Seq<RecordV>,
    pid: Seq<char>,
    roots: Seq<Seq<FsEntryV>>,
    scope: ScanScope,
    range: TimeRange,
    now: u64,
)
    requires
        project_core_map(s1, pid) == catalog_model(roots, scope, range, now),
        project_core_map(s2, pid) == catalog_model(roots, scope, range, now),
    ensures
        project_core_map(s1, pid) == project_core_map(s2, pid),
{
}

/// For any project, no two stored records share a file path.
pub proof fn lemma_paths_unique(store: ResultStore, pid: Seq<char>, i: int, j: int)
    requires
        store.wf(),
        0 <= i < j < store@.len(),
        store@[i].project_id == pid,
        store@[j].project_id == pid,
    ensures
        store@[i].file_path != store@[j].file_path,
{
    assert(!same_key(store@[i], store@[j]));
}

/// The repository candidates under a root, in walk order: for each directory
/// entry named `.git`, the path of its parent directory. Whether the parent
/// really opens as a repository is for the caller to test.
pub open spec fn spec_repo_candidates(es: Seq<FsEntryV>) -> Seq<Seq<char>>
    decreases es.len(),
{
    if es.len() == 0 {
        Seq::empty()
    } else {
        let pre = spec_repo_candidates(es.drop_last());
        let e = es.last();
        if e.is_dir && file_name(e.path) == ".git"@ {
            pre.push(parent_of(e.path))
        } else {
            pre
        }
    }
}

/// Collect the repository candidates under a root.
pub fn repo_candidates(entries: &Vec<FsEntry>) -> (r: Vec<String>)
    ensures
        str_views(r@) == spec_repo_candidates(entry_views(entries@)),
{
    let mut out: Vec<String> = Vec::new();
    let mut i: usize = 0;
    proof {
        assert(entry_views(entries@.subrange(0, 0)) =~= Seq::<FsEntryV>::empty());
        assert(str_views(out@) =~= spec_repo_candidates(entry_views(entries@.subrange(0, 0))));
    }
    while i < entries.len()
        invariant
            i <= entries@.len(),
            str_views(out@) == spec_repo_candidates(entry_views(entries@.subrange(0, i as int))),
        decreases entries@.len() - i,
    {
        let ghost pre = entry_views(entries@.subrange(0, i as int));
        let e = &entries[i];
        if e.is_dir {
            let name = file_name_of(e.path.as_str());
            if crate::text::str_eq(name.as_str(), ".git") {
                out.push(parent_dir_of(e.path.as_str()));
            }
        }
        proof {
            let nxt = entry_views(entries@.subrange(0, i + 1));
            assert(nxt =~= pre.push(entries@[i as int]@));
            assert(nxt.drop_last() =~= pre);
            assert(nxt.last() == entries@[i as int]@);
            assert(str_views(out@) =~= spec_repo_candidates(nxt));
        }
        i += 1;
    }
    proof {
        assert(entries@.subrange(0, entries@.len() as int) =~= entries@);
    }
    out
}

/// How many flags are set.
pub open spec fn spec_count_true(s: Seq<bool>) -> int
    decreases s.len(),
{
    if s.len() == 0 {
        0
    } else {
        spec_count_true(s.drop_last()) + if s.last() {
            1int
        } else {
            0int
        }
    }
}

/// Count the set flags: how many repository candidates were confirmed.
pub fn count_true(flags: &Vec<bool>) -> (r: usize)
    ensures
        r == spec_count_true(flags@),
{
    let mut n: usize = 0;
    let mut i: usize = 0;
    proof {
        lemma_count_true_bound(flags@);
    }
    while i < flags.len()
        invariant
            i <= flags@.len(),
            n == spec_count_true(flags@.subrange(0, i as int)),
            n <= i,
        decreases flags@.len() - i,
    {
        proof {
            assert(flags@.subrange(0, i + 1).drop_last() =~= flags@.subrange(0, i as int));
        }
        if flags[i] {
            n += 1;
        }
        i += 1;
    }
    proof {
        assert(flags@.subrange(0, flags@.len() as int) =~= flags@);
    }
    n
}

/// The count of set flags never exceeds the flag count.
proof fn lemma_count_true_bound(s: Seq<bool>)
    ensures
        0 <= spec_count_true(s) <= s.len(),
    decreases s.len(),
{
    if s.len() > 0 {
        lemma_count_true_bound(s.drop_last());
    }
}

/// The sum of per-root counts.
pub open spec fn spec_sum(s: Seq<usize>) -> int
    decreases s.len(),
{
    if s.len() == 0 {
        0
    } else {
        spec_sum(s.drop_last()) + s.last()
    }
}

/// A prefix never sums to more than the whole: the counts are non-negative.
proof fn lemma_sum_prefix(s: Seq<usize>, i: int)
    requires
        0 <= i <= s.len(),
    ensures
        spec_sum(s.subrange(0, i)) <= spec_sum(s),
    decreases s.len() - i,
{
    if i == s.len() {
        assert(s.subrange(0, i) =~= s);
    } else {
        assert(s.subrange(0, i + 1).drop_last() =~= s.subrange(0, i));
        assert(spec_sum(s.subrange(0, i)) <= spec_sum(s.subrange(0, i + 1)));
        lemma_sum_prefix(s, i + 1);
    }
}

/// What the lightweight summary scan reports.
pub struct ScanSummary {
    pub git_repos: usize,
    pub documents: usize,
    pub chat_locations: Vec<crate::roots::ChatLocation>,
}

/// The summary scan's state: chat locations detected first, then each root
/// walked for repositories, then the documents counted, then completion.
/// Every progress value it hands out is at least the previous one.
pub struct SummaryScan {
    total_roots: usize,
    roots_walked: usize,
    git_repos: usize,
    documents: usize,
    chats: Vec<crate::roots::ChatLocation>,
    docs_counted: bool,
    last_progress: u8,
}

impl SummaryScan {
    /// The scan's invariant: the walk stays within its root count, and the
    /// last progress value matches the phase — the 18-to-60 walk band
    /// first, 84 once the documents are counted.
    pub closed spec fn wf(self) -> bool {
        &&& 1 <= self.total_roots
        &&& self.roots_walked <= self.total_roots
        &&& !self.docs_counted ==> self.last_progress
            == crate::progress::spec_summary_walk_progress(
            self.roots_walked as int,
            self.total_roots as int,
        )
        &&& self.docs_counted ==> self.last_progress == 84
    }

    /// How many roots the scan walks.
    pub closed spec fn total(self) -> int {
        self.total_roots as int
    }

    /// How many roots are walked so far.
    pub closed spec fn walked(self) -> int {
        self.roots_walked as int
    }

    /// Confirmed repositories so far.
    pub closed spec fn git_count(self) -> int {
        self.git_repos as int
    }

    /// The document count, once counted.
    pub closed spec fn doc_count(self) -> int {
        self.documents as int
    }

    /// Whether the document-count phase is done.
    pub closed spec fn counted(self) -> bool {
        self.docs_counted
    }

    /// The chat locations the scan detected.
    pub closed spec fn chats_found(self) -> Seq<crate::roots::ChatLocationV> {
        crate::roots::chat_views(self.chats@)
    }

    /// The last progress value handed out.
    pub closed spec fn progress(self) -> int {
        self.last_progress as int
    }

    /// Begin a summary scan: the chat locations are in hand, and progress
    /// jumps to 18 before any root is walked. A root count of zero is
    /// taken as one, so the walk band divides cleanly.
    pub fn begin(chats: Vec<crate::roots::ChatLocation>, total_roots: usize) -> (r: (
        SummaryScan,
        u8,
    ))
        ensures
            r.0.wf(),
            r.1 == 18,
            r.0.progress() == 18,
            r.0.walked() == 0,
            r.0.total() == if total_roots == 0 {
                1int
            } else {
                total_roots as int
            },
            r.0.git_count() == 0,
            r.0.doc_count() == 0,
            !r.0.counted(),
            r.0.chats_found() == crate::roots::chat_views(chats@),
    {
        let total = if total_roots == 0 {
            1
        } else {
            total_roots
        };
        let s = SummaryScan {
            total_roots: total,
            roots_walked: 0,
            git_repos: 0,
            documents: 0,
            chats,
            docs_counted: false,
            last_progress: crate::progress::SUMMARY_START,
        };
        proof {
            assert(crate::progress::spec_summary_walk_progress(0, total as int) == 18) by {
                vstd::arithmetic::div_mod::lemma_div_of0(total as int);
            }
        }
        (s, crate::progress::SUMMARY_START)
    }

    /// One root walked, its confirmed repositories counted in. The returned
    /// progress lies in the walk band and never falls below the previous
    /// value.
    pub fn root_walked(&mut self, repos_confirmed: usize) -> (p: u8)
        requires
            old(self).wf(),
            !old(self).counted(),
            old(self).walked() < old(self).total(),
            old(self).git_count() + repos_confirmed <= usize::MAX,
        ensures
            final(self).wf(),
            !final(self).counted(),
            final(self).walked() == old(self).walked() + 1,
            final(self).total() == old(self).total(),
            final(self).git_count() == old(self).git_count() + repos_confirmed,
            final(self).doc_count() == old(self).doc_count(),
            final(self).chats_found() == old(self).chats_found(),
            p == crate::progress::spec_summary_walk_progress(
                final(self).walked(),
                final(self).total(),
            ),
            old(self).progress() <= p <= 60,
            final(self).progress() == p,
    {
        self.git_repos = self.git_repos + repos_confirmed;
        self.roots_walked = self.roots_walked + 1;
        let p = crate::progress::summary_walk_progress(self.roots_walked, self.total_roots);
        proof {
            crate::progress::lemma_summary_walk_progress_monotone(
                self.roots_walked as int - 1,
                self.roots_walked as int,
                self.total_roots as int,
            );
        }
        self.last_progress = p;
        p
    }

    /// The document-count phase: every root's candidate count summed;
    /// progress moves to the fixed checkpoint 84.
    pub fn set_documents(&mut self, counts: &Vec<usize>) -> (p: u8)
        requires
            old(self).wf(),
            !old(self).counted(),
            spec_sum(counts@) <= usize::MAX,
        ensures
            final(self).wf(),
            final(self).counted(),
            final(self).doc_count() == spec_sum(counts@),
            final(self).git_count() == old(self).git_count(),
            final(self).chats_found() == old(self).chats_found(),
            p == 84,
            old(self).progress() <= p,
            final(self).progress() == 84,
    {
        proof {
            // The walk band never exceeds 60, so the jump to 84 cannot fall.
            vstd::arithmetic::div_mod::lemma_div_is_ordered(
                old(self).roots_walked as int * 42,
                old(self).total_roots as int * 42,
                old(self).total_roots as int,
            );
            vstd::arithmetic::div_mod::lemma_div_by_multiple(
                42,
                old(self).total_roots as int,
            );
        }
        let mut total: usize = 0;
        let mut i: usize = 0;
        while i < counts.len()
            invariant
                i <= counts@.len(),
                total == spec_sum(counts@.subrange(0, i as int)),
                spec_sum(counts@) <= usize::MAX,
            decreases counts@.len() - i,
        {
            proof {
                assert(counts@.subrange(0, i + 1).drop_last() =~= counts@.subrange(0, i as int));
                lemma_sum_prefix(counts@, i + 1);
            }
            total = total + counts[i];
            i += 1;
        }
        proof {
            assert(counts@.subrange(0, counts@.len() as int) =~= counts@);
        }
        self.documents = total;
        self.docs_counted = true;
        self.last_progress = crate::progress::SUMMARY_DOCS;
        crate::progress::SUMMARY_DOCS
    }

    /// Complete the scan: the summary is handed out with progress 100.
    pub fn complete(self) -> (r: (ScanSummary, u8))
        requires
            self.wf(),
            self.counted(),
        ensures
            r.1 == 100,
            r.0.git_repos == self.git_count(),
            r.0.documents == self.doc_count(),
            crate::roots::chat_views(r.0.chat_locations@) == self.chats_found(),
            self.progress() <= 100,
    {
        let summary = ScanSummary {
            git_repos: self.git_repos,
            documents: self.documents,
            chat_locations: self.chats,
        };
        (summary, crate::progress::SCAN_DONE)
    }
}

} // verus!
