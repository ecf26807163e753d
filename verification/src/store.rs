//! The result store: the per-project catalog of scan records, keyed by the
//! pair (project, file path). A full rescan deletes a project's records and
//! repopulates them; an upsert replaces by key, never duplicating it.

use vstd::prelude::*;

verus! {

/// One durable catalog record for a discovered file.
pub struct ScanResultItem {
    pub id: String,
    pub project_id: String,
    pub file_path: String,
    pub file_type: String,
    pub source: String,
    pub created_at: Option<u64>,
    pub modified_at: Option<u64>,
    pub size_bytes: u64,
    pub is_valid: bool,
    pub inserted_at: u64,
    pub updated_at: u64,
}

/// The mathematical image of a record.
pub ghost struct RecordV {
    pub id: Seq<char>,
    pub project_id: Seq<char>,
    pub file_path: Seq<char>,
    pub file_type: Seq<char>,
    pub source: Seq<char>,
    pub created_at: Option<u64>,
    pub modified_at: Option<u64>,
    pub size_bytes: u64,
    pub is_valid: bool,
    pub inserted_at: u64,
    pub updated_at: u64,
}

/// The fields a rescan reproduces from the filesystem alone: everything but
/// the record's opaque identifier and its bookkeeping stamps.
pub ghost struct RecordCore {
    pub file_type: Seq<char>,
    pub source: Seq<char>,
    pub created_at: Option<u64>,
    pub modified_at: Option<u64>,
    pub size_bytes: u64,
    pub is_valid: bool,
}

impl RecordV {
    /// The reproducible part of the record.
    pub open spec fn reproducible(self) -> RecordCore {
        RecordCore {
            file_type: self.file_type,
            source: self.source,
            created_at: self.created_at,
            modified_at: self.modified_at,
            size_bytes: self.size_bytes,
            is_valid: self.is_valid,
        }
    }
}

impl View for ScanResultItem {
    type V = RecordV;

    open spec fn view(&self) -> RecordV {
        RecordV {
            id: self.id@,
            project_id: self.project_id@,
            file_path: self.file_path@,
            file_type: self.file_type@,
            source: self.source@,
            created_at: self.created_at,
            modified_at: self.modified_at,
            size_bytes: self.size_bytes,
            is_valid: self.is_valid,
            inserted_at: self.inserted_at,
            updated_at: self.updated_at,
        }
    }
}

impl ScanResultItem {
    /// An owned copy with the same image.
    pub fn duplicate(&self) -> (r: ScanResultItem)
        ensures
            r@ == self@,
    {
        ScanResultItem {
            id: self.id.clone(),
            project_id: self.project_id.clone(),
            file_path: self.file_path.clone(),
            file_type: self.file_type.clone(),
            source: self.source.clone(),
            created_at: self.created_at,
            modified_at: self.modified_at,
            size_bytes: self.size_bytes,
            is_valid: self.is_valid,
            inserted_at: self.inserted_at,
            updated_at: self.updated_at,
        }
    }
}

/// The images of a sequence of records.
pub open spec fn record_views(s: Seq<ScanResultItem>) -> Seq<RecordV> {
    s.map_values(|r: ScanResultItem| r@)
}

/// Two records carry the same (project, file path) key.
pub open spec fn same_key(a: RecordV, b: RecordV) -> bool {
    a.project_id == b.project_id && a.file_path == b.file_path
}

/// No two records of the sequence share a (project, file path) key.
pub open spec fn unique_keys(s: Seq<RecordV>) -> bool {
    forall|i: int, j: int| 0 <= i < j < s.len() ==> !same_key(s[i], s[j])
}

/// A record not of the given project.
pub open spec fn other_project(r: RecordV, pid: Seq<char>) -> bool {
    r.project_id != pid
}

/// What an upsert leaves behind: when the key is already present, its old
/// record is removed and the new one appended; otherwise the record is
/// appended.
pub open spec fn spec_upsert(s: Seq<RecordV>, r: RecordV) -> Seq<RecordV> {
    if exists|i: int| 0 <= i < s.len() && same_key(s[i], r) {
        let i = choose|i: int| 0 <= i < s.len() && same_key(s[i], r);
        s.remove(i).push(r)
    } else {
        s.push(r)
    }
}

/// The per-project catalog, keyed by (project, file path).
pub struct ResultStore {
    records: Vec<ScanResultItem>,
}

impl View for ResultStore {
    type V = Seq<RecordV>;

    closed spec fn view(&self) -> Seq<RecordV> {
        record_views(self.records@)
    }
}

impl ResultStore {
    /// The store's invariant: no two records share a key. In particular, for
    /// any project no two records share a file path.
    pub open spec fn wf(self) -> bool {
        unique_keys(self@)
    }

    /// An empty store.
    pub fn new() -> (s: ResultStore)
        ensures
            s@ == Seq::<RecordV>::empty(),
            s.wf(),
    {
        let s = ResultStore { records: Vec::new() };
        proof {
            assert(s@ =~= Seq::<RecordV>::empty());
        }
        s
    }

    /// How many records the store holds, over all projects.
    pub fn len(&self) -> (n: usize)
        ensures
            n == self@.len(),
    {
        self.records.len()
    }

    /// The record at a position.
    pub fn get(&self, i: usize) -> (r: &ScanResultItem)
        requires
            i < self@.len(),
        ensures
            r@ == self@[i as int],
    {
        &self.records[i]
    }

    /// The first position holding the given key, if any.
    fn find_key(&self, project_id: &str, file_path: &str) -> (r: Option<usize>)
        ensures
            match r {
                Some(i) => i < self@.len() && self@[i as int].project_id == project_id@
                    && self@[i as int].file_path == file_path@,
                None => forall|i: int|
                    0 <= i < self@.len() ==> !(self@[i].project_id == project_id@
                        && self@[i].file_path == file_path@),
            },
            r matches Some(i) ==> forall|j: int|
                0 <= j < i ==> !(self@[j].project_id == project_id@ && self@[j].file_path
                    == file_path@),
    {
        let mut i: usize = 0;
        while i < self.records.len()
            invariant
                i <= self@.len(),
                self@.len() == self.records@.len(),
                forall|j: int|
                    0 <= j < i ==> !(self@[j].project_id == project_id@ && self@[j].file_path
                        == file_path@),
            decreases self@.len() - i,
        {
            let r = &self.records[i];
            if crate::text::str_eq(r.project_id.as_str(), project_id) && crate::text::str_eq(
                r.file_path.as_str(),
                file_path,
            ) {
                return Some(i);
            }
            i += 1;
        }
        None
    }

    /// Delete every record of a project: the start of a full-replace rescan.
    pub fn replace_all(&mut self, project_id: &str)
        ensures
            final(self)@ == old(self)@.filter(|r: RecordV| other_project(r, project_id@)),
            old(self).wf() ==> final(self).wf(),
    {
        let ghost pred = |r: RecordV| other_project(r, project_id@);
        let mut kept: Vec<ScanResultItem> = Vec::new();
        let mut i: usize = 0;
        proof {
            assert(record_views(kept@) =~= record_views(self.records@.subrange(0, 0)).filter(pred));
        }
        while i < self.records.len()
            invariant
                i <= self.records@.len(),
                record_views(kept@) == record_views(self.records@.subrange(0, i as int)).filter(
                    pred,
                ),
                pred == (|r: RecordV| other_project(r, project_id@)),
            decreases self.records@.len() - i,
        {
            let ghost prefix = self.records@.subrange(0, i as int);
            let r = &self.records[i];
            if !crate::text::str_eq(r.project_id.as_str(), project_id) {
                kept.push(r.duplicate());
            }
            proof {
                lemma_record_filter_step(prefix, self.records@[i as int], pred);
                assert(self.records@.subrange(0, i + 1) =~= prefix.push(self.records@[i as int]));
                assert(record_views(prefix.push(self.records@[i as int])) =~= record_views(
                    prefix,
                ).push(self.records@[i as int]@));
                assert(record_views(kept@) =~= record_views(self.records@.subrange(0, i + 1)).filter(
                    pred,
                ));
            }
            i += 1;
        }
        proof {
            assert(self.records@.subrange(0, self.records@.len() as int) =~= self.records@);
        }
        let ghost old_views = self@;
        self.records = kept;
        proof {
            if unique_keys(old_views) {
                assert forall|a: int, b: int| 0 <= a < b < self@.len() implies !same_key(
                    self@[a],
                    self@[b],
                ) by {
                    lemma_filter_distinct_positions(old_views, pred, a, b);
                }
            }
        }
    }

    /// Insert the record, or replace the record sharing its key.
    pub fn upsert(&mut self, rec: ScanResultItem)
        requires
            old(self).wf(),
        ensures
            final(self).wf(),
            final(self)@ == spec_upsert(old(self)@, rec@),
    {
        let found = self.find_key(rec.project_id.as_str(), rec.file_path.as_str());
        match found {
            Some(i) => {
                let ghost s = self@;
                let ghost w = choose|k: int| 0 <= k < s.len() && same_key(s[k], rec@);
                proof {
                    // The found index is the key's only position.
                    if w != i {
                        if w < i {
                            assert(!same_key(s[w as int], s[i as int]));
                        } else {
                            assert(!same_key(s[i as int], s[w as int]));
                        }
                    }
                }
                self.records.remove(i);
                proof {
                    assert(record_views(self.records@) =~= s.remove(i as int));
                }
                self.records.push(rec);
                proof {
                    assert(self@ =~= s.remove(i as int).push(rec@));
                    lemma_unique_keys_remove(s, i as int);
                    let t = s.remove(i as int);
                    assert forall|k: int| 0 <= k < t.len() implies !same_key(t[k], rec@) by {
                        let o = if k < i {
                            k
                        } else {
                            k + 1
                        };
                        assert(t[k] == s[o]);
                        if o < i {
                            assert(!same_key(s[o], s[i as int]));
                        } else {
                            assert(!same_key(s[i as int], s[o]));
                        }
                    }
                    lemma_unique_keys_push(t, rec@);
                }
            },
            None => {
                let ghost s = self@;
                self.records.push(rec);
                proof {
                    assert(self@ =~= s.push(rec@));
                    lemma_unique_keys_push(s, rec@);
                }
            },
        }
    }
}

/// Appending one record extends the filtered images by that record's image
/// exactly when the predicate admits it.
proof fn lemma_record_filter_step(
    s: Seq<ScanResultItem>,
    r: ScanResultItem,
    pred: spec_fn(RecordV) -> bool,
)
    ensures
        pred(r@) ==> record_views(s.push(r)).filter(pred) == record_views(s).filter(pred).push(r@),
        !pred(r@) ==> record_views(s.push(r)).filter(pred) == record_views(s).filter(pred),
{
    reveal(Seq::filter);
    assert(record_views(s.push(r)) =~= record_views(s).push(r@));
    let v = record_views(s).push(r@);
    assert(v.drop_last() =~= record_views(s));
    assert(v.last() == r@);
}

/// Two distinct positions of a filtered sequence cannot both come from one
/// position of the original.
proof fn lemma_filter_distinct_positions(
    s: Seq<RecordV>,
    pred: spec_fn(RecordV) -> bool,
    a: int,
    b: int,
)
    requires
        0 <= a < b < s.filter(pred).len(),
        unique_keys(s),
    ensures
        !same_key(s.filter(pred)[a], s.filter(pred)[b]),
    decreases s.len(),
{
    reveal(Seq::filter);
    if s.len() > 0 {
        let f = s.filter(pred);
        let fp = s.drop_last().filter(pred);
        assert(unique_keys(s.drop_last())) by {
            assert(forall|i: int|
                0 <= i < s.len() - 1 ==> s.drop_last()[i] == s[i]);
        }
        if pred(s.last()) {
            if b < f.len() - 1 {
                assert(fp[a] == f[a] && fp[b] == f[b]);
                lemma_filter_distinct_positions(s.drop_last(), pred, a, b);
            } else {
                // f[b] is the last element of s; f[a] stands earlier in s.
                assert(f[b] == s.last());
                assert(fp[a] == f[a]);
                lemma_filter_element_from(s.drop_last(), pred, a);
                let j = choose|j: int|
                    0 <= j < s.drop_last().len() && s.drop_last()[j] == fp[a];
                assert(s[j] == fp[a]);
                assert(!same_key(s[j], s[s.len() - 1]));
            }
        } else {
            assert(f == fp);
            lemma_filter_distinct_positions(s.drop_last(), pred, a, b);
        }
    }
}

/// Every element of a filtered sequence stands somewhere in the original.
proof fn lemma_filter_element_from(s: Seq<RecordV>, pred: spec_fn(RecordV) -> bool, a: int)
    requires
        0 <= a < s.filter(pred).len(),
    ensures
        exists|j: int| 0 <= j < s.len() && s[j] == s.filter(pred)[a],
    decreases s.len(),
{
    reveal(Seq::filter);
    if s.len() > 0 {
        let f = s.filter(pred);
        let fp = s.drop_last().filter(pred);
        if pred(s.last()) && a == f.len() - 1 {
            assert(s[s.len() - 1] == f[a]);
        } else {
            lemma_filter_element_from(s.drop_last(), pred, a);
            let j = choose|j: int|
                0 <= j < s.drop_last().len() && s.drop_last()[j] == fp[a];
            assert(s[j] == f[a]);
        }
    }
}

/// Removing a position preserves key uniqueness.
pub(crate) proof fn lemma_unique_keys_remove(s: Seq<RecordV>, i: int)
    requires
        unique_keys(s),
        0 <= i < s.len(),
    ensures
        unique_keys(s.remove(i)),
{
    let t = s.remove(i);
    assert forall|a: int, b: int| 0 <= a < b < t.len() implies !same_key(t[a], t[b]) by {
        let oa = if a < i {
            a
        } else {
            a + 1
        };
        let ob = if b < i {
            b
        } else {
            b + 1
        };
        assert(t[a] == s[oa] && t[b] == s[ob]);
        assert(!same_key(s[oa], s[ob]));
    }
}

/// Appending a record whose key is absent preserves key uniqueness.
pub(crate) proof fn lemma_unique_keys_push(s: Seq<RecordV>, r: RecordV)
    requires
        unique_keys(s),
        forall|i: int| 0 <= i < s.len() ==> !same_key(s[i], r),
    ensures
        unique_keys(s.push(r)),
{
    let t = s.push(r);
    assert forall|a: int, b: int| 0 <= a < b < t.len() implies !same_key(t[a], t[b]) by {
        if b < s.len() {
            assert(t[a] == s[a] && t[b] == s[b]);
        } else {
            assert(t[a] == s[a] && t[b] == r);
        }
    }
}

} // verus!
