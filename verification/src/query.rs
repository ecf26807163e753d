//! The query layer over the result store: filtered, paginated retrieval of a
//! project's records, most recently updated first.

use vstd::prelude::*;
use crate::store::{record_views, RecordV, ResultStore, ScanResultItem};
use crate::text::{contains_seq, contains_sub, str_views};

verus! {

/// A whitespace character: the characters of Unicode's White_Space
/// property, the set `str::trim` removes.
pub open spec fn is_space(c: char) -> bool {
    ||| c == '\u{09}'
    ||| c == '\u{0A}'
    ||| c == '\u{0B}'
    ||| c == '\u{0C}'
    ||| c == '\u{0D}'
    ||| c == ' '
    ||| c == '\u{85}'
    ||| c == '\u{A0}'
    ||| c == '\u{1680}'
    ||| c == '\u{2000}'
    ||| c == '\u{2001}'
    ||| c == '\u{2002}'
    ||| c == '\u{2003}'
    ||| c == '\u{2004}'
    ||| c == '\u{2005}'
    ||| c == '\u{2006}'
    ||| c == '\u{2007}'
    ||| c == '\u{2008}'
    ||| c == '\u{2009}'
    ||| c == '\u{200A}'
    ||| c == '\u{2028}'
    ||| c == '\u{2029}'
    ||| c == '\u{202F}'
    ||| c == '\u{205F}'
    ||| c == '\u{3000}'
}

/// Test one character for whitespace.
fn is_space_char(c: char) -> (r: bool)
    ensures
        r == is_space(c),
{
    c == '\u{09}' || c == '\u{0A}' || c == '\u{0B}' || c == '\u{0C}' || c == '\u{0D}'
        || c == ' ' || c == '\u{85}' || c == '\u{A0}' || c == '\u{1680}' || c == '\u{2000}'
        || c == '\u{2001}' || c == '\u{2002}' || c == '\u{2003}' || c == '\u{2004}'
        || c == '\u{2005}' || c == '\u{2006}' || c == '\u{2007}' || c == '\u{2008}'
        || c == '\u{2009}' || c == '\u{200A}' || c == '\u{2028}' || c == '\u{2029}'
        || c == '\u{202F}' || c == '\u{205F}' || c == '\u{3000}'
}

/// The text holds nothing visible.
pub open spec fn is_blank(s: Seq<char>) -> bool {
    forall|i: int| 0 <= i < s.len() ==> is_space(s[i])
}

/// Test a text for blankness.
pub fn is_blank_str(s: &str) -> (r: bool)
    ensures
        r == is_blank(s@),
{
    let n = s.unicode_len();
    let mut i: usize = 0;
    while i < n
        invariant
            n == s@.len(),
            i <= n,
            forall|k: int| 0 <= k < i ==> is_space(s@[k]),
        decreases n - i,
    {
        if !is_space_char(s.get_char(i)) {
            return false;
        }
        i += 1;
    }
    true
}

/// The text filter that applies: none when the text is absent or blank.
pub open spec fn effective_text(q: Option<Seq<char>>) -> Option<Seq<char>> {
    match q {
        Some(s) => if is_blank(s) {
            None
        } else {
            Some(s)
        },
        None => None,
    }
}

/// The type filter that applies: none when the list is absent or empty.
pub open spec fn effective_types(ts: Option<Seq<Seq<char>>>) -> Option<Seq<Seq<char>>> {
    match ts {
        Some(v) => if v.len() == 0 {
            None
        } else {
            Some(v)
        },
        None => None,
    }
}

/// A record matches a query: it belongs to the project; under a text filter
/// the text occurs in the file path, every character taken literally; under
/// a type filter the file type is among the chosen ones.
pub open spec fn spec_matches(
    r: RecordV,
    pid: Seq<char>,
    text: Option<Seq<char>>,
    types: Option<Seq<Seq<char>>>,
) -> bool {
    &&& r.project_id == pid
    &&& match text {
        Some(t) => contains_seq(r.file_path, t),
        None => true,
    }
    &&& match types {
        Some(ts) => ts.contains(r.file_type),
        None => true,
    }
}

/// Insert a record into a sequence ordered by `updated_at` descending,
/// after every record at least as recent.
pub open spec fn insert_desc(x: RecordV, s: Seq<RecordV>) -> Seq<RecordV>
    decreases s.len(),
{
    if s.len() > 0 && s[0].updated_at >= x.updated_at {
        seq![s[0]] + insert_desc(x, s.drop_first())
    } else {
        seq![x] + s
    }
}

/// The records ordered by `updated_at` descending; records of equal stamp
/// keep their relative order.
pub open spec fn sort_desc(s: Seq<RecordV>) -> Seq<RecordV>
    decreases s.len(),
{
    if s.len() == 0 {
        Seq::empty()
    } else {
        insert_desc(s.last(), sort_desc(s.drop_last()))
    }
}

/// Ordered by `updated_at`, newest first.
pub open spec fn sorted_desc(s: Seq<RecordV>) -> bool {
    forall|i: int, j: int| 0 <= i < j < s.len() ==> s[i].updated_at >= s[j].updated_at
}

/// Inserting adds one record and keeps the others.
pub proof fn lemma_insert_desc_multiset(x: RecordV, s: Seq<RecordV>)
    ensures
        insert_desc(x, s).len() == s.len() + 1,
        insert_desc(x, s).to_multiset() == s.to_multiset().insert(x),
    decreases s.len(),
{
    broadcast use vstd::seq_lib::group_to_multiset_ensures;

    if s.len() > 0 && s[0].updated_at >= x.updated_at {
        lemma_insert_desc_multiset(x, s.drop_first());
        assert(seq![s[0]] + insert_desc(x, s.drop_first()) =~= (insert_desc(
            x,
            s.drop_first(),
        )).insert(0, s[0]));
        assert(seq![s[0]] + s.drop_first() =~= s.drop_first().insert(0, s[0]));
        assert(s.drop_first().insert(0, s[0]) =~= s);
        assert((insert_desc(x, s.drop_first())).insert(0, s[0]).to_multiset() == insert_desc(
            x,
            s.drop_first(),
        ).to_multiset().insert(s[0]));
        assert(s.to_multiset() == s.drop_first().to_multiset().insert(s[0]));
        assert(insert_desc(x, s).to_multiset() =~= s.to_multiset().insert(x));
    } else {
        assert(seq![x] + s =~= s.insert(0, x));
        assert(insert_desc(x, s).to_multiset() =~= s.to_multiset().insert(x));
    }
}

/// Inserting into an ordered sequence keeps it ordered.
pub proof fn lemma_insert_desc_sorted(x: RecordV, s: Seq<RecordV>)
    requires
        sorted_desc(s),
    ensures
        sorted_desc(insert_desc(x, s)),
    decreases s.len(),
{
    if s.len() > 0 && s[0].updated_at >= x.updated_at {
        assert(sorted_desc(s.drop_first()));
        lemma_insert_desc_sorted(x, s.drop_first());
        let t = insert_desc(x, s);
        let u = insert_desc(x, s.drop_first());
        lemma_insert_desc_multiset(x, s.drop_first());
        // Every record of the tail is either x or one of the tail's records,
        // so the head is at least as recent as all of them.
        assert forall|j: int| 1 <= j < t.len() implies t[0].updated_at >= #[trigger] t[j].updated_at by {
            assert(t[j] == u[j - 1]);
            lemma_insert_desc_element(x, s.drop_first(), j - 1);
        }
        assert forall|i: int, j: int| 0 <= i < j < t.len() implies t[i].updated_at
            >= t[j].updated_at by {
            if i > 0 {
                assert(t[i] == u[i - 1] && t[j] == u[j - 1]);
            }
        }
    }
}

/// Every record of `insert_desc(x, s)` is `x` or a record of `s`.
pub proof fn lemma_insert_desc_element(x: RecordV, s: Seq<RecordV>, j: int)
    requires
        0 <= j < insert_desc(x, s).len(),
    ensures
        insert_desc(x, s)[j] == x || exists|k: int| 0 <= k < s.len() && insert_desc(x, s)[j]
            == s[k],
    decreases s.len(),
{
    if s.len() > 0 && s[0].updated_at >= x.updated_at {
        if j > 0 {
            lemma_insert_desc_element(x, s.drop_first(), j - 1);
            if insert_desc(x, s)[j] != x {
                let k = choose|k: int|
                    0 <= k < s.drop_first().len() && insert_desc(x, s.drop_first())[j - 1]
                        == s.drop_first()[k];
                assert(insert_desc(x, s)[j] == s[k + 1]);
            }
        } else {
            assert(insert_desc(x, s)[0] == s[0]);
        }
    }
}

/// The sort orders the records and permutes them.
pub proof fn lemma_sort_desc_permutes(s: Seq<RecordV>)
    ensures
        sort_desc(s).len() == s.len(),
        sort_desc(s).to_multiset() == s.to_multiset(),
        sorted_desc(sort_desc(s)),
    decreases s.len(),
{
    broadcast use vstd::seq_lib::group_to_multiset_ensures;

    if s.len() > 0 {
        lemma_sort_desc_permutes(s.drop_last());
        lemma_insert_desc_multiset(s.last(), sort_desc(s.drop_last()));
        lemma_insert_desc_sorted(s.last(), sort_desc(s.drop_last()));
        assert(s.drop_last().push(s.last()) =~= s);
        assert(s.drop_last().push(s.last()).to_multiset() == s.drop_last().to_multiset().insert(
            s.last(),
        ));
    }
}

/// Where `insert_desc` puts the record: at the first position whose stamp is
/// older, the sequence around it unchanged.
pub proof fn lemma_insert_desc_at(x: RecordV, s: Seq<RecordV>, j: int)
    requires
        0 <= j <= s.len(),
        forall|k: int| 0 <= k < j ==> s[k].updated_at >= x.updated_at,
        j < s.len() ==> s[j].updated_at < x.updated_at,
    ensures
        insert_desc(x, s) == s.subrange(0, j) + seq![x] + s.subrange(j, s.len() as int),
    decreases s.len(),
{
    if s.len() > 0 && s[0].updated_at >= x.updated_at {
        let t = s.drop_first();
        lemma_insert_desc_at(x, t, j - 1);
        assert(t.subrange(0, j - 1) =~= s.subrange(1, j));
        assert(t.subrange(j - 1, t.len() as int) =~= s.subrange(j, s.len() as int));
        assert(seq![s[0]] + (s.subrange(1, j) + seq![x] + s.subrange(j, s.len() as int)) =~= s
            .subrange(0, j) + seq![x] + s.subrange(j, s.len() as int));
    } else {
        assert(s.subrange(0, 0) =~= Seq::<RecordV>::empty());
        assert(s.subrange(0, s.len() as int) =~= s);
        assert(seq![x] + s =~= s.subrange(0, 0) + seq![x] + s.subrange(0, s.len() as int));
    }
}

/// Sort records by `updated_at`, newest first, records of equal stamp
/// keeping their relative order.
pub fn sort_by_updated(v: Vec<ScanResultItem>) -> (r: Vec<ScanResultItem>)
    ensures
        record_views(r@) == sort_desc(record_views(v@)),
{
    let mut out: Vec<ScanResultItem> = Vec::new();
    let mut i: usize = 0;
    proof {
        assert(record_views(out@) =~= sort_desc(record_views(v@.subrange(0, 0))));
    }
    while i < v.len()
        invariant
            i <= v@.len(),
            record_views(out@) == sort_desc(record_views(v@.subrange(0, i as int))),
            out@.len() == i,
        decreases v@.len() - i,
    {
        let x = v[i].duplicate();
        let stamp = x.updated_at;
        let mut j: usize = 0;
        while j < out.len() && out[j].updated_at >= stamp
            invariant
                j <= out@.len(),
                stamp == x.updated_at,
                forall|k: int| 0 <= k < j ==> record_views(out@)[k].updated_at >= x@.updated_at,
            decreases out@.len() - j,
        {
            j += 1;
        }
        let ghost sorted_prefix = record_views(out@);
        proof {
            if j < out@.len() {
                assert(record_views(out@)[j as int].updated_at < x@.updated_at);
            }
            lemma_insert_desc_at(x@, sorted_prefix, j as int);
        }
        out.insert(j, x);
        proof {
            let pre = record_views(v@.subrange(0, i as int));
            let nxt = record_views(v@.subrange(0, i + 1));
            assert(v@.subrange(0, i + 1).drop_last() =~= v@.subrange(0, i as int));
            assert(nxt.drop_last() =~= pre);
            assert(nxt.len() == pre.len() + 1);
            assert(nxt.last() == x@);
            assert(sort_desc(nxt) == insert_desc(x@, sort_desc(pre)));
            assert(record_views(out@) =~= sorted_prefix.subrange(0, j as int) + seq![x@]
                + sorted_prefix.subrange(j as int, sorted_prefix.len() as int));
        }
        i += 1;
    }
    proof {
        assert(v@.subrange(0, v@.len() as int) =~= v@);
    }
    out
}

/// How many pages the matches fill: the ceiling of total over page size —
/// zero pages when nothing matches — and one page holding everything when
/// the page size is zero.
pub open spec fn spec_total_pages(total: int, page_size: int) -> int {
    if page_size == 0 {
        1
    } else if total == 0 {
        0
    } else {
        (total - 1) / page_size + 1
    }
}

/// Compute the page count.
pub fn total_pages_of(total: usize, page_size: usize) -> (r: usize)
    ensures
        r == spec_total_pages(total as int, page_size as int),
{
    if page_size == 0 {
        1
    } else if total == 0 {
        0
    } else {
        let q = (total - 1) / page_size;
        proof {
            vstd::arithmetic::div_mod::lemma_div_nonincreasing(
                total as int - 1,
                page_size as int,
            );
        }
        q + 1
    }
}

/// The slice of the ordered matches one page shows: records
/// `(page-1)*page_size` up to `page*page_size`, clipped to the end; a page
/// size of zero means a single page holding every match.
pub open spec fn page_slice(s: Seq<RecordV>, page: int, page_size: int) -> Seq<RecordV>
    recommends
        page >= 1,
        page_size >= 0,
{
    if page_size == 0 {
        s
    } else {
        let lo = if (page - 1) * page_size <= s.len() {
            (page - 1) * page_size
        } else {
            s.len() as int
        };
        let hi = if lo + page_size <= s.len() {
            lo + page_size
        } else {
            s.len() as int
        };
        s.subrange(lo, hi)
    }
}

/// The ordered matches of a query: the records of the project that pass the
/// filters, newest `updated_at` first.
pub open spec fn ordered_matches(
    s: Seq<RecordV>,
    pid: Seq<char>,
    text: Option<Seq<char>>,
    types: Option<Seq<Seq<char>>>,
) -> Seq<RecordV> {
    sort_desc(s.filter(|r: RecordV| spec_matches(r, pid, text, types)))
}

/// One page of query results, with the query's totals.
pub struct QueryPage {
    pub items: Vec<ScanResultItem>,
    pub total: usize,
    pub page: usize,
    pub total_pages: usize,
}

/// Appending one record extends a filtered record sequence by it exactly
/// when the predicate admits it.
proof fn lemma_rv_filter_step(s: Seq<RecordV>, x: RecordV, pred: spec_fn(RecordV) -> bool)
    ensures
        pred(x) ==> s.push(x).filter(pred) == s.filter(pred).push(x),
        !pred(x) ==> s.push(x).filter(pred) == s.filter(pred),
{
    reveal(Seq::filter);
    assert(s.push(x).drop_last() =~= s);
}

/// Query a project's records: optional literal-text search over file paths,
/// optional file-type restriction, ordered newest first, paginated. A page
/// of zero is coerced to one; a blank text or an empty type list restricts
/// nothing.
pub fn query_advanced(
    store: &ResultStore,
    project_id: &str,
    page: usize,
    page_size: usize,
    text: Option<&String>,
    file_types: Option<&Vec<String>>,
) -> (r: QueryPage)
    ensures
        ({
            let et = effective_text(
                match text {
                    Some(t) => Some(t@),
                    None => None,
                },
            );
            let ety = effective_types(
                match file_types {
                    Some(v) => Some(str_views(v@)),
                    None => None,
                },
            );
            let m = ordered_matches(store@, project_id@, et, ety);
            &&& r.total == m.len()
            &&& r.page == if page == 0 {
                1
            } else {
                page as int
            }
            &&& r.total_pages == spec_total_pages(m.len() as int, page_size as int)
            &&& record_views(r.items@) == page_slice(m, r.page as int, page_size as int)
        }),
{
    let ghost et = effective_text(
        match text {
            Some(t) => Some(t@),
            None => None,
        },
    );
    let ghost ety = effective_types(
        match file_types {
            Some(v) => Some(str_views(v@)),
            None => None,
        },
    );
    let ghost pred = |r: RecordV| spec_matches(r, project_id@, et, ety);

    let text_active: bool = match text {
        Some(t) => !is_blank_str(t.as_str()),
        None => false,
    };
    let types_active: bool = match file_types {
        Some(v) => v.len() > 0,
        None => false,
    };

    let mut matches: Vec<ScanResultItem> = Vec::new();
    let mut i: usize = 0;
    proof {
        assert(record_views(matches@) =~= store@.subrange(0, 0).filter(pred));
    }
    while i < store.len()
        invariant
            i <= store@.len(),
            record_views(matches@) == store@.subrange(0, i as int).filter(pred),
            pred == (|r: RecordV| spec_matches(r, project_id@, et, ety)),
            et == effective_text(
                match text {
                    Some(t) => Some(t@),
                    None => None,
                },
            ),
            ety == effective_types(
                match file_types {
                    Some(v) => Some(str_views(v@)),
                    None => None,
                },
            ),
            text_active == (et is Some),
            types_active == (ety is Some),
        decreases store@.len() - i,
    {
        let rec = store.get(i);
        let mut ok = crate::text::str_eq(rec.project_id.as_str(), project_id);
        if ok && text_active {
            ok = match text {
                Some(t) => contains_sub(rec.file_path.as_str(), t.as_str()),
                None => false,
            };
        }
        if ok && types_active {
            ok = match file_types {
                Some(v) => crate::roots::vec_contains_str(v, rec.file_type.as_str()),
                None => false,
            };
        }
        if ok {
            matches.push(rec.duplicate());
        }
        proof {
            assert(ok == pred(store@[i as int]));
            lemma_rv_filter_step(store@.subrange(0, i as int), store@[i as int], pred);
            assert(store@.subrange(0, i + 1) =~= store@.subrange(0, i as int).push(
                store@[i as int],
            ));
            if ok {
                assert(record_views(matches@) =~= store@.subrange(0, i as int).filter(pred).push(
                    store@[i as int],
                ));
            }
        }
        i += 1;
    }
    proof {
        assert(store@.subrange(0, store@.len() as int) =~= store@);
    }

    let sorted = sort_by_updated(matches);
    let ghost m = ordered_matches(store@, project_id@, et, ety);
    proof {
        assert(record_views(sorted@) == m);
        assert(record_views(sorted@).len() == sorted@.len());
    }
    let total = sorted.len();
    let page_eff: usize = if page == 0 {
        1
    } else {
        page
    };
    let total_pages = total_pages_of(total, page_size);

    let (lo, hi): (usize, usize) = if page_size == 0 {
        (0, total)
    } else {
        proof {
            vstd::arithmetic::mul::lemma_mul_upper_bound(
                (page_eff - 1) as int,
                u64::MAX as int,
                page_size as int,
                u64::MAX as int,
            );
        }
        let lo128: u128 = (page_eff - 1) as u128 * page_size as u128;
        let lo: usize = if lo128 <= total as u128 {
            lo128 as usize
        } else {
            total
        };
        let hi128: u128 = lo as u128 + page_size as u128;
        let hi: usize = if hi128 <= total as u128 {
            hi128 as usize
        } else {
            total
        };
        (lo, hi)
    };
    proof {
        assert(m.subrange(lo as int, hi as int) == page_slice(m, page_eff as int, page_size as int));
    }

    let mut items: Vec<ScanResultItem> = Vec::new();
    let mut k: usize = lo;
    proof {
        assert(record_views(items@) =~= m.subrange(lo as int, lo as int));
    }
    while k < hi
        invariant
            lo <= k <= hi,
            hi <= sorted@.len(),
            record_views(sorted@) == m,
            record_views(items@) == m.subrange(lo as int, k as int),
        decreases hi - k,
    {
        items.push(sorted[k].duplicate());
        proof {
            assert(record_views(sorted@)[k as int] == sorted@[k as int]@);
            assert(m.subrange(lo as int, k + 1) =~= m.subrange(lo as int, k as int).push(
                m[k as int],
            ));
            assert(record_views(items@) =~= m.subrange(lo as int, k as int).push(m[k as int]));
        }
        k += 1;
    }

    QueryPage { items, total, page: page_eff, total_pages }
}

/// Query a project's records with no filters: every record of the project,
/// newest first, paginated.
pub fn query_paginated(store: &ResultStore, project_id: &str, page: usize, page_size: usize) -> (r:
    QueryPage)
    ensures
        ({
            let m = ordered_matches(store@, project_id@, None, None);
            &&& r.total == m.len()
            &&& r.page == if page == 0 {
                1
            } else {
                page as int
            }
            &&& r.total_pages == spec_total_pages(m.len() as int, page_size as int)
            &&& record_views(r.items@) == page_slice(m, r.page as int, page_size as int)
        }),
{
    query_advanced(store, project_id, page, page_size, None, None)
}

/// The first `n` pages of the ordered matches, concatenated.
pub open spec fn pages_concat(s: Seq<RecordV>, page_size: int, n: int) -> Seq<RecordV>
    decreases n,
{
    if n <= 0 {
        Seq::empty()
    } else {
        pages_concat(s, page_size, n - 1) + page_slice(s, n, page_size)
    }
}

/// The first `n` pages make up exactly the first `n * page_size` records.
proof fn lemma_pages_prefix(s: Seq<RecordV>, page_size: int, n: int)
    requires
        page_size >= 1,
        n >= 0,
    ensures
        pages_concat(s, page_size, n) == s.subrange(
            0,
            if n * page_size <= s.len() {
                n * page_size
            } else {
                s.len() as int
            },
        ),
    decreases n,
{
    if n == 0 {
        assert(n * page_size == 0) by (nonlinear_arith)
            requires
                n == 0,
        ;
        assert(pages_concat(s, page_size, 0) =~= s.subrange(0, 0));
    } else {
        lemma_pages_prefix(s, page_size, n - 1);
        assert((n - 1) * page_size == n * page_size - page_size) by (nonlinear_arith);
        assert((n - 1) * page_size <= n * page_size) by (nonlinear_arith)
            requires
                page_size >= 1,
                n >= 1,
        ;
        let len = s.len() as int;
        let lo = if (n - 1) * page_size <= len {
            (n - 1) * page_size
        } else {
            len
        };
        let hi = if lo + page_size <= len {
            lo + page_size
        } else {
            len
        };
        assert(page_slice(s, n, page_size) == s.subrange(lo, hi));
        let cut = if n * page_size <= len {
            n * page_size
        } else {
            len
        };
        assert(hi == cut);
        assert(s.subrange(0, lo) + s.subrange(lo, hi) =~= s.subrange(0, hi));
    }
}

/// Pagination is correct: for a page size of at least one, the page count is
/// the ceiling of the match count over the page size, and the pages, taken
/// in order, reproduce the whole ordered result set — nothing duplicated,
/// nothing dropped.
pub proof fn lemma_pagination_correct(s: Seq<RecordV>, page_size: int)
    requires
        page_size >= 1,
    ensures
        spec_total_pages(s.len() as int, page_size) == (s.len() + page_size - 1) / page_size,
        pages_concat(s, page_size, spec_total_pages(s.len() as int, page_size)) == s,
{
    let len = s.len() as int;
    let tp = spec_total_pages(len, page_size);
    if len > 0 {
        assert(tp == (len - 1) / page_size + 1);
        vstd::arithmetic::div_mod::lemma_div_plus_one(len - 1, page_size);
        assert((len - 1) / page_size + 1 == (page_size + (len - 1)) / page_size);
        assert(page_size + (len - 1) == len + page_size - 1);
    } else {
        vstd::arithmetic::div_mod::lemma_basic_div(page_size - 1, page_size);
        assert((len + page_size - 1) / page_size == 0);
    }
    // The page count covers every record: tp * page_size >= len.
    assert(tp * page_size >= len) by {
        if len == 0 {
            assert(tp == 0);
            assert(0 * page_size >= 0) by (nonlinear_arith);
        } else {
            let q = (len - 1) / page_size;
            let rem = (len - 1) % page_size;
            vstd::arithmetic::div_mod::lemma_fundamental_div_mod(len - 1, page_size);
            vstd::arithmetic::div_mod::lemma_mod_bound(len - 1, page_size);
            assert(len - 1 == page_size * q + rem);
            assert((q + 1) * page_size >= page_size * q + rem + 1) by (nonlinear_arith)
                requires
                    page_size >= 1,
                    0 <= rem < page_size,
            ;
        }
    }
    lemma_pages_prefix(s, page_size, tp);
    assert(pages_concat(s, page_size, tp) == s.subrange(0, len));
    assert(s.subrange(0, len) =~= s);
}

} // verus!
