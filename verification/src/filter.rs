//! The traversal filter: which file entries of a walked root are candidates
//! for the catalog. An entry qualifies when it is not a directory, no ignore
//! token occurs in its path, its extension is on the document allow-list and
//! its modification age passes the active time-range filter.

use vstd::prelude::*;
use crate::text::{contains_seq, contains_sub, eq_lowered, ext_of, lower_seq, str_eq};

verus! {

/// A time-range filter applied to a file's modification age.
#[derive(Clone, Copy, Debug, PartialEq, Eq, Structural)]
pub enum TimeRange {
    PastWeek,
    PastMonth,
    PastYear,
    Unbounded,
}

/// The time range a textual label denotes; unrecognized labels mean
/// "no filtering".
pub open spec fn spec_time_range(label: Seq<char>) -> TimeRange {
    if label == "past_week"@ {
        TimeRange::PastWeek
    } else if label == "past_month"@ {
        TimeRange::PastMonth
    } else if label == "past_year"@ {
        TimeRange::PastYear
    } else {
        TimeRange::Unbounded
    }
}

/// Parse a time-range label.
pub fn time_range_of(label: &str) -> (r: TimeRange)
    ensures
        r == spec_time_range(label@),
{
    if str_eq(label, "past_week") {
        TimeRange::PastWeek
    } else if str_eq(label, "past_month") {
        TimeRange::PastMonth
    } else if str_eq(label, "past_year") {
        TimeRange::PastYear
    } else {
        TimeRange::Unbounded
    }
}

/// Whether a file whose age is `age_secs` seconds passes the filter:
/// at most 7, 30 or 365 days old, to the second.
pub open spec fn age_passes(age_secs: u64, range: TimeRange) -> bool {
    match range {
        TimeRange::PastWeek => age_secs <= 604800,
        TimeRange::PastMonth => age_secs <= 2592000,
        TimeRange::PastYear => age_secs <= 31536000,
        TimeRange::Unbounded => true,
    }
}

/// The time filter over a modification stamp, fail-open: an entry with no
/// readable stamp passes, and one stamped in the future counts as age zero.
pub open spec fn passes_time(modified: Option<u64>, now: u64, range: TimeRange) -> bool {
    match modified {
        Some(m) => age_passes(if m <= now {
            (now - m) as u64
        } else {
            0u64
        }, range),
        None => true,
    }
}

/// Test a modification stamp against the time filter.
pub fn within_time(modified: Option<u64>, now: u64, range: TimeRange) -> (r: bool)
    ensures
        r == passes_time(modified, now, range),
{
    match modified {
        Some(m) => {
            let age: u64 = if m <= now {
                now - m
            } else {
                0
            };
            match range {
                TimeRange::PastWeek => age <= 604800,
                TimeRange::PastMonth => age <= 2592000,
                TimeRange::PastYear => age <= 31536000,
                TimeRange::Unbounded => true,
            }
        },
        None => true,
    }
}

/// An ignore token occurs somewhere in the path.
pub open spec fn ignored_path(p: Seq<char>) -> bool {
    ||| contains_seq(p, "node_modules"@)
    ||| contains_seq(p, "target"@)
    ||| contains_seq(p, ".git"@)
    ||| contains_seq(p, "Library/Caches"@)
    ||| contains_seq(p, "AppData/Local"@)
    ||| contains_seq(p, "AppData/LocalLow"@)
    ||| contains_seq(p, "AppData/Temp"@)
    ||| contains_seq(p, ".DS_Store"@)
}

/// Test a path against the ignore tokens.
pub fn is_ignored_path(p: &str) -> (r: bool)
    ensures
        r == ignored_path(p@),
{
    contains_sub(p, "node_modules") || contains_sub(p, "target") || contains_sub(p, ".git")
        || contains_sub(p, "Library/Caches") || contains_sub(p, "AppData/Local") || contains_sub(
        p,
        "AppData/LocalLow",
    ) || contains_sub(p, "AppData/Temp") || contains_sub(p, ".DS_Store")
}

/// The document type of a path: the ASCII-lowercased extension when that is
/// on the allow-list, and nothing otherwise.
pub open spec fn doc_type(p: Seq<char>) -> Option<Seq<char>> {
    match ext_of(p) {
        Some(e) => if is_doc_ext(e) {
            Some(lower_seq(e))
        } else {
            None
        },
        None => None,
    }
}

/// The path's extension, lowercased, is on the document allow-list.
pub open spec fn doc_path(p: Seq<char>) -> bool {
    match ext_of(p) {
        Some(e) => is_doc_ext(e),
        None => false,
    }
}

/// The fixed document allow-list: text and markup, office suites, documents
/// and structured data, raster images, and vector or design formats.
pub open spec fn is_doc_ext(e: Seq<char>) -> bool {
    let l = lower_seq(e);
    ||| l == "txt"@
    ||| l == "md"@
    ||| l == "markdown"@
    ||| l == "log"@
    ||| l == "rst"@
    ||| l == "doc"@
    ||| l == "docx"@
    ||| l == "dotx"@
    ||| l == "rtf"@
    ||| l == "xls"@
    ||| l == "xlsx"@
    ||| l == "xlsm"@
    ||| l == "csv"@
    ||| l == "tsv"@
    ||| l == "ods"@
    ||| l == "numbers"@
    ||| l == "ppt"@
    ||| l == "pptx"@
    ||| l == "odp"@
    ||| l == "key"@
    ||| l == "pdf"@
    ||| l == "json"@
    ||| l == "yaml"@
    ||| l == "yml"@
    ||| l == "xml"@
    ||| l == "sql"@
    ||| l == "png"@
    ||| l == "jpg"@
    ||| l == "jpeg"@
    ||| l == "gif"@
    ||| l == "webp"@
    ||| l == "bmp"@
    ||| l == "tif"@
    ||| l == "tiff"@
    ||| l == "heic"@
    ||| l == "svg"@
    ||| l == "ai"@
    ||| l == "psd"@
}

/// Compute the document type of a path, as `doc_type` describes.
pub fn doc_type_of(path: &str) -> (r: Option<String>)
    ensures
        match r {
            Some(t) => doc_type(path@) == Some(t@),
            None => doc_type(path@) is None,
        },
        r is Some == doc_path(path@),
{
    match crate::text::extension_of(path) {
        Some(e) => doc_ext_token(e.as_str()),
        None => None,
    }
}

/// Match an extension against the allow-list; on a match, hand back the
/// canonical lowercase token, which equals the extension's own lowercasing.
pub fn doc_ext_token(e: &str) -> (r: Option<String>)
    ensures
        match r {
            Some(t) => is_doc_ext(e@) && t@ == lower_seq(e@),
            None => !is_doc_ext(e@),
        },
{
    if eq_lowered(e, "txt") {
        return Some("txt".to_owned());
    }
    if eq_lowered(e, "md") {
        return Some("md".to_owned());
    }
    if eq_lowered(e, "markdown") {
        return Some("markdown".to_owned());
    }
    if eq_lowered(e, "log") {
        return Some("log".to_owned());
    }
    if eq_lowered(e, "rst") {
        return Some("rst".to_owned());
    }
    if eq_lowered(e, "doc") {
        return Some("doc".to_owned());
    }
    if eq_lowered(e, "docx") {
        return Some("docx".to_owned());
    }
    if eq_lowered(e, "dotx") {
        return Some("dotx".to_owned());
    }
    if eq_lowered(e, "rtf") {
        return Some("rtf".to_owned());
    }
    if eq_lowered(e, "xls") {
        return Some("xls".to_owned());
    }
    if eq_lowered(e, "xlsx") {
        return Some("xlsx".to_owned());
    }
    if eq_lowered(e, "xlsm") {
        return Some("xlsm".to_owned());
    }
    if eq_lowered(e, "csv") {
        return Some("csv".to_owned());
    }
    if eq_lowered(e, "tsv") {
        return Some("tsv".to_owned());
    }
    if eq_lowered(e, "ods") {
        return Some("ods".to_owned());
    }
    if eq_lowered(e, "numbers") {
        return Some("numbers".to_owned());
    }
    if eq_lowered(e, "ppt") {
        return Some("ppt".to_owned());
    }
    if eq_lowered(e, "pptx") {
        return Some("pptx".to_owned());
    }
    if eq_lowered(e, "odp") {
        return Some("odp".to_owned());
    }
    if eq_lowered(e, "key") {
        return Some("key".to_owned());
    }
    if eq_lowered(e, "pdf") {
        return Some("pdf".to_owned());
    }
    if eq_lowered(e, "json") {
        return Some("json".to_owned());
    }
    if eq_lowered(e, "yaml") {
        return Some("yaml".to_owned());
    }
    if eq_lowered(e, "yml") {
        return Some("yml".to_owned());
    }
    if eq_lowered(e, "xml") {
        return Some("xml".to_owned());
    }
    if eq_lowered(e, "sql") {
        return Some("sql".to_owned());
    }
    if eq_lowered(e, "png") {
        return Some("png".to_owned());
    }
    if eq_lowered(e, "jpg") {
        return Some("jpg".to_owned());
    }
    if eq_lowered(e, "jpeg") {
        return Some("jpeg".to_owned());
    }
    if eq_lowered(e, "gif") {
        return Some("gif".to_owned());
    }
    if eq_lowered(e, "webp") {
        return Some("webp".to_owned());
    }
    if eq_lowered(e, "bmp") {
        return Some("bmp".to_owned());
    }
    if eq_lowered(e, "tif") {
        return Some("tif".to_owned());
    }
    if eq_lowered(e, "tiff") {
        return Some("tiff".to_owned());
    }
    if eq_lowered(e, "heic") {
        return Some("heic".to_owned());
    }
    if eq_lowered(e, "svg") {
        return Some("svg".to_owned());
    }
    if eq_lowered(e, "ai") {
        return Some("ai".to_owned());
    }
    if eq_lowered(e, "psd") {
        return Some("psd".to_owned());
    }
    None
}


/// A file-system entry as the walker reports it: its path, whether it is a
/// directory, its size, and its modification and creation stamps in seconds
/// since the epoch — absent when the metadata could not be read.
pub struct FsEntry {
    pub path: String,
    pub is_dir: bool,
    pub size: u64,
    pub modified: Option<u64>,
    pub created: Option<u64>,
}

/// The mathematical image of an `FsEntry`.
pub ghost struct FsEntryV {
    pub path: Seq<char>,
    pub is_dir: bool,
    pub size: u64,
    pub modified: Option<u64>,
    pub created: Option<u64>,
}

impl View for FsEntry {
    type V = FsEntryV;

    open spec fn view(&self) -> FsEntryV {
        FsEntryV {
            path: self.path@,
            is_dir: self.is_dir,
            size: self.size,
            modified: self.modified,
            created: self.created,
        }
    }
}

impl FsEntry {
    /// An owned copy with the same image.
    pub fn duplicate(&self) -> (r: FsEntry)
        ensures
            r@ == self@,
    {
        FsEntry {
            path: self.path.clone(),
            is_dir: self.is_dir,
            size: self.size,
            modified: self.modified,
            created: self.created,
        }
    }
}

/// The images of a sequence of entries.
pub open spec fn entry_views(s: Seq<FsEntry>) -> Seq<FsEntryV> {
    s.map_values(|e: FsEntry| e@)
}

/// A candidate for the catalog: a non-directory entry whose path holds no
/// ignore token, whose extension is on the document allow-list, and whose
/// modification age passes the time filter.
pub open spec fn is_candidate(e: FsEntryV, range: TimeRange, now: u64) -> bool {
    &&& !e.is_dir
    &&& !ignored_path(e.path)
    &&& doc_path(e.path)
    &&& passes_time(e.modified, now, range)
}

/// Test one entry.
pub fn entry_is_candidate(e: &FsEntry, range: TimeRange, now: u64) -> (r: bool)
    ensures
        r == is_candidate(e@, range, now),
{
    if e.is_dir {
        return false;
    }
    if is_ignored_path(e.path.as_str()) {
        return false;
    }
    if doc_type_of(e.path.as_str()).is_none() {
        return false;
    }
    within_time(e.modified, now, range)
}

/// The candidate set under a root: exactly the entries, in walk order, that
/// `is_candidate` admits.
pub fn filter_candidates(entries: &Vec<FsEntry>, range: TimeRange, now: u64) -> (r: Vec<FsEntry>)
    ensures
        entry_views(r@) == entry_views(entries@).filter(
            |e: FsEntryV| is_candidate(e, range, now),
        ),
{
    let ghost pred = |e: FsEntryV| is_candidate(e, range, now);
    let mut out: Vec<FsEntry> = Vec::new();
    let mut i: usize = 0;
    while i < entries.len()
        invariant
            i <= entries@.len(),
            entry_views(out@) == entry_views(entries@.subrange(0, i as int)).filter(pred),
            pred == (|e: FsEntryV| is_candidate(e, range, now)),
        decreases entries@.len() - i,
    {
        let ghost prefix = entries@.subrange(0, i as int);
        let e = &entries[i];
        if entry_is_candidate(e, range, now) {
            out.push(e.duplicate());
        }
        proof {
            lemma_filter_step(prefix, entries@[i as int], pred);
            assert(entries@.subrange(0, i + 1) =~= prefix.push(entries@[i as int]));
            assert(entry_views(prefix.push(entries@[i as int])) =~= entry_views(prefix).push(
                entries@[i as int]@,
            ));
            if pred(entries@[i as int]@) {
                assert(entry_views(out@) =~= entry_views(entries@.subrange(0, i + 1)).filter(pred));
            } else {
                assert(entry_views(out@) =~= entry_views(entries@.subrange(0, i + 1)).filter(pred));
            }
        }
        i += 1;
    }
    proof {
        assert(entries@.subrange(0, entries@.len() as int) =~= entries@);
    }
    out
}

/// Appending one entry extends the filtered images by that entry's image
/// exactly when it is a candidate.
proof fn lemma_filter_step(s: Seq<FsEntry>, e: FsEntry, pred: spec_fn(FsEntryV) -> bool)
    ensures
        pred(e@) ==> entry_views(s.push(e)).filter(pred) == entry_views(s).filter(pred).push(e@),
        !pred(e@) ==> entry_views(s.push(e)).filter(pred) == entry_views(s).filter(pred),
{
    reveal(Seq::filter);
    assert(entry_views(s.push(e)) =~= entry_views(s).push(e@));
    let v = entry_views(s).push(e@);
    assert(v.drop_last() =~= entry_views(s));
    assert(v.last() == e@);
}

/// Count the candidates under a root.
pub fn count_candidates(entries: &Vec<FsEntry>, range: TimeRange, now: u64) -> (r: usize)
    ensures
        r == entry_views(entries@).filter(|e: FsEntryV| is_candidate(e, range, now)).len(),
{
    let matched = filter_candidates(entries, range, now);
    proof {
        assert(entry_views(matched@).len() == matched@.len());
    }
    matched.len()
}

} // verus!
