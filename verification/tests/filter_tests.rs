use flashback::filter::{
    count_candidates, doc_type_of, entry_is_candidate, filter_candidates, is_ignored_path,
    time_range_of, within_time, FsEntry, TimeRange,
};

const DAY: u64 = 24 * 3600;
const NOW: u64 = 1_700_000_000;

fn entry(path: &str, is_dir: bool, modified: Option<u64>) -> FsEntry {
    FsEntry { path: path.to_string(), is_dir, size: 10, modified, created: None }
}

#[test]
fn week_boundary_passes_at_exactly_seven_days() {
    assert!(within_time(Some(NOW - 7 * DAY), NOW, TimeRange::PastWeek));
}

#[test]
fn week_boundary_fails_one_second_past_seven_days() {
    assert!(!within_time(Some(NOW - (7 * DAY + 1)), NOW, TimeRange::PastWeek));
}

#[test]
fn month_and_year_boundaries() {
    assert!(within_time(Some(NOW - 30 * DAY), NOW, TimeRange::PastMonth));
    assert!(!within_time(Some(NOW - (30 * DAY + 1)), NOW, TimeRange::PastMonth));
    assert!(within_time(Some(NOW - 365 * DAY), NOW, TimeRange::PastYear));
    assert!(!within_time(Some(NOW - (365 * DAY + 1)), NOW, TimeRange::PastYear));
}

#[test]
fn unreadable_stamp_passes_fail_open() {
    assert!(within_time(None, NOW, TimeRange::PastWeek));
}

#[test]
fn future_stamp_counts_as_age_zero() {
    assert!(within_time(Some(NOW + 999), NOW, TimeRange::PastWeek));
}

#[test]
fn unbounded_passes_everything() {
    assert!(within_time(Some(0), NOW, TimeRange::Unbounded));
}

#[test]
fn time_range_labels() {
    assert_eq!(time_range_of("past_week"), TimeRange::PastWeek);
    assert_eq!(time_range_of("past_month"), TimeRange::PastMonth);
    assert_eq!(time_range_of("past_year"), TimeRange::PastYear);
    assert_eq!(time_range_of("anything_else"), TimeRange::Unbounded);
    assert_eq!(time_range_of(""), TimeRange::Unbounded);
}

#[test]
fn ignore_tokens_anywhere_in_path() {
    assert!(is_ignored_path("/home/u/proj/node_modules/pkg/a.md"));
    assert!(is_ignored_path("/home/u/proj/target/debug/x.txt"));
    assert!(is_ignored_path("/home/u/repo/.git/config"));
    assert!(is_ignored_path("/Users/u/Library/Caches/app/file.txt"));
    assert!(is_ignored_path("/u/AppData/Local/tmp.md"));
    assert!(is_ignored_path("/home/u/.DS_Store"));
    assert!(!is_ignored_path("/home/u/Documents/notes.md"));
}

#[test]
fn substring_matching_is_intentional() {
    // The match is substring-based, not component-based.
    assert!(is_ignored_path("/home/u/retargeting/notes.md"));
}

#[test]
fn doc_types_by_lowercased_extension() {
    assert_eq!(doc_type_of("/a/report.pdf"), Some("pdf".to_string()));
    assert_eq!(doc_type_of("/a/REPORT.PDF"), Some("pdf".to_string()));
    assert_eq!(doc_type_of("/a/notes.Md"), Some("md".to_string()));
    assert_eq!(doc_type_of("/a/setup.exe"), None);
    assert_eq!(doc_type_of("/a/noext"), None);
    assert_eq!(doc_type_of("/a/.gitignore"), None);
    assert_eq!(doc_type_of("/a/archive.tar."), None);
    assert_eq!(doc_type_of("/a/photo.JPEG"), Some("jpeg".to_string()));
}

#[test]
fn directories_are_never_candidates() {
    let e = entry("/home/u/Documents/notes.md", true, Some(NOW));
    assert!(!entry_is_candidate(&e, TimeRange::PastYear, NOW));
}

#[test]
fn candidate_set_under_a_root() {
    // Root /home/u/Documents: a.md modified today, b.exe today, c.md 400
    // days old; under past_year the candidate count is exactly one.
    let entries = vec![
        entry("/home/u/Documents", true, Some(NOW)),
        entry("/home/u/Documents/a.md", false, Some(NOW)),
        entry("/home/u/Documents/b.exe", false, Some(NOW)),
        entry("/home/u/Documents/c.md", false, Some(NOW - 400 * DAY)),
    ];
    assert_eq!(count_candidates(&entries, TimeRange::PastYear, NOW), 1);
    let picked = filter_candidates(&entries, TimeRange::PastYear, NOW);
    assert_eq!(picked.len(), 1);
    assert_eq!(picked[0].path, "/home/u/Documents/a.md");
}

#[test]
fn candidate_set_prunes_ignored_subtrees() {
    let entries = vec![
        entry("/r/node_modules/readme.md", false, Some(NOW)),
        entry("/r/keep.md", false, Some(NOW)),
    ];
    let picked = filter_candidates(&entries, TimeRange::Unbounded, NOW);
    assert_eq!(picked.len(), 1);
    assert_eq!(picked[0].path, "/r/keep.md");
}
