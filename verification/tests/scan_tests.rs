use flashback::classify::ScanScope;
use flashback::filter::{FsEntry, TimeRange};
use flashback::progress::{catalog_progress, summary_walk_progress};
use flashback::query::query_paginated;
use flashback::roots::ChatLocation;
use flashback::scan::{count_true, make_record, repo_candidates, run_catalog, SummaryScan};
use flashback::store::ResultStore;

const NOW: u64 = 1_700_000_000;

fn file(path: &str, modified: u64) -> FsEntry {
    FsEntry {
        path: path.to_string(),
        is_dir: false,
        size: 100,
        modified: Some(modified),
        created: Some(modified - 50),
    }
}

fn dir(path: &str) -> FsEntry {
    FsEntry { path: path.to_string(), is_dir: true, size: 0, modified: Some(NOW), created: None }
}

#[test]
fn records_carry_the_entry_and_scan_facts() {
    let e = FsEntry {
        path: "/home/u/Documents/Report.PDF".to_string(),
        is_dir: false,
        size: 2048,
        modified: Some(NOW - 100),
        created: None,
    };
    let r = make_record(&e, "p1", ScanScope::All, NOW);
    assert_eq!(r.project_id, "p1");
    assert_eq!(r.file_path, "/home/u/Documents/Report.PDF");
    assert_eq!(r.file_type, "pdf");
    assert_eq!(r.source, "DOCUMENTS");
    // With no creation stamp the modification stamp stands in for it.
    assert_eq!(r.created_at, Some(NOW - 100));
    assert_eq!(r.modified_at, Some(NOW - 100));
    assert_eq!(r.size_bytes, 2048);
    assert!(r.is_valid);
    assert_eq!(r.inserted_at, NOW);
    assert_eq!(r.updated_at, NOW);
    // The identifier is a freshly drawn hyphenated form, 36 characters.
    assert_eq!(r.id.len(), 36);
}

#[test]
fn custom_scope_marks_records_custom_specified() {
    let e = file("/tmp/x/data.csv", NOW);
    let r = make_record(&e, "p1", ScanScope::Custom, NOW);
    assert_eq!(r.source, "CUSTOM_SPECIFIED");
}

#[test]
fn catalog_scan_fills_the_store_from_candidates() {
    let mut store = ResultStore::new();
    let roots = vec![
        vec![
            dir("/home/u/Documents"),
            file("/home/u/Documents/a.md", NOW),
            file("/home/u/Documents/b.exe", NOW),
            file("/home/u/Documents/c.md", NOW - 400 * 24 * 3600),
        ],
    ];
    run_catalog(&mut store, "p1", &roots, TimeRange::PastYear, NOW, ScanScope::All);
    let page = query_paginated(&store, "p1", 1, 10);
    assert_eq!(page.total, 1);
    assert_eq!(page.items[0].file_path, "/home/u/Documents/a.md");
    assert_eq!(page.items[0].source, "DOCUMENTS");
}

#[test]
fn rescan_reproduces_everything_but_ids_and_stamps() {
    let roots = vec![
        vec![file("/r/a.md", NOW - 10), file("/r/b.pdf", NOW - 20)],
        vec![file("/r/a.md", NOW - 10), file("/s/c.txt", NOW - 30)],
    ];
    let mut s1 = ResultStore::new();
    let mut s2 = ResultStore::new();
    run_catalog(&mut s1, "p1", &roots, TimeRange::Unbounded, NOW, ScanScope::All);
    run_catalog(&mut s2, "p1", &roots, TimeRange::Unbounded, NOW + 7, ScanScope::All);

    let mut one: Vec<_> = query_paginated(&s1, "p1", 1, 100)
        .items
        .iter()
        .map(|r| {
            (r.file_path.clone(), r.file_type.clone(), r.source.clone(), r.created_at,
            r.modified_at, r.size_bytes, r.is_valid)
        })
        .collect();
    let mut two: Vec<_> = query_paginated(&s2, "p1", 1, 100)
        .items
        .iter()
        .map(|r| {
            (r.file_path.clone(), r.file_type.clone(), r.source.clone(), r.created_at,
            r.modified_at, r.size_bytes, r.is_valid)
        })
        .collect();
    one.sort();
    two.sort();
    assert_eq!(one.len(), 3);
    assert_eq!(one, two);
}

#[test]
fn rescan_replaces_rather_than_duplicates() {
    let roots = vec![vec![file("/r/a.md", NOW)]];
    let mut store = ResultStore::new();
    run_catalog(&mut store, "p1", &roots, TimeRange::Unbounded, NOW, ScanScope::All);
    run_catalog(&mut store, "p1", &roots, TimeRange::Unbounded, NOW, ScanScope::All);
    assert_eq!(query_paginated(&store, "p1", 1, 10).total, 1);
}

#[test]
fn catalog_scan_leaves_other_projects_alone() {
    let mut store = ResultStore::new();
    run_catalog(
        &mut store,
        "p2",
        &vec![vec![file("/q/z.md", NOW)]],
        TimeRange::Unbounded,
        NOW,
        ScanScope::All,
    );
    run_catalog(
        &mut store,
        "p1",
        &vec![vec![file("/r/a.md", NOW)]],
        TimeRange::Unbounded,
        NOW,
        ScanScope::All,
    );
    assert_eq!(query_paginated(&store, "p2", 1, 10).total, 1);
}

#[test]
fn repository_candidates_are_parents_of_git_directories() {
    let entries = vec![
        dir("/r/proj/.git"),
        file("/r/proj/.git", NOW),  // a file named .git is no candidate
        dir("/r/other"),
        dir("/r/nested/lib/.git"),
    ];
    let cands = repo_candidates(&entries);
    assert_eq!(cands, vec!["/r/proj".to_string(), "/r/nested/lib".to_string()]);
}

#[test]
fn counting_confirmed_repositories() {
    assert_eq!(count_true(&vec![true, false, true, true]), 3);
    assert_eq!(count_true(&vec![]), 0);
}

#[test]
fn summary_scan_progress_is_monotone_through_its_phases() {
    let chats = vec![ChatLocation { app: "WeChat".to_string(), path: "/c/w".to_string() }];
    let (mut scan, p0) = SummaryScan::begin(chats, 2);
    assert_eq!(p0, 18);
    let p1 = scan.root_walked(1);
    assert_eq!(p1, 39);  // 18 + 1*42/2
    let p2 = scan.root_walked(2);
    assert_eq!(p2, 60);  // 18 + 2*42/2
    let p3 = scan.set_documents(&vec![4, 5]);
    assert_eq!(p3, 84);
    let (summary, p4) = scan.complete();
    assert_eq!(p4, 100);
    assert_eq!(summary.git_repos, 3);
    assert_eq!(summary.documents, 9);
    assert_eq!(summary.chat_locations.len(), 1);
    assert_eq!(summary.chat_locations[0].app, "WeChat");
    assert!(p0 <= p1 && p1 <= p2 && p2 <= p3 && p3 <= p4);
}

#[test]
fn summary_scan_with_no_roots_still_divides_cleanly() {
    let (scan, p0) = SummaryScan::begin(vec![], 0);
    assert_eq!(p0, 18);
    let mut scan = scan;
    let p = scan.set_documents(&vec![]);
    assert_eq!(p, 84);
    let (summary, _) = scan.complete();
    assert_eq!(summary.documents, 0);
}

#[test]
fn walk_band_and_catalog_progress_values() {
    assert_eq!(summary_walk_progress(0, 5), 18);
    assert_eq!(summary_walk_progress(1, 5), 26);  // 18 + 42/5
    assert_eq!(summary_walk_progress(5, 5), 60);
    assert_eq!(catalog_progress(1, 2), 50);
    assert_eq!(catalog_progress(2, 2), 95);  // capped below 100
    assert_eq!(catalog_progress(1, 1), 95);
    assert_eq!(catalog_progress(0, 7), 0);
}
