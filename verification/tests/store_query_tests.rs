use flashback::query::{query_advanced, query_paginated, total_pages_of};
use flashback::store::{ResultStore, ScanResultItem};

fn record(pid: &str, path: &str, ftype: &str, updated: u64) -> ScanResultItem {
    ScanResultItem {
        id: format!("id-{path}-{updated}"),
        project_id: pid.to_string(),
        file_path: path.to_string(),
        file_type: ftype.to_string(),
        source: "OTHER".to_string(),
        created_at: Some(1_000),
        modified_at: Some(2_000),
        size_bytes: 42,
        is_valid: true,
        inserted_at: updated,
        updated_at: updated,
    }
}

#[test]
fn upsert_replaces_by_project_and_path() {
    let mut store = ResultStore::new();
    store.upsert(record("p1", "/a/x.md", "md", 10));
    store.upsert(record("p1", "/a/x.md", "md", 20));
    store.upsert(record("p2", "/a/x.md", "md", 30));
    assert_eq!(store.len(), 2);
    let page = query_paginated(&store, "p1", 1, 10);
    assert_eq!(page.total, 1);
    assert_eq!(page.items[0].updated_at, 20);
}

#[test]
fn no_two_records_of_a_project_share_a_path() {
    let mut store = ResultStore::new();
    for _ in 0..5 {
        store.upsert(record("p1", "/a/x.md", "md", 10));
    }
    store.upsert(record("p1", "/a/y.md", "md", 10));
    let page = query_paginated(&store, "p1", 1, 10);
    assert_eq!(page.total, 2);
    let mut paths: Vec<String> = page.items.iter().map(|r| r.file_path.clone()).collect();
    paths.sort();
    paths.dedup();
    assert_eq!(paths.len(), 2);
}

#[test]
fn replace_all_clears_only_the_project() {
    let mut store = ResultStore::new();
    store.upsert(record("p1", "/a/x.md", "md", 10));
    store.upsert(record("p2", "/b/y.md", "md", 10));
    store.replace_all("p1");
    assert_eq!(query_paginated(&store, "p1", 1, 10).total, 0);
    assert_eq!(query_paginated(&store, "p2", 1, 10).total, 1);
}

#[test]
fn results_come_newest_first_with_ties_in_store_order() {
    let mut store = ResultStore::new();
    store.upsert(record("p1", "/a/old.md", "md", 10));
    store.upsert(record("p1", "/a/new.md", "md", 30));
    store.upsert(record("p1", "/a/mid1.md", "md", 20));
    store.upsert(record("p1", "/a/mid2.md", "md", 20));
    let page = query_paginated(&store, "p1", 1, 10);
    let paths: Vec<&str> = page.items.iter().map(|r| r.file_path.as_str()).collect();
    assert_eq!(paths, vec!["/a/new.md", "/a/mid1.md", "/a/mid2.md", "/a/old.md"]);
}

#[test]
fn page_count_is_the_ceiling_of_total_over_page_size() {
    assert_eq!(total_pages_of(0, 2), 0);
    assert_eq!(total_pages_of(0, 1), 0);
    assert_eq!(total_pages_of(1, 2), 1);
    assert_eq!(total_pages_of(2, 2), 1);
    assert_eq!(total_pages_of(3, 2), 2);
    assert_eq!(total_pages_of(5, 2), 3);
    assert_eq!(total_pages_of(6, 2), 3);
    assert_eq!(total_pages_of(7, 1), 7);
    assert_eq!(total_pages_of(7, 0), 1);
}

#[test]
fn pages_in_order_reproduce_the_whole_result_set() {
    let mut store = ResultStore::new();
    for i in 0..5u64 {
        store.upsert(record("p1", &format!("/a/f{i}.md"), "md", 100 - i));
    }
    let mut gathered: Vec<String> = Vec::new();
    let first = query_paginated(&store, "p1", 1, 2);
    assert_eq!(first.total, 5);
    assert_eq!(first.total_pages, 3);
    for p in 1..=first.total_pages {
        let page = query_paginated(&store, "p1", p, 2);
        assert!(page.items.len() <= 2);
        gathered.extend(page.items.iter().map(|r| r.file_path.clone()));
    }
    assert_eq!(
        gathered,
        vec!["/a/f0.md", "/a/f1.md", "/a/f2.md", "/a/f3.md", "/a/f4.md"]
    );
}

#[test]
fn page_zero_is_coerced_to_one() {
    let mut store = ResultStore::new();
    store.upsert(record("p1", "/a/x.md", "md", 10));
    let page = query_paginated(&store, "p1", 0, 10);
    assert_eq!(page.page, 1);
    assert_eq!(page.items.len(), 1);
}

#[test]
fn page_size_zero_yields_a_single_page_holding_everything() {
    let mut store = ResultStore::new();
    store.upsert(record("p1", "/a/x.md", "md", 10));
    store.upsert(record("p1", "/a/y.md", "md", 20));
    let page = query_paginated(&store, "p1", 1, 0);
    assert_eq!(page.total_pages, 1);
    assert_eq!(page.items.len(), 2);
}

#[test]
fn text_filter_is_a_literal_case_sensitive_substring() {
    let mut store = ResultStore::new();
    store.upsert(record("p1", "/a/Notes.md", "md", 10));
    store.upsert(record("p1", "/a/other.md", "md", 20));
    let q = "Notes".to_string();
    let page = query_advanced(&store, "p1", 1, 10, Some(&q), None);
    assert_eq!(page.total, 1);
    assert_eq!(page.items[0].file_path, "/a/Notes.md");

    let lower = "notes".to_string();
    assert_eq!(query_advanced(&store, "p1", 1, 10, Some(&lower), None).total, 0);
}

#[test]
fn wildcard_characters_in_the_text_match_only_themselves() {
    let mut store = ResultStore::new();
    store.upsert(record("p1", "/a/100%done.md", "md", 10));
    store.upsert(record("p1", "/a/plain.md", "md", 20));
    let q = "%".to_string();
    let page = query_advanced(&store, "p1", 1, 10, Some(&q), None);
    assert_eq!(page.total, 1);
    assert_eq!(page.items[0].file_path, "/a/100%done.md");

    let u = "_".to_string();
    assert_eq!(query_advanced(&store, "p1", 1, 10, Some(&u), None).total, 0);
}

#[test]
fn blank_text_restricts_nothing() {
    let mut store = ResultStore::new();
    store.upsert(record("p1", "/a/x.md", "md", 10));
    let blank = "   ".to_string();
    assert_eq!(query_advanced(&store, "p1", 1, 10, Some(&blank), None).total, 1);
    // All of Unicode's whitespace counts as blank, as trimming would.
    let exotic = "\u{0B}\u{A0}\u{2003}".to_string();
    assert_eq!(query_advanced(&store, "p1", 1, 10, Some(&exotic), None).total, 1);
}

#[test]
fn an_empty_result_set_fills_no_pages() {
    let store = ResultStore::new();
    let page = query_paginated(&store, "p1", 1, 10);
    assert_eq!(page.total, 0);
    assert_eq!(page.total_pages, 0);
    assert!(page.items.is_empty());
}

#[test]
fn type_filter_is_set_membership_and_empty_means_no_restriction() {
    let mut store = ResultStore::new();
    store.upsert(record("p1", "/a/x.md", "md", 10));
    store.upsert(record("p1", "/a/y.pdf", "pdf", 20));
    store.upsert(record("p1", "/a/z.txt", "txt", 30));

    let types = vec!["md".to_string(), "pdf".to_string()];
    let page = query_advanced(&store, "p1", 1, 10, None, Some(&types));
    assert_eq!(page.total, 2);

    let empty: Vec<String> = vec![];
    assert_eq!(query_advanced(&store, "p1", 1, 10, None, Some(&empty)).total, 3);
}

#[test]
fn queries_see_only_the_named_project() {
    let mut store = ResultStore::new();
    store.upsert(record("p1", "/a/x.md", "md", 10));
    store.upsert(record("p2", "/a/y.md", "md", 20));
    assert_eq!(query_paginated(&store, "p1", 1, 10).total, 1);
    assert_eq!(query_paginated(&store, "missing", 1, 10).total, 0);
}
