use flashback::classify::ScanScope;
use flashback::roots::{
    candidate_roots, chat_candidates, resolve_scan_roots, select_existing, Platform,
};

#[test]
fn custom_scope_uses_exactly_the_chosen_folders() {
    let folders = vec!["/tmp/x".to_string()];
    let defaults = vec!["/home/u/Documents".to_string()];
    let roots = resolve_scan_roots(ScanScope::Custom, &folders, "/home/u/FlashBack/p", &defaults);
    assert_eq!(roots, vec!["/tmp/x".to_string()]);
}

#[test]
fn custom_scope_with_no_folders_falls_back_to_the_project_folder() {
    let folders: Vec<String> = vec![];
    let defaults = vec!["/home/u/Documents".to_string()];
    let roots = resolve_scan_roots(ScanScope::Custom, &folders, "/home/u/FlashBack/p", &defaults);
    assert_eq!(roots, vec!["/home/u/FlashBack/p".to_string()]);
}

#[test]
fn all_scope_appends_the_project_folder_to_the_defaults() {
    let folders: Vec<String> = vec![];
    let defaults = vec!["/home/u/Documents".to_string(), "/home/u/Desktop".to_string()];
    let roots = resolve_scan_roots(ScanScope::All, &folders, "/home/u/FlashBack/p", &defaults);
    assert_eq!(
        roots,
        vec![
            "/home/u/Documents".to_string(),
            "/home/u/Desktop".to_string(),
            "/home/u/FlashBack/p".to_string(),
        ]
    );
}

#[test]
fn custom_folder_lists_are_taken_as_given_repetitions_included() {
    let folders = vec!["/a".to_string(), "/b".to_string(), "/a".to_string()];
    let defaults: Vec<String> = vec![];
    let roots = resolve_scan_roots(ScanScope::Custom, &folders, "/p", &defaults);
    assert_eq!(roots, folders);
}

#[test]
fn the_default_root_union_is_deduplicated_keeping_first_positions() {
    // A project folder that is already a default is not repeated.
    let folders: Vec<String> = vec![];
    let defaults = vec!["/home/u/Documents".to_string()];
    let roots = resolve_scan_roots(ScanScope::All, &folders, "/home/u/Documents", &defaults);
    assert_eq!(roots, vec!["/home/u/Documents".to_string()]);
}

#[test]
fn default_roots_for_each_platform() {
    let other = candidate_roots(Platform::Other, "/home/u", None);
    assert_eq!(
        other,
        vec![
            "/home/u/Documents".to_string(),
            "/home/u/Desktop".to_string(),
            "/home/u/Downloads".to_string(),
            "/home/u/Projects".to_string(),
            "/home/u/Work".to_string(),
        ]
    );

    let mac = candidate_roots(Platform::MacOs, "/Users/u", None);
    assert_eq!(mac.len(), 8);
    assert_eq!(
        mac[5],
        "/Users/u/Library/Containers/com.tencent.xinWeChat/Data/Library/Application Support/com.tencent.xinWeChat"
    );

    let win = candidate_roots(Platform::Windows, "/home/u", Some("/Users/win"));
    assert_eq!(win.len(), 9);
    assert_eq!(win[5], "/Users/win/Documents/WeChat Files");

    let win_no_profile = candidate_roots(Platform::Windows, "/home/u", None);
    assert_eq!(win_no_profile.len(), 5);
}

#[test]
fn chat_candidates_and_existence_selection() {
    let cands = chat_candidates(Platform::MacOs, "/Users/u", None);
    assert_eq!(cands.len(), 3);
    assert_eq!(cands[0].app, "WeChat");
    assert_eq!(cands[1].app, "WeCom");
    assert_eq!(cands[2].app, "DingTalk");

    let present = vec![true, false, true];
    let found = select_existing(&cands, &present);
    assert_eq!(found.len(), 2);
    assert_eq!(found[0].app, "WeChat");
    assert_eq!(found[1].app, "DingTalk");

    let none = chat_candidates(Platform::Other, "/home/u", None);
    assert_eq!(none.len(), 0);
}
