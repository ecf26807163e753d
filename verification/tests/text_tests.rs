use flashback::text::{
    contains_sub, ends_with_sub, extension_of, file_name_of, lower_char_exec, parent_dir_of,
    str_eq,
};

#[test]
fn substring_search() {
    assert!(contains_sub("/home/u/node_modules/x", "node_modules"));
    assert!(contains_sub("abc", ""));
    assert!(contains_sub("abc", "abc"));
    assert!(!contains_sub("abc", "abcd"));
    assert!(!contains_sub("abc", "bd"));
    assert!(contains_sub("aab", "ab"));
}

#[test]
fn suffix_test() {
    assert!(ends_with_sub("/home/u/Downloads", "/Downloads"));
    assert!(!ends_with_sub("/home/u/Downloads/x", "/Downloads"));
    assert!(ends_with_sub("x", ""));
}

#[test]
fn string_equality() {
    assert!(str_eq("abc", "abc"));
    assert!(!str_eq("abc", "abd"));
    assert!(!str_eq("abc", "ab"));
    assert!(str_eq("", ""));
}

#[test]
fn extensions_follow_the_last_dot_of_the_file_name() {
    assert_eq!(extension_of("/a/b/report.pdf"), Some("pdf".to_string()));
    assert_eq!(extension_of("/a/b.dir/archive.tar.gz"), Some("gz".to_string()));
    assert_eq!(extension_of("/a/b.dir/noext"), None);
    assert_eq!(extension_of("/a/.hidden"), None);
    assert_eq!(extension_of("/a/.hidden.txt"), Some("txt".to_string()));
    assert_eq!(extension_of("trailing."), Some("".to_string()));
    assert_eq!(extension_of(""), None);
}

#[test]
fn file_names_and_parents() {
    assert_eq!(file_name_of("/a/b/c.txt"), "c.txt");
    assert_eq!(file_name_of("bare"), "bare");
    assert_eq!(parent_dir_of("/a/b/c.txt"), "/a/b");
    assert_eq!(parent_dir_of("bare"), "");
}

#[test]
fn ascii_lowercasing_touches_only_the_basic_latin_uppercase() {
    assert_eq!(lower_char_exec('A'), 'a');
    assert_eq!(lower_char_exec('Z'), 'z');
    assert_eq!(lower_char_exec('a'), 'a');
    assert_eq!(lower_char_exec('0'), '0');
    assert_eq!(lower_char_exec('É'), 'É');
}
