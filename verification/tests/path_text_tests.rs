use fsengine::path::{path_file_name, path_join, path_parent, split_stem_ext};
use fsengine::text::{contains_chars, dec_str, str_lex_le};

#[test]
fn file_name_takes_the_final_component() {
    assert_eq!(path_file_name("/a/b/report.txt").as_deref(), Some("report.txt"));
    assert_eq!(path_file_name("report.txt").as_deref(), Some("report.txt"));
    assert_eq!(path_file_name("/"), None);
    assert_eq!(path_file_name("/a/.."), None);
    assert_eq!(path_file_name("/a/."), None);
    assert_eq!(path_file_name("/a/"), None);
}

#[test]
fn parent_drops_the_final_component() {
    assert_eq!(path_parent("/a/b/c").as_deref(), Some("/a/b"));
    assert_eq!(path_parent("/a").as_deref(), Some("/"));
    assert_eq!(path_parent("/"), None);
    assert_eq!(path_parent("bare"), None);
}

#[test]
fn join_inserts_one_separator() {
    assert_eq!(path_join("/a/b", "c.txt"), "/a/b/c.txt");
    assert_eq!(path_join("/", "tmp"), "//tmp".to_string());
}

#[test]
fn stem_and_extension_split_at_the_last_dot() {
    let (stem, ext) = split_stem_ext("archive.tar.gz");
    assert_eq!(stem, "archive.tar");
    assert_eq!(ext, ".gz");
    let (stem, ext) = split_stem_ext("README");
    assert_eq!(stem, "README");
    assert_eq!(ext, "");
    let (stem, ext) = split_stem_ext(".bashrc");
    assert_eq!(stem, ".bashrc");
    assert_eq!(ext, "");
    let (stem, ext) = split_stem_ext("report.txt");
    assert_eq!(stem, "report");
    assert_eq!(ext, ".txt");
}

#[test]
fn decimal_formatting_is_exact() {
    assert_eq!(dec_str(0), "0");
    assert_eq!(dec_str(7), "7");
    assert_eq!(dec_str(42), "42");
    assert_eq!(dec_str(1203), "1203");
}

#[test]
fn substring_search_finds_occurrences() {
    assert!(contains_chars("hello world", "o wo"));
    assert!(contains_chars("hello", ""));
    assert!(!contains_chars("hello", "worlds"));
    assert!(!contains_chars("ab", "abc"));
}

#[test]
fn lexicographic_order_compares_scalar_values() {
    assert!(str_lex_le("abc", "abd"));
    assert!(str_lex_le("ab", "abc"));
    assert!(!str_lex_le("abd", "abc"));
    assert!(str_lex_le("", "a"));
    assert!(str_lex_le("same", "same"));
}

