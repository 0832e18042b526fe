use fsengine::entry::{FileEntry, MetaProbe, make_entry};
use fsengine::listing::list_core;

fn entry(name: &str, is_dir: bool) -> FileEntry {
    let path = format!("/root/{}", name);
    make_entry(
        &path,
        MetaProbe { is_dir, is_symlink: false, len: if is_dir { 0 } else { 10 }, modified_secs: None },
        None,
    )
}

#[test]
fn directories_sort_before_files() {
    let children = vec![
        entry("zeta.txt", false),
        entry("Alpha", true),
        entry("beta.txt", false),
        entry("Omega", true),
    ];
    let contents = list_core("/root", children, true);
    let names: Vec<&str> = contents.entries.iter().map(|e| e.name.as_str()).collect();
    assert_eq!(names, vec!["Alpha", "Omega", "beta.txt", "zeta.txt"]);
    assert!(contents.entries[0].is_dir);
    assert!(contents.entries[1].is_dir);
    assert!(!contents.entries[2].is_dir);
}

#[test]
fn names_compare_case_insensitively() {
    let children = vec![
        entry("banana.txt", false),
        entry("Apple.txt", false),
        entry("cherry.txt", false),
        entry("BANANA2.txt", false),
    ];
    let contents = list_core("/root", children, true);
    let names: Vec<&str> = contents.entries.iter().map(|e| e.name.as_str()).collect();
    assert_eq!(names, vec!["Apple.txt", "banana.txt", "BANANA2.txt", "cherry.txt"]);
}

#[test]
fn directory_entries_have_zero_size_and_empty_extension() {
    let children = vec![entry("docs.old", true), entry("file.old", false)];
    let contents = list_core("/root", children, true);
    for e in &contents.entries {
        if e.is_dir {
            assert_eq!(e.size, 0);
            assert_eq!(e.extension, "");
        } else {
            assert_eq!(e.size, 10);
            assert_eq!(e.extension, "old");
        }
    }
}

#[test]
fn hidden_entries_are_filtered_unless_asked_for() {
    let children = vec![entry(".config", true), entry("visible.txt", false)];
    let without = list_core("/root", children, false);
    assert_eq!(without.entries.len(), 1);
    assert_eq!(without.entries[0].name, "visible.txt");

    let children = vec![entry(".config", true), entry("visible.txt", false)];
    let with = list_core("/root", children, true);
    assert_eq!(with.entries.len(), 2);
    assert_eq!(with.entries[0].name, ".config");
}

#[test]
fn parent_is_derived_from_the_path() {
    let contents = list_core("/root/sub", Vec::new(), true);
    assert_eq!(contents.parent.as_deref(), Some("/root"));
    let top = list_core("/", Vec::new(), true);
    assert_eq!(top.parent, None);
    let first = list_core("/usr", Vec::new(), true);
    assert_eq!(first.parent.as_deref(), Some("/"));
}
