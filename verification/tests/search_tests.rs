use fsengine::entry::{FileEntry, MetaProbe, make_entry};
use fsengine::search::SearchEngine;

fn entry_at(dir: &str, name: &str, is_dir: bool) -> FileEntry {
    let path = format!("{}/{}", dir, name);
    make_entry(
        &path,
        MetaProbe { is_dir, is_symlink: false, len: 1, modified_secs: None },
        None,
    )
}

#[test]
fn matching_is_case_insensitive_substring() {
    let mut eng = SearchEngine::new("/r".to_string(), "RepOrt", true);
    let d = eng.next_dir().unwrap();
    assert_eq!(d.path, "/r");
    assert_eq!(d.depth, 0);
    let children = vec![
        entry_at("/r", "Annual-REPORT.txt", false),
        entry_at("/r", "notes.txt", false),
        entry_at("/r", "reports", true),
    ];
    eng.offer_children(d.depth, children);
    assert!(eng.next_dir().is_some()); // the matching subdirectory is still descended into
    let results = eng.into_results();
    let names: Vec<&str> = results.iter().map(|e| e.name.as_str()).collect();
    assert_eq!(names, vec!["Annual-REPORT.txt", "reports"]);
}

#[test]
fn never_more_than_two_hundred_results() {
    let mut eng = SearchEngine::new("/r".to_string(), "file", true);
    let d = eng.next_dir().unwrap();
    let mut children = Vec::new();
    for i in 0..250 {
        children.push(entry_at("/r", &format!("file{}.txt", i), false));
    }
    eng.offer_children(d.depth, children);
    assert!(eng.next_dir().is_none()); // the cap also stops the traversal
    let results = eng.into_results();
    assert_eq!(results.len(), 200);
}

#[test]
fn never_descends_past_the_depth_bound() {
    let mut eng = SearchEngine::new("/r".to_string(), "zzz", true);
    // Chain of directories: each level holds one subdirectory.
    let mut max_seen: u64 = 0;
    while let Some(d) = eng.next_dir() {
        assert!(d.depth <= 5);
        if d.depth > max_seen {
            max_seen = d.depth;
        }
        let children = vec![entry_at(&d.path, "deeper", true)];
        eng.offer_children(d.depth, children);
    }
    // Directories are opened at depths 0 through 5 and never beyond.
    assert_eq!(max_seen, 5);
    assert!(eng.into_results().is_empty());
}

#[test]
fn hidden_entries_respect_the_flag() {
    let mut eng = SearchEngine::new("/r".to_string(), "secret", false);
    let d = eng.next_dir().unwrap();
    eng.offer_children(d.depth, vec![entry_at("/r", ".secret", false)]);
    assert!(eng.into_results().is_empty());

    let mut eng = SearchEngine::new("/r".to_string(), "secret", true);
    let d = eng.next_dir().unwrap();
    eng.offer_children(d.depth, vec![entry_at("/r", ".secret", false)]);
    assert_eq!(eng.into_results().len(), 1);
}
