use fsengine::content::{binary_read_len, encode_file_base64, plan_text_read, TextReadPlan};
use fsengine::dirsize::{DirSizeScan, SizeProbe};
use fsengine::entry::{is_hidden, make_entry, make_properties, MetaProbe};

fn meta(is_dir: bool, len: u64, secs: Option<u64>) -> MetaProbe {
    MetaProbe { is_dir, is_symlink: false, len, modified_secs: secs }
}

#[test]
fn entries_pin_every_field() {
    let e = make_entry("/home/u/notes.md", meta(false, 345, Some(0)), None);
    assert_eq!(e.name, "notes.md");
    assert_eq!(e.path, "/home/u/notes.md");
    assert!(!e.is_dir);
    assert!(!e.is_hidden);
    assert_eq!(e.size, 345);
    assert_eq!(e.modified, "1970-01-01 00:00:00");
    assert_eq!(e.extension, "md");
    assert!(!e.is_symlink);
}

#[test]
fn timestamps_format_in_utc_seconds() {
    let e = make_entry("/x", meta(false, 0, Some(86461)), None);
    assert_eq!(e.modified, "1970-01-02 00:01:01");
    let none = make_entry("/x", meta(false, 0, None), None);
    assert_eq!(none.modified, "");
}

#[test]
fn broken_symlinks_fall_back_to_link_metadata() {
    let link = MetaProbe { is_dir: false, is_symlink: true, len: 12, modified_secs: None };
    let broken = make_entry("/x/link", link, None);
    assert!(broken.is_symlink);
    assert!(!broken.is_dir);
    assert_eq!(broken.size, 12);

    let link = MetaProbe { is_dir: false, is_symlink: true, len: 12, modified_secs: None };
    let resolved = make_entry("/x/link", link, Some(meta(true, 0, None)));
    assert!(resolved.is_symlink);
    assert!(resolved.is_dir); // kind reflects the target
    assert_eq!(resolved.size, 0);
}

#[test]
fn hidden_names_start_with_a_dot() {
    assert!(is_hidden(".profile"));
    assert!(!is_hidden("profile"));
    assert!(!is_hidden(""));
}

#[test]
fn properties_take_the_computed_directory_size() {
    let p = make_properties(
        "/srv/data",
        meta(true, 0, Some(0)),
        None,
        Some(0),
        None,
        false,
        4096,
        Some(3),
    );
    assert!(p.is_dir);
    assert_eq!(p.size, 4096);
    assert_eq!(p.size_on_disk, 4096);
    assert_eq!(p.item_count, Some(3));
    assert_eq!(p.extension, "");
    assert_eq!(p.created, "1970-01-01 00:00:00");
    assert_eq!(p.accessed, "");

    let f = make_properties("/srv/a.log", meta(false, 88, None), None, None, None, true, 0, None);
    assert!(!f.is_dir);
    assert_eq!(f.size, 88);
    assert_eq!(f.item_count, None);
    assert!(f.is_readonly);
    assert_eq!(f.extension, "log");
}

#[test]
fn text_read_plans_cap_at_the_limit() {
    assert!(matches!(plan_text_read(100, None), TextReadPlan::Whole));
    assert!(matches!(plan_text_read(5_000_000, None), TextReadPlan::Prefix(2_097_152)));
    assert!(matches!(plan_text_read(100, Some(10)), TextReadPlan::Prefix(10)));
    assert!(matches!(plan_text_read(10, Some(10)), TextReadPlan::Whole));
}

#[test]
fn binary_read_length_is_the_minimum() {
    assert_eq!(binary_read_len(100, None), 100);
    assert_eq!(binary_read_len(100_000_000, None), 52_428_800);
    assert_eq!(binary_read_len(100, Some(64)), 64);
}

#[test]
fn base64_encoding_is_exact() {
    assert_eq!(encode_file_base64(&b"abc".to_vec()), "YWJj");
    assert_eq!(encode_file_base64(&b"ab".to_vec()), "YWI=");
    assert_eq!(encode_file_base64(&Vec::new()), "");
}

#[test]
fn directory_size_sums_files_across_the_tree() {
    let mut scan = DirSizeScan::new("/r".to_string());
    while let Some(dir) = scan.next_dir() {
        let children = match dir.as_str() {
            "/r" => vec![
                SizeProbe { path: "/r/a".to_string(), is_dir: false, len: 10 },
                SizeProbe { path: "/r/sub".to_string(), is_dir: true, len: 0 },
            ],
            "/r/sub" => vec![SizeProbe { path: "/r/sub/b".to_string(), is_dir: false, len: 32 }],
            _ => Vec::new(),
        };
        scan.offer_children(&children);
    }
    assert_eq!(scan.into_total(), 42);
}

#[test]
fn directory_size_saturates_instead_of_overflowing() {
    let mut scan = DirSizeScan::new("/r".to_string());
    let dir = scan.next_dir().unwrap();
    assert_eq!(dir, "/r");
    scan.offer_children(&vec![
        SizeProbe { path: "/r/a".to_string(), is_dir: false, len: u64::MAX - 5 },
        SizeProbe { path: "/r/b".to_string(), is_dir: false, len: 100 },
    ]);
    assert_eq!(scan.into_total(), u64::MAX);
}
