use fsengine::clipboard::{format_clipboard_payload, parse_clipboard_payload, ClipboardStore};
use fsengine::errors::FsError;
use fsengine::watch::{WatchOutcome, WatcherSlot};

#[test]
fn rewatch_switches_delivery_to_the_new_path() {
    let mut slot = WatcherSlot::new();
    assert!(matches!(slot.watch("/a".to_string(), true), Ok(WatchOutcome::Register)));
    assert_eq!(slot.on_event().as_deref(), Some("/a"));
    assert!(matches!(slot.watch("/b".to_string(), true), Ok(WatchOutcome::Register)));
    // Signals now carry /b and never /a.
    assert_eq!(slot.on_event().as_deref(), Some("/b"));
    slot.unwatch();
    assert_eq!(slot.on_event(), None);
}

#[test]
fn watching_the_same_path_again_is_a_no_op() {
    let mut slot = WatcherSlot::new();
    assert!(matches!(slot.watch("/a".to_string(), true), Ok(WatchOutcome::Register)));
    assert!(matches!(slot.watch("/a".to_string(), true), Ok(WatchOutcome::AlreadyWatching)));
    assert_eq!(slot.on_event().as_deref(), Some("/a"));
}

#[test]
fn watching_a_non_directory_fails_and_leaves_the_watch_intact() {
    let mut slot = WatcherSlot::new();
    assert!(matches!(slot.watch("/a".to_string(), true), Ok(WatchOutcome::Register)));
    let r = slot.watch("/a/file.txt".to_string(), false);
    assert!(matches!(r, Err(FsError::NotADirectory { ref path }) if path == "/a/file.txt"));
    // Validation precedes replacement: the prior watch still delivers.
    assert_eq!(slot.on_event().as_deref(), Some("/a"));

    // From idle, a failed request stays idle.
    let mut idle = WatcherSlot::new();
    assert!(idle.watch("/a/file.txt".to_string(), false).is_err());
    assert_eq!(idle.on_event(), None);
}

#[test]
fn unwatch_is_idempotent() {
    let mut slot = WatcherSlot::new();
    slot.unwatch();
    slot.unwatch();
    assert_eq!(slot.on_event(), None);
}

#[test]
fn clipboard_round_trip() {
    let mut store = ClipboardStore::new();
    assert!(!store.has_files());
    assert!(store.read_files().is_err());
    store.write_files(vec!["/a/x".to_string(), "/a/y".to_string()], true);
    assert!(store.has_files());
    let got = store.read_files().unwrap();
    assert_eq!(got.paths, vec!["/a/x".to_string(), "/a/y".to_string()]);
    assert!(got.is_cut);
    // A later write replaces the slot wholesale.
    store.write_files(vec!["/b/z".to_string()], false);
    let got = store.read_files().unwrap();
    assert_eq!(got.paths, vec!["/b/z".to_string()]);
    assert!(!got.is_cut);
}

#[test]
fn payload_format_is_exact() {
    let paths = vec!["/home/u/a.txt".to_string(), "/home/u/b c".to_string()];
    assert_eq!(
        format_clipboard_payload(&paths, true),
        "cut\nfile:///home/u/a.txt\nfile:///home/u/b c"
    );
    assert_eq!(format_clipboard_payload(&Vec::new(), false), "copy\n");
}

#[test]
fn payload_parse_reads_back_what_was_formatted() {
    let paths = vec!["/home/u/a.txt".to_string(), "/srv/x".to_string()];
    let payload = format_clipboard_payload(&paths, true);
    let parsed = parse_clipboard_payload(&payload).unwrap();
    assert_eq!(parsed.paths, paths);
    assert!(parsed.is_cut);

    let payload = format_clipboard_payload(&paths, false);
    let parsed = parse_clipboard_payload(&payload).unwrap();
    assert!(!parsed.is_cut);
}

#[test]
fn payload_parse_percent_decodes_and_strips_cr() {
    let parsed =
        parse_clipboard_payload("copy\r\nfile:///home/u/with%20space\r\nnot-a-uri\n").unwrap();
    assert_eq!(parsed.paths, vec!["/home/u/with space".to_string()]);
    assert!(!parsed.is_cut);
}

#[test]
fn payload_without_any_uri_line_is_an_error() {
    assert!(parse_clipboard_payload("cut\n").is_err());
    assert!(parse_clipboard_payload("").is_err());
}
