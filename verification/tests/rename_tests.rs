use fsengine::errors::FsError;
use fsengine::rename::{apply_pattern, rename_decision};

#[test]
fn malformed_regex_aborts_with_pattern_error() {
    let r = apply_pattern("IMG_001.jpg", "[unclosed", "x", true);
    assert!(matches!(r, Err(FsError::PatternError { ref pattern }) if pattern == "[unclosed"));
}

#[test]
fn plain_mode_never_fails_on_a_malformed_pattern() {
    let r = apply_pattern("a[unclosed]b", "[unclosed]", "-", false);
    assert_eq!(r.unwrap(), "a-b");
}

#[test]
fn plain_replacement_is_exact() {
    assert_eq!(apply_pattern("IMG_001_IMG.jpg", "IMG", "PIC", false).unwrap(), "PIC_001_PIC.jpg");
    assert_eq!(apply_pattern("notes.txt", "IMG", "PIC", false).unwrap(), "notes.txt");
}

#[test]
fn regex_replacement_expands_captures() {
    assert_eq!(apply_pattern("IMG_001.jpg", r"(\d+)", "n$1", true).unwrap(), "IMG_n001.jpg");
    // A regex without a match leaves the name as it was.
    assert_eq!(apply_pattern("notes.txt", r"\d{4}", "-", true).unwrap(), "notes.txt");
}

#[test]
fn rename_happens_only_on_a_real_change_without_collision() {
    let a = rename_decision("/d/IMG_001.jpg", "PIC_001.jpg", false).unwrap();
    assert_eq!(a.from, "/d/IMG_001.jpg");
    assert_eq!(a.to, "/d/PIC_001.jpg");
    assert_eq!(a.new_name, "PIC_001.jpg");

    // Unchanged name: skipped.
    assert!(rename_decision("/d/notes.txt", "notes.txt", false).is_none());
    // Occupied target: skipped.
    assert!(rename_decision("/d/IMG_001.jpg", "PIC_001.jpg", true).is_none());
    // No usable name component.
    assert!(rename_decision("/", "x", false).is_none());
}
