use fsengine::errors::FsError;
use fsengine::listing::validate_dir;
use fsengine::transfer::{plan_copy, DestProbe, SourceProbe};

#[test]
fn a_missing_path_is_not_found() {
    let r = validate_dir("/no/such", false, false);
    assert!(matches!(r, Err(FsError::NotFound { ref path }) if path == "/no/such"));
}

#[test]
fn a_file_is_not_a_directory() {
    let r = validate_dir("/etc/hosts", true, false);
    assert!(matches!(r, Err(FsError::NotADirectory { ref path }) if path == "/etc/hosts"));
}

#[test]
fn an_existing_directory_validates() {
    assert!(validate_dir("/tmp", true, true).is_ok());
}

#[test]
fn a_source_without_a_usable_name_aborts_with_invalid_name() {
    let dest = DestProbe { path: "/dst".to_string(), exists: true, is_dir: true };
    let sources = vec![SourceProbe {
        path: "/".to_string(),
        exists: true,
        is_dir: true,
        same_as_target: false,
        target_exists: false,
    }];
    let plan = plan_copy(&dest, &sources);
    assert_eq!(plan.steps.len(), 0);
    assert!(matches!(plan.failure, Some(FsError::InvalidName { ref path }) if path == "/"));
}

#[test]
fn every_failure_formats_as_a_short_message_naming_the_path() {
    let e = FsError::NotFound { path: "/x/y".to_string() };
    assert_eq!(e.message(), "Path does not exist: /x/y");
    let e = FsError::NotADirectory { path: "/x/y".to_string() };
    assert_eq!(e.message(), "Path is not a directory: /x/y");
    let e = FsError::DestinationInvalid { path: "/d".to_string() };
    assert_eq!(e.message(), "Invalid destination: /d");
    let e = FsError::SourceMissing { path: "/s".to_string() };
    assert_eq!(e.message(), "Source does not exist: /s");
    let e = FsError::InvalidName { path: "/" .to_string() };
    assert_eq!(e.message(), "Invalid file name: /");
    let e = FsError::CopyFailed { path: "/f".to_string(), attempts: 3 };
    assert_eq!(e.message(), "Failed to copy /f after 3 attempts");
    let e = FsError::MoveFailed { path: "/f".to_string(), attempts: 3 };
    assert_eq!(e.message(), "Failed to move /f after 3 attempts");
    let e = FsError::PatternError { pattern: "[".to_string() };
    assert_eq!(e.message(), "Invalid pattern: [");
}
