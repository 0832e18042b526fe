use fsengine::errors::FsError;
use fsengine::retry::{CopyAttempt, MoveAttempt, MoveAction, RetryDecision, RetryPolicy};
use fsengine::transfer::{
    plan_copy, plan_delete, plan_move, CopyStep, DeleteMethod, DeleteProbe, DestProbe, SourceProbe,
};

fn dest(path: &str) -> DestProbe {
    DestProbe { path: path.to_string(), exists: true, is_dir: true }
}

fn src(path: &str, exists: bool, is_dir: bool) -> SourceProbe {
    SourceProbe {
        path: path.to_string(),
        exists,
        is_dir,
        same_as_target: false,
        target_exists: false,
    }
}

#[test]
fn missing_first_source_blocks_all_subsequent() {
    let sources = vec![src("/a/missing.txt", false, false), src("/a/real.txt", true, false)];
    let plan = plan_copy(&dest("/dst"), &sources);
    assert_eq!(plan.steps.len(), 0);
    assert!(matches!(plan.failure, Some(FsError::SourceMissing { ref path }) if path == "/a/missing.txt"));
}

#[test]
fn missing_second_source_leaves_the_first_planned() {
    let sources = vec![src("/a/real.txt", true, false), src("/a/missing.txt", false, false)];
    let plan = plan_copy(&dest("/dst"), &sources);
    assert_eq!(plan.steps.len(), 1);
    match &plan.steps[0] {
        CopyStep::File { src, dst } => {
            assert_eq!(src, "/a/real.txt");
            assert_eq!(dst, "/dst/real.txt");
        },
        _ => panic!("expected a file step"),
    }
    assert!(matches!(plan.failure, Some(FsError::SourceMissing { ref path }) if path == "/a/missing.txt"));
}

#[test]
fn invalid_destination_aborts_before_any_source() {
    let d = DestProbe { path: "/nope".to_string(), exists: false, is_dir: false };
    let plan = plan_copy(&d, &vec![src("/a/x", true, false)]);
    assert_eq!(plan.steps.len(), 0);
    assert!(matches!(plan.failure, Some(FsError::DestinationInvalid { ref path }) if path == "/nope"));

    let f = DestProbe { path: "/file".to_string(), exists: true, is_dir: false };
    let plan = plan_move(&f, &vec![src("/a/x", true, false)]);
    assert!(matches!(plan.failure, Some(FsError::DestinationInvalid { .. })));
}

#[test]
fn self_copy_is_skipped() {
    let mut s = src("/dst/x.txt", true, false);
    s.same_as_target = true;
    let plan = plan_copy(&dest("/dst"), &vec![s]);
    assert_eq!(plan.steps.len(), 0);
    assert!(plan.failure.is_none());
}

#[test]
fn directory_sources_replace_an_existing_target_tree() {
    let mut s = src("/a/docs", true, true);
    s.target_exists = true;
    let plan = plan_copy(&dest("/dst"), &vec![s]);
    assert_eq!(plan.steps.len(), 1);
    match &plan.steps[0] {
        CopyStep::Tree { src, dst, replace } => {
            assert_eq!(src, "/a/docs");
            assert_eq!(dst, "/dst/docs");
            assert!(*replace);
        },
        _ => panic!("expected a tree step"),
    }
}

#[test]
fn moving_back_restores_the_original_path() {
    // Move /a/x.txt into /b, then the moved item back into /a.
    let plan = plan_move(&dest("/b"), &vec![src("/a/x.txt", true, false)]);
    assert_eq!(plan.steps.len(), 1);
    let moved_to = plan.steps[0].dst.clone();
    assert_eq!(moved_to, "/b/x.txt");
    let back = plan_move(&dest("/a"), &vec![src(&moved_to, true, false)]);
    assert_eq!(back.steps.len(), 1);
    assert_eq!(back.steps[0].src, "/b/x.txt");
    assert_eq!(back.steps[0].dst, "/a/x.txt");
}

#[test]
fn copy_retry_gives_up_after_three_attempts_with_fixed_delay() {
    let mut att = CopyAttempt::new(RetryPolicy::standard());
    assert!(matches!(att.on_failure(), RetryDecision::RetryAfter(100)));
    assert!(matches!(att.on_failure(), RetryDecision::RetryAfter(100)));
    assert!(matches!(att.on_failure(), RetryDecision::GiveUp(3)));
}

#[test]
fn move_retry_grants_one_remedial_removal() {
    let mut att = MoveAttempt::new(RetryPolicy::standard());
    // First failure with a conflicting target: remove it and rename again.
    assert!(matches!(att.on_failure(true), MoveAction::RemoveTargetThenRetry));
    // The remedial rename failed too: back to the fixed-delay budget.
    assert!(matches!(att.on_failure(true), MoveAction::SleepThenRetry(100)));
    assert!(matches!(att.on_failure(false), MoveAction::SleepThenRetry(100)));
    assert!(matches!(att.on_failure(false), MoveAction::GiveUp(3)));
}

#[test]
fn move_retry_without_conflict_never_removes() {
    let mut att = MoveAttempt::new(RetryPolicy::standard());
    assert!(matches!(att.on_failure(false), MoveAction::SleepThenRetry(100)));
    // A target appearing later does not trigger the remedial removal.
    assert!(matches!(att.on_failure(true), MoveAction::SleepThenRetry(100)));
    assert!(matches!(att.on_failure(true), MoveAction::GiveUp(3)));
}

#[test]
fn delete_plan_skips_vanished_items_and_picks_the_method() {
    let probes = vec![
        DeleteProbe { path: "/a/gone".to_string(), exists: false, is_dir: false },
        DeleteProbe { path: "/a/dir".to_string(), exists: true, is_dir: true },
        DeleteProbe { path: "/a/file".to_string(), exists: true, is_dir: false },
    ];
    let steps = plan_delete(&probes, false);
    assert_eq!(steps.len(), 2);
    assert_eq!(steps[0].path, "/a/dir");
    assert!(matches!(steps[0].method, DeleteMethod::RemoveDirAll));
    assert_eq!(steps[1].path, "/a/file");
    assert!(matches!(steps[1].method, DeleteMethod::RemoveFile));

    let probes = vec![DeleteProbe { path: "/a/dir".to_string(), exists: true, is_dir: true }];
    let steps = plan_delete(&probes, true);
    assert!(matches!(steps[0].method, DeleteMethod::Trash));
}
