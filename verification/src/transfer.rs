//! The copy/move/delete batch planners.
//!
//! A batch takes the sources in the order supplied and is planned — and
//! later executed — strictly sequentially: the first source that fails
//! validation aborts the remaining, unprocessed sources, while the steps
//! already planned for earlier sources stand (no rollback).  The caller
//! probes the filesystem once per source and hands the facts in; the
//! planning decisions themselves are verified here.

use vstd::prelude::*;
use vstd::string::StringExecFns;
use crate::errors::FsError;
use crate::path::{
    path_file_name, path_join, spec_file_name, spec_join, valid_name, lemma_file_name_of_join,
};

verus! {

/// What the caller found out about the batch destination.
pub struct DestProbe {
    pub path: String,
    pub exists: bool,
    pub is_dir: bool,
}

/// What the caller found out about one batch source.
pub struct SourceProbe {
    pub path: String,
    pub exists: bool,
    pub is_dir: bool,
    /// Source and its would-be target resolve to the identical canonical
    /// path (both were resolvable).
    pub same_as_target: bool,
    /// The would-be target already exists.
    pub target_exists: bool,
}

/// One planned copy action.
pub enum CopyStep {
    /// Copy one file, through the bounded-retry wrapper.
    File { src: String, dst: String },
    /// Copy a directory tree; when `replace` holds, the existing
    /// destination tree is removed first.
    Tree { src: String, dst: String, replace: bool },
}

/// One planned move action: a rename, through the bounded-retry machine.
pub struct MoveStep {
    pub src: String,
    pub dst: String,
}

/// The mathematical form of a planned copy action.
pub enum SpecCopyStep {
    File { src: Seq<char>, dst: Seq<char> },
    Tree { src: Seq<char>, dst: Seq<char>, replace: bool },
}

/// The mathematical form of a planned move action.
pub struct SpecMoveStep {
    pub src: Seq<char>,
    pub dst: Seq<char>,
}

/// The mathematical form of a batch abort.
pub enum SpecBatchErr {
    /// The source does not exist.
    Missing { path: Seq<char> },
    /// The source path has no usable final component.
    BadName { path: Seq<char> },
}

/// The target a source is carried to: the destination directory joined
/// with the source's final name.
pub open spec fn spec_move_target(src: Seq<char>, dest_dir: Seq<char>) -> Seq<char> {
    spec_join(dest_dir, spec_file_name(src))
}

/// Moving an item named `x` from directory `a` to directory `b` and then
/// moving it back restores its original path (round trip, absent
/// collisions at either end).
pub proof fn lemma_move_round_trip(a: Seq<char>, b: Seq<char>, x: Seq<char>)
    requires
        valid_name(x),
    ensures
        spec_move_target(spec_join(a, x), b) == spec_join(b, x),
        spec_move_target(spec_move_target(spec_join(a, x), b), a) == spec_join(a, x),
{
    lemma_file_name_of_join(a, x);
    lemma_file_name_of_join(b, x);
}

/// How one source is handled and what the rest of the batch yields.
pub open spec fn spec_plan_copy(sources: Seq<SourceProbe>, dest: Seq<char>) -> (Seq<
    SpecCopyStep,
>, Option<SpecBatchErr>)
    decreases sources.len(),
{
    if sources.len() == 0 {
        (Seq::<SpecCopyStep>::empty(), Option::<SpecBatchErr>::None)
    } else {
        let s = sources[0];
        if !s.exists {
            (Seq::<SpecCopyStep>::empty(), Some(SpecBatchErr::Missing { path: s.path@ }))
        } else if !valid_name(spec_file_name(s.path@)) {
            (Seq::<SpecCopyStep>::empty(), Some(SpecBatchErr::BadName { path: s.path@ }))
        } else {
            let rest = spec_plan_copy(sources.drop_first(), dest);
            if s.same_as_target {
                rest
            } else {
                let tgt = spec_join(dest, spec_file_name(s.path@));
                let step = if s.is_dir {
                    SpecCopyStep::Tree { src: s.path@, dst: tgt, replace: s.target_exists }
                } else {
                    SpecCopyStep::File { src: s.path@, dst: tgt }
                };
                (seq![step] + rest.0, rest.1)
            }
        }
    }
}

/// As `spec_plan_copy`, for a move batch.
pub open spec fn spec_plan_move(sources: Seq<SourceProbe>, dest: Seq<char>) -> (Seq<
    SpecMoveStep,
>, Option<SpecBatchErr>)
    decreases sources.len(),
{
    if sources.len() == 0 {
        (Seq::<SpecMoveStep>::empty(), Option::<SpecBatchErr>::None)
    } else {
        let s = sources[0];
        if !s.exists {
            (Seq::<SpecMoveStep>::empty(), Some(SpecBatchErr::Missing { path: s.path@ }))
        } else if !valid_name(spec_file_name(s.path@)) {
            (Seq::<SpecMoveStep>::empty(), Some(SpecBatchErr::BadName { path: s.path@ }))
        } else {
            let rest = spec_plan_move(sources.drop_first(), dest);
            if s.same_as_target {
                rest
            } else {
                let step = SpecMoveStep {
                    src: s.path@,
                    dst: spec_join(dest, spec_file_name(s.path@)),
                };
                (seq![step] + rest.0, rest.1)
            }
        }
    }
}

/// A planned copy action agrees with its mathematical form.
pub open spec fn copy_step_matches(e: CopyStep, m: SpecCopyStep) -> bool {
    match e {
        CopyStep::File { src, dst } => m matches SpecCopyStep::File { src: ms, dst: md }
            && src@ == ms && dst@ == md,
        CopyStep::Tree { src, dst, replace } => m matches SpecCopyStep::Tree {
            src: ms,
            dst: md,
            replace: mr,
        } && src@ == ms && dst@ == md && replace == mr,
    }
}

/// A planned move action agrees with its mathematical form.
pub open spec fn move_step_matches(e: MoveStep, m: SpecMoveStep) -> bool {
    e.src@ == m.src && e.dst@ == m.dst
}

/// A surfaced batch error agrees with its mathematical form.
pub open spec fn batch_failure_matches(e: Option<FsError>, m: Option<SpecBatchErr>) -> bool {
    match m {
        Option::<SpecBatchErr>::None => e is None,
        Some(SpecBatchErr::Missing { path }) => e matches Some(FsError::SourceMissing { path: p })
            && p@ == path,
        Some(SpecBatchErr::BadName { path }) => e matches Some(FsError::InvalidName { path: p })
            && p@ == path,
    }
}

/// The planned steps of a copy batch, and the abort that cut it short,
/// if one did.  The caller executes the steps in order and then reports
/// the failure: earlier sources stay copied.
pub struct CopyPlan {
    pub steps: Vec<CopyStep>,
    pub failure: Option<FsError>,
}

/// The planned steps of a move batch, as in `CopyPlan`.
pub struct MovePlan {
    pub steps: Vec<MoveStep>,
    pub failure: Option<FsError>,
}

/// Plans a copy batch.  The destination must exist and be a directory; a
/// source that does not exist, or whose path has no usable name, aborts
/// the batch right there.  A source whose target is itself is skipped.
pub fn plan_copy(dest: &DestProbe, sources: &Vec<SourceProbe>) -> (r: CopyPlan)
    ensures
        !(dest.exists && dest.is_dir) ==> r.steps@.len() == 0 && (r.failure matches Some(
            FsError::DestinationInvalid { path },
        ) && path@ == dest.path@),
        (dest.exists && dest.is_dir) ==> {
            let m = spec_plan_copy(sources@, dest.path@);
            &&& r.steps@.len() == m.0.len()
            &&& forall|k: int|
                0 <= k < m.0.len() ==> copy_step_matches(#[trigger] r.steps@[k], m.0[k])
            &&& batch_failure_matches(r.failure, m.1)
        },
{
    if !dest.exists || !dest.is_dir {
        return CopyPlan {
            steps: Vec::new(),
            failure: Some(FsError::DestinationInvalid { path: dest.path.clone() }),
        };
    }
    let ghost m = spec_plan_copy(sources@, dest.path@);
    let mut steps: Vec<CopyStep> = Vec::new();
    let mut i: usize = 0;
    let n = sources.len();
    proof {
        assert(sources@.skip(0) =~= sources@);
    }
    while i < n
        invariant
            n == sources@.len(),
            i <= n,
            dest.exists && dest.is_dir,
            m == spec_plan_copy(sources@, dest.path@),
            m.0.len() == steps@.len() + spec_plan_copy(sources@.skip(i as int), dest.path@).0.len(),
            m.0.skip(steps@.len() as int) == spec_plan_copy(
                sources@.skip(i as int),
                dest.path@,
            ).0,
            m.1 == spec_plan_copy(sources@.skip(i as int), dest.path@).1,
            forall|k: int|
                0 <= k < steps@.len() ==> copy_step_matches(#[trigger] steps@[k], m.0[k]),
        decreases n - i,
    {
        let ghost tail0 = sources@.skip(i as int);
        proof {
            assert(tail0[0] == sources@[i as int]);
            assert(tail0.drop_first() =~= sources@.skip(i as int + 1));
        }
        let s = &sources[i];
        if !s.exists {
            proof {
                assert(m.0.skip(steps@.len() as int) =~= Seq::<SpecCopyStep>::empty());
                assert(m.0 =~= m.0.skip(0));
                assert(m.0.len() == steps@.len());
            }
            return CopyPlan {
                steps,
                failure: Some(FsError::SourceMissing { path: s.path.clone() }),
            };
        }
        let name = match path_file_name(s.path.as_str()) {
            Some(nm) => nm,
            None => {
                proof {
                    assert(m.0.skip(steps@.len() as int) =~= Seq::<SpecCopyStep>::empty());
                    assert(m.0.len() == steps@.len());
                }
                return CopyPlan {
                    steps,
                    failure: Some(FsError::InvalidName { path: s.path.clone() }),
                };
            },
        };
        if !s.same_as_target {
            let ghost len0 = steps@.len();
            let tgt = path_join(dest.path.as_str(), name.as_str());
            if s.is_dir {
                steps.push(
                    CopyStep::Tree { src: s.path.clone(), dst: tgt, replace: s.target_exists },
                );
            } else {
                steps.push(CopyStep::File { src: s.path.clone(), dst: tgt });
            }
            proof {
                let tail1 = spec_plan_copy(sources@.skip(i as int + 1), dest.path@);
                assert(m.0.skip(len0 as int)[0] == m.0[len0 as int]);
                assert(copy_step_matches(steps@[len0 as int], m.0[len0 as int]));
                assert(m.0.skip(len0 as int).drop_first() =~= m.0.skip(len0 as int + 1));
                assert(m.0.skip(steps@.len() as int) =~= tail1.0);
                assert forall|k: int|
                    0 <= k < steps@.len() implies copy_step_matches(
                    #[trigger] steps@[k],
                    m.0[k],
                ) by {}
            }
        }
        i += 1;
    }
    proof {
        assert(sources@.skip(n as int) =~= Seq::<SourceProbe>::empty());
        assert(m.0.skip(steps@.len() as int) =~= Seq::<SpecCopyStep>::empty());
        assert(m.0.len() == steps@.len());
    }
    CopyPlan { steps, failure: None }
}

/// Plans a move batch: the same validation order as a copy batch, one
/// rename step per source that is not its own target.
pub fn plan_move(dest: &DestProbe, sources: &Vec<SourceProbe>) -> (r: MovePlan)
    ensures
        !(dest.exists && dest.is_dir) ==> r.steps@.len() == 0 && (r.failure matches Some(
            FsError::DestinationInvalid { path },
        ) && path@ == dest.path@),
        (dest.exists && dest.is_dir) ==> {
            let m = spec_plan_move(sources@, dest.path@);
            &&& r.steps@.len() == m.0.len()
            &&& forall|k: int|
                0 <= k < m.0.len() ==> move_step_matches(#[trigger] r.steps@[k], m.0[k])
            &&& batch_failure_matches(r.failure, m.1)
        },
{
    if !dest.exists || !dest.is_dir {
        return MovePlan {
            steps: Vec::new(),
            failure: Some(FsError::DestinationInvalid { path: dest.path.clone() }),
        };
    }
    let ghost m = spec_plan_move(sources@, dest.path@);
    let mut steps: Vec<MoveStep> = Vec::new();
    let mut i: usize = 0;
    let n = sources.len();
    proof {
        assert(sources@.skip(0) =~= sources@);
    }
    while i < n
        invariant
            n == sources@.len(),
            i <= n,
            dest.exists && dest.is_dir,
            m == spec_plan_move(sources@, dest.path@),
            m.0.len() == steps@.len() + spec_plan_move(sources@.skip(i as int), dest.path@).0.len(),
            m.0.skip(steps@.len() as int) == spec_plan_move(
                sources@.skip(i as int),
                dest.path@,
            ).0,
            m.1 == spec_plan_move(sources@.skip(i as int), dest.path@).1,
            forall|k: int|
                0 <= k < steps@.len() ==> move_step_matches(#[trigger] steps@[k], m.0[k]),
        decreases n - i,
    {
        let ghost tail0 = sources@.skip(i as int);
        proof {
            assert(tail0[0] == sources@[i as int]);
            assert(tail0.drop_first() =~= sources@.skip(i as int + 1));
        }
        let s = &sources[i];
        if !s.exists {
            proof {
                assert(m.0.skip(steps@.len() as int) =~= Seq::<SpecMoveStep>::empty());
                assert(m.0.len() == steps@.len());
            }
            return MovePlan {
                steps,
                failure: Some(FsError::SourceMissing { path: s.path.clone() }),
            };
        }
        let name = match path_file_name(s.path.as_str()) {
            Some(nm) => nm,
            None => {
                proof {
                    assert(m.0.skip(steps@.len() as int) =~= Seq::<SpecMoveStep>::empty());
                    assert(m.0.len() == steps@.len());
                }
                return MovePlan {
                    steps,
                    failure: Some(FsError::InvalidName { path: s.path.clone() }),
                };
            },
        };
        if !s.same_as_target {
            let ghost len0 = steps@.len();
            let tgt = path_join(dest.path.as_str(), name.as_str());
            steps.push(MoveStep { src: s.path.clone(), dst: tgt });
            proof {
                let tail1 = spec_plan_move(sources@.skip(i as int + 1), dest.path@);
                assert(m.0.skip(len0 as int)[0] == m.0[len0 as int]);
                assert(move_step_matches(steps@[len0 as int], m.0[len0 as int]));
                assert(m.0.skip(len0 as int).drop_first() =~= m.0.skip(len0 as int + 1));
                assert(m.0.skip(steps@.len() as int) =~= tail1.0);
            }
        }
        i += 1;
    }
    proof {
        assert(sources@.skip(n as int) =~= Seq::<SourceProbe>::empty());
        assert(m.0.skip(steps@.len() as int) =~= Seq::<SpecMoveStep>::empty());
        assert(m.0.len() == steps@.len());
    }
    MovePlan { steps, failure: None }
}

/// The first source that fails validation blocks every source after it:
/// the plan ends in an abort, and no step past that source is planned.
pub proof fn lemma_first_missing_blocks(sources: Seq<SourceProbe>, dest: Seq<char>, i: int)
    requires
        0 <= i < sources.len(),
        !sources[i].exists,
        forall|j: int|
            0 <= j < i ==> (#[trigger] sources[j]).exists && valid_name(
                spec_file_name(sources[j].path@),
            ),
    ensures
        spec_plan_copy(sources, dest).1 == Some(SpecBatchErr::Missing { path: sources[i].path@ }),
        spec_plan_copy(sources, dest).0.len() <= i,
    decreases i,
{
    if i > 0 {
        lemma_first_missing_blocks(sources.drop_first(), dest, i - 1);
        assert(sources.drop_first()[i - 1] == sources[i]);
        assert forall|j: int|
            0 <= j < i - 1 implies (#[trigger] sources.drop_first()[j]).exists && valid_name(
            spec_file_name(sources.drop_first()[j].path@),
        ) by {
            assert(sources.drop_first()[j] == sources[j + 1]);
        }
    }
}

/// What the caller found out about one item of a delete batch.
pub struct DeleteProbe {
    pub path: String,
    pub exists: bool,
    pub is_dir: bool,
}

/// How one planned deletion is carried out.
pub enum DeleteMethod {
    /// Send to the OS trash.
    Trash,
    /// Remove a directory tree outright.
    RemoveDirAll,
    /// Remove a single file outright.
    RemoveFile,
}

/// One planned deletion.
pub struct DeleteStep {
    pub path: String,
    pub method: DeleteMethod,
}

/// The method a probe calls for.
pub open spec fn spec_delete_method(p: DeleteProbe, use_trash: bool) -> DeleteMethod {
    if use_trash {
        DeleteMethod::Trash
    } else if p.is_dir {
        DeleteMethod::RemoveDirAll
    } else {
        DeleteMethod::RemoveFile
    }
}

/// Which probes a delete batch acts on: items that vanished already are
/// silently skipped.
pub open spec fn spec_delete_kept(probes: Seq<DeleteProbe>) -> Seq<DeleteProbe> {
    probes.filter(|p: DeleteProbe| p.exists)
}

/// Plans a delete batch: one step per still-existing item, in order; to
/// the trash when asked, else a tree or file removal.  Execution stops at
/// the first failing step (the caller's part), leaving earlier deletions
/// done.
pub fn plan_delete(probes: &Vec<DeleteProbe>, use_trash: bool) -> (r: Vec<DeleteStep>)
    ensures
        r@.len() == spec_delete_kept(probes@).len(),
        forall|k: int|
            0 <= k < r@.len() ==> (#[trigger] r@[k]).path@ == spec_delete_kept(probes@)[k].path@
                && r@[k].method == spec_delete_method(spec_delete_kept(probes@)[k], use_trash),
{
    let mut steps: Vec<DeleteStep> = Vec::new();
    let mut i: usize = 0;
    let n = probes.len();
    proof {
        reveal(Seq::filter);
        assert(probes@.subrange(0, 0) =~= Seq::<DeleteProbe>::empty());
    }
    while i < n
        invariant
            n == probes@.len(),
            i <= n,
            steps@.len() == spec_delete_kept(probes@.subrange(0, i as int)).len(),
            forall|k: int|
                0 <= k < steps@.len() ==> (#[trigger] steps@[k]).path@ == spec_delete_kept(
                    probes@.subrange(0, i as int),
                )[k].path@ && steps@[k].method == spec_delete_method(
                    spec_delete_kept(probes@.subrange(0, i as int))[k],
                    use_trash,
                ),
        decreases n - i,
    {
        let p = &probes[i];
        let ghost pre = probes@.subrange(0, i as int);
        proof {
            reveal(Seq::filter);
            assert(probes@.subrange(0, i as int + 1).drop_last() =~= pre);
            assert(probes@.subrange(0, i as int + 1).last() == probes@[i as int]);
        }
        if p.exists {
            let method = if use_trash {
                DeleteMethod::Trash
            } else if p.is_dir {
                DeleteMethod::RemoveDirAll
            } else {
                DeleteMethod::RemoveFile
            };
            steps.push(DeleteStep { path: p.path.clone(), method });
            proof {
                assert(spec_delete_kept(probes@.subrange(0, i as int + 1)) =~= spec_delete_kept(
                    pre,
                ).push(probes@[i as int]));
            }
        } else {
            proof {
                assert(spec_delete_kept(probes@.subrange(0, i as int + 1)) =~= spec_delete_kept(
                    pre,
                ));
            }
        }
        i += 1;
    }
    proof {
        assert(probes@.subrange(0, n as int) =~= probes@);
    }
    steps
}

} // verus!
