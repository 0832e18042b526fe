//! The bounded retry policy for transient I/O failures, and the per-item
//! attempt machines built on it.
//!
//! Transient failures (a scanner briefly holding a handle, a network-share
//! hiccup) usually resolve within tens of milliseconds; a small
//! fixed-delay retry absorbs them without unbounded waits.  The policy is
//! an explicit value so the routines using it stay testable.

use vstd::prelude::*;

verus! {

/// A fixed-delay retry budget.
pub struct RetryPolicy {
    /// How many attempts in all may be made.
    pub max_attempts: u32,
    /// The fixed pause between attempts, in milliseconds.
    pub delay_ms: u64,
}

impl RetryPolicy {
    /// The engine's standard budget: three attempts, 100 ms apart.
    pub fn standard() -> (r: RetryPolicy)
        ensures
            r.max_attempts == 3,
            r.delay_ms == 100,
    {
        RetryPolicy { max_attempts: 3, delay_ms: 100 }
    }
}

/// What to do after a failed attempt.
pub enum RetryDecision {
    /// Sleep this many milliseconds, then try once more.
    RetryAfter(u64),
    /// The budget is exhausted: surface the failure, carrying how many
    /// attempts were made in all.
    GiveUp(u32),
}

/// The retry machine for one file copy: the caller tries the copy, and on
/// each failure asks the machine what to do next.
pub struct CopyAttempt {
    policy: RetryPolicy,
    failures: u32,
}

impl CopyAttempt {
    pub closed spec fn spec_policy(self) -> RetryPolicy {
        self.policy
    }

    pub closed spec fn spec_failures(self) -> u32 {
        self.failures
    }

    /// The machine accepts further failures: the budget is not exhausted.
    pub open spec fn wf(self) -> bool {
        self.spec_failures() < self.spec_policy().max_attempts
    }

    pub fn new(policy: RetryPolicy) -> (r: CopyAttempt)
        requires
            policy.max_attempts > 0,
        ensures
            r.wf(),
            r.spec_policy() == policy,
            r.spec_failures() == 0,
    {
        CopyAttempt { policy, failures: 0 }
    }

    /// Records one failed attempt.  While attempts remain the answer is a
    /// fixed-delay retry; the final failure carries the attempt count.
    pub fn on_failure(&mut self) -> (r: RetryDecision)
        requires
            old(self).wf(),
        ensures
            final(self).spec_policy() == old(self).spec_policy(),
            final(self).spec_failures() == old(self).spec_failures() + 1,
            final(self).spec_failures() < old(self).spec_policy().max_attempts ==> r
                == RetryDecision::RetryAfter(old(self).spec_policy().delay_ms) && final(self).wf(),
            final(self).spec_failures() == old(self).spec_policy().max_attempts ==> r
                == RetryDecision::GiveUp(old(self).spec_policy().max_attempts),
    {
        self.failures = self.failures + 1;
        if self.failures < self.policy.max_attempts {
            RetryDecision::RetryAfter(self.policy.delay_ms)
        } else {
            RetryDecision::GiveUp(self.policy.max_attempts)
        }
    }
}

/// What to do after a failed rename.
pub enum MoveAction {
    /// Sleep this many milliseconds, then rename once more.
    SleepThenRetry(u64),
    /// Remove the stale target file, then rename again at once; this
    /// remedial step is granted at most once per move.
    RemoveTargetThenRetry,
    /// The budget is exhausted: surface the failure, carrying how many
    /// attempts were made in all.
    GiveUp(u32),
}

/// The retry machine for one rename.  On the first failure, if a
/// conflicting target exists, exactly one remedial remove-then-rename is
/// granted; after that, failures draw from the same fixed-delay budget a
/// file copy uses.
pub struct MoveAttempt {
    policy: RetryPolicy,
    failures: u32,
    remedial_used: bool,
}

impl MoveAttempt {
    pub closed spec fn spec_policy(self) -> RetryPolicy {
        self.policy
    }

    pub closed spec fn spec_failures(self) -> u32 {
        self.failures
    }

    pub closed spec fn spec_remedial_used(self) -> bool {
        self.remedial_used
    }

    /// The machine accepts further failures: the budget is not exhausted.
    pub open spec fn wf(self) -> bool {
        self.spec_failures() < self.spec_policy().max_attempts
    }

    pub fn new(policy: RetryPolicy) -> (r: MoveAttempt)
        requires
            policy.max_attempts > 0,
        ensures
            r.wf(),
            r.spec_policy() == policy,
            r.spec_failures() == 0,
            !r.spec_remedial_used(),
    {
        MoveAttempt { policy, failures: 0, remedial_used: false }
    }

    /// Records one failed rename; `target_exists` says whether a
    /// conflicting target was present at the failure.
    pub fn on_failure(&mut self, target_exists: bool) -> (r: MoveAction)
        requires
            old(self).wf(),
        ensures
            final(self).spec_policy() == old(self).spec_policy(),
            (old(self).spec_failures() == 0 && target_exists && !old(self).spec_remedial_used())
                ==> {
                &&& r == MoveAction::RemoveTargetThenRetry
                &&& final(self).spec_failures() == old(self).spec_failures()
                &&& final(self).spec_remedial_used()
                &&& final(self).wf()
            },
            !(old(self).spec_failures() == 0 && target_exists && !old(self).spec_remedial_used())
                ==> {
                &&& final(self).spec_failures() == old(self).spec_failures() + 1
                &&& final(self).spec_remedial_used() == old(self).spec_remedial_used()
                &&& (final(self).spec_failures() < old(self).spec_policy().max_attempts ==> r
                    == MoveAction::SleepThenRetry(old(self).spec_policy().delay_ms)
                    && final(self).wf())
                &&& (final(self).spec_failures() == old(self).spec_policy().max_attempts ==> r
                    == MoveAction::GiveUp(old(self).spec_policy().max_attempts))
            },
    {
        if self.failures == 0 && target_exists && !self.remedial_used {
            self.remedial_used = true;
            return MoveAction::RemoveTargetThenRetry;
        }
        self.failures = self.failures + 1;
        if self.failures < self.policy.max_attempts {
            MoveAction::SleepThenRetry(self.policy.delay_ms)
        } else {
            MoveAction::GiveUp(self.policy.max_attempts)
        }
    }
}

} // verus!
