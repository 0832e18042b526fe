//! The change watcher: a single-slot, replace-on-rewatch state machine.
//!
//! At most one directory is observed at a time — a deliberate design
//! limitation, not an oversight.  The slot decides every transition; the
//! caller owns the native notification handle and registers or discards it
//! as the returned command says.  Every native event received while
//! watching republishes one generic "changed" signal carrying the watched
//! path, whatever the event kind was.

use vstd::prelude::*;
use crate::errors::FsError;

verus! {

/// What the caller must do after a successful `watch`.
pub enum WatchOutcome {
    /// The same path was already being watched: keep the existing handle.
    AlreadyWatching,
    /// The slot took the new path: discard any prior native handle and
    /// register a fresh watch on the path.
    Register,
}

/// The single watch slot: `None` is idle, `Some(path)` is watching.
pub struct WatcherSlot {
    watched: Option<String>,
}

/// The slot's transition on a watch request, over the observed path:
/// validation comes before any replacement, so a request that fails
/// leaves the current watch exactly as it was.
pub open spec fn spec_watch_state(
    cur: Option<Seq<char>>,
    path: Seq<char>,
    path_is_dir: bool,
) -> Option<Seq<char>> {
    if cur == Some(path) {
        cur
    } else if !path_is_dir {
        cur
    } else {
        Some(path)
    }
}

/// Whether a slot in state `sig` delivers change signals for `p`.
pub open spec fn spec_delivers(sig: Option<Seq<char>>, p: Seq<char>) -> bool {
    sig == Some(p)
}

/// Watching `b` after `a` stops delivery for `a` and starts it for `b`;
/// clearing the slot stops all delivery; a request that fails validation
/// changes nothing.
pub proof fn lemma_rewatch_switches(s0: Option<Seq<char>>, a: Seq<char>, b: Seq<char>)
    requires
        a != b,
    ensures
        spec_delivers(spec_watch_state(s0, a, true), a),
        spec_delivers(spec_watch_state(spec_watch_state(s0, a, true), b, true), b),
        !spec_delivers(spec_watch_state(spec_watch_state(s0, a, true), b, true), a),
        spec_watch_state(spec_watch_state(s0, a, true), b, false) == spec_watch_state(
            s0,
            a,
            true,
        ),
        forall|p: Seq<char>| !spec_delivers(Option::<Seq<char>>::None, p),
{
}

impl WatcherSlot {
    /// The path the slot observes, if any.
    pub closed spec fn spec_signal(self) -> Option<Seq<char>> {
        match self.watched {
            Some(p) => Some(p@),
            None => None,
        }
    }

    /// A fresh, idle slot.
    pub fn new() -> (r: WatcherSlot)
        ensures
            r.spec_signal() is None,
    {
        WatcherSlot { watched: None }
    }

    /// Requests to watch `path` (`path_is_dir` is what the caller's stat
    /// said).  Watching the already-watched path is a no-op.  Anything
    /// else is validated first: a non-directory fails and leaves the
    /// current watch untouched; only a valid request discards the prior
    /// watch and takes the new path.
    pub fn watch(&mut self, path: String, path_is_dir: bool) -> (r: Result<WatchOutcome, FsError>)
        ensures
            final(self).spec_signal() == spec_watch_state(
                old(self).spec_signal(),
                path@,
                path_is_dir,
            ),
            old(self).spec_signal() == Some(path@) ==> r == Ok::<WatchOutcome, FsError>(
                WatchOutcome::AlreadyWatching,
            ),
            old(self).spec_signal() != Some(path@) && !path_is_dir ==> (r matches Err(
                FsError::NotADirectory { path: p },
            ) && p@ == path@),
            old(self).spec_signal() != Some(path@) && path_is_dir ==> r == Ok::<
                WatchOutcome,
                FsError,
            >(WatchOutcome::Register),
    {
        let same = match &self.watched {
            Some(w) => w.eq(&path),
            None => false,
        };
        if same {
            return Ok(WatchOutcome::AlreadyWatching);
        }
        if !path_is_dir {
            return Err(FsError::NotADirectory { path });
        }
        self.watched = Some(path);
        Ok(WatchOutcome::Register)
    }

    /// Clears the slot unconditionally; idempotent.  The caller discards
    /// the native handle alongside.
    pub fn unwatch(&mut self)
        ensures
            final(self).spec_signal() is None,
    {
        self.watched = None;
    }

    /// The signal to republish for one received native event: the watched
    /// path, whatever the event kind was; nothing when idle.
    pub fn on_event(&self) -> (r: Option<String>)
        ensures
            match r {
                Some(p) => self.spec_signal() == Some(p@) && spec_delivers(
                    self.spec_signal(),
                    p@,
                ),
                None => self.spec_signal() is None,
            },
    {
        match &self.watched {
            Some(p) => Some(p.clone()),
            None => None,
        }
    }
}

} // verus!
