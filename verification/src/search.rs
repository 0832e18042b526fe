//! The recursive search engine: depth- and result-bounded case-insensitive
//! substring search over a subtree.
//!
//! The traversal keeps an explicit work list of pending directories instead
//! of recursing on the native stack, which makes the two hard bounds —
//! at most `SEARCH_MAX_RESULTS` matches, and no directory opened more than
//! `SEARCH_MAX_DEPTH` levels below the root — part of the machine's
//! invariant.  The caller pops a directory with [`SearchEngine::next_dir`],
//! enumerates it (skipping the whole directory if it cannot be opened, so
//! partial results are always produced), and hands the resolved children to
//! [`SearchEngine::offer_children`].

use vstd::prelude::*;
use vstd::string::StringExecFns;
use crate::entry::FileEntry;
use crate::listing::keeps;
use crate::text::{contains_chars, has_substring, lower_of, lowercase};

verus! {

/// The hard cap on the number of matches a search returns.
pub const SEARCH_MAX_RESULTS: usize = 200;

/// How many levels below the root a directory may lie and still be opened.
pub const SEARCH_MAX_DEPTH: u64 = 5;

/// A directory waiting to be enumerated, at its level below the root.
pub struct PendingDir {
    pub path: String,
    pub depth: u64,
}

/// An entry matches iff its case-folded name contains the case-folded
/// query.
pub open spec fn name_matches(name: Seq<char>, query_lower: Seq<char>) -> bool {
    has_substring(lower_of(name), query_lower)
}

/// What one enumerated directory contributes: the matches it adds (left)
/// and the subdirectories it schedules (right), processing children in
/// order while `room` matches may still be added.  A directory both counts
/// as a match and is still scheduled for descent.
pub open spec fn scan(
    children: Seq<FileEntry>,
    room: int,
    q: Seq<char>,
    show_hidden: bool,
) -> (Seq<FileEntry>, Seq<String>)
    decreases children.len(),
{
    if children.len() == 0 || room <= 0 {
        (Seq::<FileEntry>::empty(), Seq::<String>::empty())
    } else {
        let c = children[0];
        if !keeps(c, show_hidden) {
            scan(children.drop_first(), room, q, show_hidden)
        } else {
            let matched = name_matches(c.name@, q);
            let rest = scan(
                children.drop_first(),
                if matched {
                    room - 1
                } else {
                    room
                },
                q,
                show_hidden,
            );
            (
                if matched {
                    seq![c] + rest.0
                } else {
                    rest.0
                },
                if c.is_dir {
                    seq![c.path] + rest.1
                } else {
                    rest.1
                },
            )
        }
    }
}

/// The search machine.
pub struct SearchEngine {
    query_lower: String,
    show_hidden: bool,
    pending: Vec<PendingDir>,
    results: Vec<FileEntry>,
}

impl SearchEngine {
    pub closed spec fn spec_query_lower(self) -> Seq<char> {
        self.query_lower@
    }

    pub closed spec fn spec_show_hidden(self) -> bool {
        self.show_hidden
    }

    pub closed spec fn spec_pending(self) -> Seq<PendingDir> {
        self.pending@
    }

    pub closed spec fn spec_results(self) -> Seq<FileEntry> {
        self.results@
    }

    /// The machine's invariant: the result cap is never exceeded, and no
    /// scheduled directory lies deeper than the depth bound.
    pub closed spec fn wf(self) -> bool {
        &&& self.results@.len() <= 200
        &&& forall|i: int| 0 <= i < self.pending@.len() ==> (#[trigger] self.pending@[i]).depth
            <= 5
    }

    /// Starts a search rooted at `root`: the query is case-folded once,
    /// and the root is scheduled at depth zero.
    pub fn new(root: String, query: &str, show_hidden: bool) -> (r: SearchEngine)
        ensures
            r.wf(),
            r.spec_query_lower() == lower_of(query@),
            r.spec_show_hidden() == show_hidden,
            r.spec_results().len() == 0,
            r.spec_pending().len() == 1,
            r.spec_pending()[0].path == root,
            r.spec_pending()[0].depth == 0,
    {
        let query_lower = lowercase(query);
        let mut pending: Vec<PendingDir> = Vec::new();
        pending.push(PendingDir { path: root, depth: 0 });
        SearchEngine { query_lower, show_hidden, pending, results: Vec::new() }
    }

    /// Hands out the next directory to enumerate, deepest-first, or `None`
    /// when the traversal is finished: nothing is pending, or the result
    /// cap is reached.  A handed-out directory never lies more than
    /// `SEARCH_MAX_DEPTH` levels below the root.
    pub fn next_dir(&mut self) -> (r: Option<PendingDir>)
        requires
            old(self).wf(),
        ensures
            final(self).wf(),
            final(self).spec_query_lower() == old(self).spec_query_lower(),
            final(self).spec_show_hidden() == old(self).spec_show_hidden(),
            final(self).spec_results() == old(self).spec_results(),
            match r {
                None => {
                    &&& old(self).spec_pending().len() == 0 || old(self).spec_results().len()
                        >= 200
                    &&& final(self).spec_pending() == old(self).spec_pending()
                },
                Some(d) => {
                    &&& old(self).spec_pending().len() > 0
                    &&& old(self).spec_results().len() < 200
                    &&& d == old(self).spec_pending().last()
                    &&& d.depth <= 5
                    &&& final(self).spec_pending() == old(self).spec_pending().drop_last()
                },
            },
    {
        if self.results.len() >= SEARCH_MAX_RESULTS {
            return None;
        }
        let r = self.pending.pop();
        match r {
            Some(d) => Some(d),
            None => None,
        }
    }

    /// Consumes the enumerated children of a directory handed out at
    /// `depth`: every child passing the hidden filter whose case-folded
    /// name contains the query is recorded (while the cap allows), and
    /// every such subdirectory is scheduled one level deeper — unless it
    /// would lie below the depth bound.
    pub fn offer_children(&mut self, depth: u64, children: Vec<FileEntry>)
        requires
            old(self).wf(),
            depth <= 5,
        ensures
            final(self).wf(),
            final(self).spec_query_lower() == old(self).spec_query_lower(),
            final(self).spec_show_hidden() == old(self).spec_show_hidden(),
            final(self).spec_results() == old(self).spec_results() + scan(
                children@,
                200 - old(self).spec_results().len(),
                old(self).spec_query_lower(),
                old(self).spec_show_hidden(),
            ).0,
            final(self).spec_results().len() <= 200,
            forall|i: int|
                0 <= i < old(self).spec_pending().len() ==> final(self).spec_pending()[i] == old(
                    self,
                ).spec_pending()[i],
            depth < 5 ==> {
                let ds = scan(
                    children@,
                    200 - old(self).spec_results().len(),
                    old(self).spec_query_lower(),
                    old(self).spec_show_hidden(),
                ).1;
                &&& final(self).spec_pending().len() == old(self).spec_pending().len()
                    + ds.len()
                &&& forall|i: int|
                    0 <= i < ds.len() ==> (#[trigger] final(self).spec_pending()[old(
                        self,
                    ).spec_pending().len() + i]).path@ == ds[i]@ && final(self).spec_pending()[old(
                        self,
                    ).spec_pending().len() + i].depth == depth + 1
            },
            depth == 5 ==> final(self).spec_pending() == old(self).spec_pending(),
    {
        let mut rest = children;
        let ghost orig_results = self.results@;
        let ghost orig_pending = self.pending@;
        let ghost q = self.query_lower@;
        let ghost sh = self.show_hidden;
        loop
            invariant
                self.query_lower@ == q,
                self.show_hidden == sh,
                self.results@.len() <= 200,
                forall|i: int| 0 <= i < self.pending@.len() ==> (#[trigger] self.pending@[i]).depth
                    <= 5,
                depth <= 5,
                orig_results.len() <= self.results@.len(),
                self.results@.subrange(0, orig_results.len() as int) == orig_results,
                scan(children@, 200 - orig_results.len(), q, sh).0 == self.results@.skip(
                    orig_results.len() as int,
                ) + scan(rest@, 200 - self.results@.len(), q, sh).0,
                orig_pending.len() <= self.pending@.len(),
                self.pending@.subrange(0, orig_pending.len() as int) == orig_pending,
                depth < 5 ==> {
                    let ds = scan(children@, 200 - orig_results.len(), q, sh).1;
                    let added = self.pending@.skip(orig_pending.len() as int);
                    &&& added.len() + scan(rest@, 200 - self.results@.len(), q, sh).1.len()
                        == ds.len()
                    &&& forall|i: int|
                        0 <= i < added.len() ==> (#[trigger] added[i]).path@ == ds[i]@
                            && added[i].depth == depth + 1
                    &&& forall|i: int|
                        0 <= i < scan(rest@, 200 - self.results@.len(), q, sh).1.len() ==> ds[added.len() + i]@ == (#[trigger] scan(rest@, 200 - self.results@.len(), q, sh).1[i])@
                },
                depth == 5 ==> self.pending@ == orig_pending,
            ensures
                self.query_lower@ == q,
                self.show_hidden == sh,
                self.results@.len() <= 200,
                forall|i: int| 0 <= i < self.pending@.len() ==> (#[trigger] self.pending@[i]).depth
                    <= 5,
                orig_results.len() <= self.results@.len(),
                self.results@.subrange(0, orig_results.len() as int) == orig_results,
                scan(children@, 200 - orig_results.len(), q, sh).0 == self.results@.skip(
                    orig_results.len() as int,
                ),
                orig_pending.len() <= self.pending@.len(),
                self.pending@.subrange(0, orig_pending.len() as int) == orig_pending,
                depth < 5 ==> {
                    let ds = scan(children@, 200 - orig_results.len(), q, sh).1;
                    let added = self.pending@.skip(orig_pending.len() as int);
                    &&& added.len() == ds.len()
                    &&& forall|i: int|
                        0 <= i < added.len() ==> (#[trigger] added[i]).path@ == ds[i]@
                            && added[i].depth == depth + 1
                },
                depth == 5 ==> self.pending@ == orig_pending,
            decreases rest@.len(),
        {
            if self.results.len() >= SEARCH_MAX_RESULTS || rest.len() == 0 {
                proof {
                    assert(scan(rest@, 200 - self.results@.len(), q, sh).0
                        =~= Seq::<FileEntry>::empty());
                    assert(scan(rest@, 200 - self.results@.len(), q, sh).1
                        =~= Seq::<String>::empty());
                    assert(self.results@.skip(orig_results.len() as int) + scan(
                        rest@,
                        200 - self.results@.len(),
                        q,
                        sh,
                    ).0 =~= self.results@.skip(orig_results.len() as int));
                }
                break;
            }
            let ghost rest0 = rest@;
            let ghost res0 = self.results@;
            let ghost pen0 = self.pending@;
            let c = rest.remove(0);
            proof {
                assert(rest@ =~= rest0.drop_first());
            }
            let keep = self.show_hidden || !c.is_hidden;
            if keep {
                let low = lowercase(c.name.as_str());
                let matched = contains_chars(low.as_str(), self.query_lower.as_str());
                let schedule: Option<String> = if c.is_dir {
                    Some(c.path.clone())
                } else {
                    None
                };
                let ghost cg = c;
                if matched {
                    self.results.push(c);
                    proof {
                        assert(self.results@ =~= res0.push(cg));
                        assert(self.results@.skip(orig_results.len() as int) =~= res0.skip(
                            orig_results.len() as int,
                        ).push(cg));
                        assert(self.results@.subrange(0, orig_results.len() as int)
                            =~= orig_results);
                    }
                }
                match schedule {
                    Some(p) => {
                        if depth < SEARCH_MAX_DEPTH {
                            let ghost pg = p;
                            self.pending.push(PendingDir { path: p, depth: depth + 1 });
                            proof {
                                assert(self.pending@ =~= pen0.push(
                                    PendingDir { path: pg, depth: (depth + 1) as u64 },
                                ));
                                assert(self.pending@.subrange(0, orig_pending.len() as int)
                                    =~= orig_pending);
                                assert(pg@ == cg.path@);
                            }
                        }
                    },
                    None => {},
                }
                proof {
                    let roomb = 200 - res0.len();
                    let s1r = scan(rest@, 200 - self.results@.len(), q, sh).0;
                    let s1d = scan(rest@, 200 - self.results@.len(), q, sh).1;
                    // One unfolding of the scan of the previous remainder.
                    assert(scan(rest0, roomb, q, sh).0 == (if name_matches(cg.name@, q) {
                        seq![cg] + s1r
                    } else {
                        s1r
                    }));
                    assert(scan(rest0, roomb, q, sh).1 == (if cg.is_dir {
                        seq![cg.path] + s1d
                    } else {
                        s1d
                    }));
                    assert(scan(children@, 200 - orig_results.len(), q, sh).0 == self.results@.skip(
                        orig_results.len() as int,
                    ) + s1r);
                    if depth < 5 {
                        let ds = scan(children@, 200 - orig_results.len(), q, sh).1;
                        let added0 = pen0.skip(orig_pending.len() as int);
                        let added = self.pending@.skip(orig_pending.len() as int);
                        let s0d = scan(rest0, roomb, q, sh).1;
                        if cg.is_dir {
                            assert(added =~= added0.push(self.pending@.last()));
                            assert(s0d[0] == cg.path);
                            assert(ds[added0.len() as int]@ == s0d[0]@);
                            assert forall|i: int| 0 <= i < added.len() implies (#[trigger] added[i]).path@
                                == ds[i]@ && added[i].depth == depth + 1 by {
                                if i < added0.len() {
                                    assert(added0[i].path@ == ds[i]@);
                                } else {
                                    assert(added[i] == self.pending@.last());
                                    assert(added[i].path@ == cg.path@);
                                }
                            }
                            assert forall|i: int| 0 <= i < s1d.len() implies ds[added.len() + i]@
                                == (#[trigger] s1d[i])@ by {
                                assert(s0d[i + 1] == s1d[i]);
                                assert(ds[added0.len() + i + 1]@ == s0d[i + 1]@);
                            }
                        } else {
                            assert(added =~= added0);
                            assert(s0d =~= s1d);
                        }
                    }
                }
            } else {
                proof {
                    assert(scan(rest0, 200 - self.results@.len(), q, sh).0 == scan(
                        rest@,
                        200 - self.results@.len(),
                        q,
                        sh,
                    ).0);
                    assert(scan(rest0, 200 - self.results@.len(), q, sh).1 == scan(
                        rest@,
                        200 - self.results@.len(),
                        q,
                        sh,
                    ).1);
                }
            }
        }
        proof {
            assert(self.results@ =~= orig_results + self.results@.skip(orig_results.len() as int));
            if depth < 5 {
                let ds = scan(children@, 200 - orig_results.len(), q, sh).1;
                let added = self.pending@.skip(orig_pending.len() as int);
                assert(self.pending@.len() == orig_pending.len() + added.len());
                assert forall|i: int| 0 <= i < orig_pending.len() implies self.pending@[i]
                    == orig_pending[i] by {
                    assert(self.pending@.subrange(0, orig_pending.len() as int)[i]
                        == self.pending@[i]);
                }
                assert forall|i: int| 0 <= i < ds.len() implies (#[trigger] self.pending@[
                    orig_pending.len() + i]).path@ == ds[i]@ && self.pending@[orig_pending.len()
                    + i].depth == depth + 1 by {
                    assert(added[i] == self.pending@[orig_pending.len() + i]);
                }
            } else {
                assert forall|i: int| 0 <= i < orig_pending.len() implies self.pending@[i]
                    == orig_pending[i] by {}
            }
        }
    }

    /// Finishes the search: at most `SEARCH_MAX_RESULTS` entries.
    pub fn into_results(self) -> (r: Vec<FileEntry>)
        requires
            self.wf(),
        ensures
            r@ == self.spec_results(),
            r@.len() <= 200,
    {
        self.results
    }
}

} // verus!
