//! The recursive tree copy: duplicating a directory and all descendants
//! while preserving the relative structure.
//!
//! Like the search engine, the walk keeps an explicit work list instead of
//! recursing on the native stack.  The machine stores only relative paths
//! and derives both absolute sides from them, so every emitted file copy
//! pairs the identical relative path under the source root and under the
//! destination root — the structure-preservation guarantee.  The caller
//! creates each handed-out directory before enumerating its source side,
//! and performs each file copy through the bounded-retry machine.

use vstd::prelude::*;
use vstd::string::StringExecFns;
use crate::path::{path_join, spec_join};

verus! {

/// A source or destination position inside the copied tree: the tree root
/// itself for the empty relative path, else the root joined with it.
pub open spec fn spec_at(root: Seq<char>, rel: Seq<char>) -> Seq<char> {
    if rel.len() == 0 {
        root
    } else {
        spec_join(root, rel)
    }
}

/// The relative path of a child of the directory at `rel`.
pub open spec fn spec_child_rel(rel: Seq<char>, name: Seq<char>) -> Seq<char> {
    if rel.len() == 0 {
        name
    } else {
        spec_join(rel, name)
    }
}

/// One directory to reproduce: create `dst`, then enumerate `src` and
/// offer what was found.
pub struct TreeDir {
    pub rel: String,
    pub src: String,
    pub dst: String,
}

/// One file to copy, standing at the same relative path on both sides.
pub struct TreeFileCopy {
    pub rel: String,
    pub src: String,
    pub dst: String,
}

/// What the caller found in a source directory: a child's name and kind.
pub struct ChildProbe {
    pub name: String,
    pub is_dir: bool,
}

/// The relative paths of the file children (left) and directory children
/// (right) of the directory at `rel`, in enumeration order.
pub open spec fn spec_tree_scan(children: Seq<ChildProbe>, rel: Seq<char>) -> (Seq<Seq<char>>, Seq<
    Seq<char>,
>)
    decreases children.len(),
{
    if children.len() == 0 {
        (Seq::<Seq<char>>::empty(), Seq::<Seq<char>>::empty())
    } else {
        let c = children[0];
        let cr = spec_child_rel(rel, c.name@);
        let rest = spec_tree_scan(children.drop_first(), rel);
        if c.is_dir {
            (rest.0, seq![cr] + rest.1)
        } else {
            (seq![cr] + rest.0, rest.1)
        }
    }
}

/// The tree-copy machine.
pub struct TreeCopyMachine {
    src_root: String,
    dst_root: String,
    pending: Vec<String>,
}

impl TreeCopyMachine {
    pub closed spec fn spec_src_root(self) -> Seq<char> {
        self.src_root@
    }

    pub closed spec fn spec_dst_root(self) -> Seq<char> {
        self.dst_root@
    }

    pub closed spec fn spec_pending(self) -> Seq<Seq<char>> {
        Seq::new(self.pending@.len(), |i: int| self.pending@[i]@)
    }

    /// Starts a copy of the tree at `src_root` to `dst_root`: the root
    /// itself is the first directory to reproduce.
    pub fn new(src_root: String, dst_root: String) -> (r: TreeCopyMachine)
        ensures
            r.spec_src_root() == src_root@,
            r.spec_dst_root() == dst_root@,
            r.spec_pending() =~= seq![Seq::<char>::empty()],
    {
        let mut pending: Vec<String> = Vec::new();
        pending.push(String::new());
        let r = TreeCopyMachine { src_root, dst_root, pending };
        proof {
            assert(r.spec_pending() =~= seq![Seq::<char>::empty()]);
        }
        r
    }

    /// Hands out the next directory to reproduce, or `None` when the walk
    /// is complete.  Both absolute sides stand at the same relative path
    /// under their roots.
    pub fn next_dir(&mut self) -> (r: Option<TreeDir>)
        ensures
            final(self).spec_src_root() == old(self).spec_src_root(),
            final(self).spec_dst_root() == old(self).spec_dst_root(),
            match r {
                None => old(self).spec_pending().len() == 0 && final(self).spec_pending()
                    =~= old(self).spec_pending(),
                Some(d) => {
                    &&& old(self).spec_pending().len() > 0
                    &&& d.rel@ == old(self).spec_pending().last()
                    &&& d.src@ == spec_at(old(self).spec_src_root(), d.rel@)
                    &&& d.dst@ == spec_at(old(self).spec_dst_root(), d.rel@)
                    &&& final(self).spec_pending() =~= old(self).spec_pending().drop_last()
                },
            },
    {
        let rel = match self.pending.pop() {
            Some(rel) => rel,
            None => {
                return None;
            },
        };
        let src: String;
        let dst: String;
        if rel.as_str().unicode_len() == 0 {
            src = self.src_root.clone();
            dst = self.dst_root.clone();
        } else {
            src = path_join(self.src_root.as_str(), rel.as_str());
            dst = path_join(self.dst_root.as_str(), rel.as_str());
        }
        Some(TreeDir { rel, src, dst })
    }

    /// Consumes what the caller found in the source directory at `rel`:
    /// every subdirectory is scheduled, and every file is returned as a
    /// copy whose source and destination stand at the identical relative
    /// path under the two roots.
    pub fn offer_children(&mut self, dir: &TreeDir, children: &Vec<ChildProbe>) -> (r: Vec<
        TreeFileCopy,
    >)
        requires
            dir.src@ == spec_at(old(self).spec_src_root(), dir.rel@),
            dir.dst@ == spec_at(old(self).spec_dst_root(), dir.rel@),
            forall|i: int| 0 <= i < children@.len() ==> (#[trigger] children@[i]).name@.len() > 0,
        ensures
            final(self).spec_src_root() == old(self).spec_src_root(),
            final(self).spec_dst_root() == old(self).spec_dst_root(),
            r@.len() == spec_tree_scan(children@, dir.rel@).0.len(),
            forall|i: int|
                0 <= i < r@.len() ==> {
                    let fr = spec_tree_scan(children@, dir.rel@).0[i];
                    &&& (#[trigger] r@[i]).rel@ == fr
                    &&& r@[i].src@ == spec_at(old(self).spec_src_root(), fr)
                    &&& r@[i].dst@ == spec_at(old(self).spec_dst_root(), fr)
                },
            final(self).spec_pending().len() == old(self).spec_pending().len() + spec_tree_scan(
                children@,
                dir.rel@,
            ).1.len(),
            forall|i: int|
                0 <= i < old(self).spec_pending().len()
                    ==> final(self).spec_pending()[i] == old(self).spec_pending()[i],
            forall|i: int|
                0 <= i < spec_tree_scan(children@, dir.rel@).1.len()
                    ==> final(self).spec_pending()[old(self).spec_pending().len() + i]
                    == #[trigger] spec_tree_scan(children@, dir.rel@).1[i],
    {
        let ghost pen0 = self.spec_pending();
        let mut files: Vec<TreeFileCopy> = Vec::new();
        let mut i: usize = 0;
        let n = children.len();
        proof {
            assert(children@.skip(0) =~= children@);
        }
        while i < n
            invariant
                n == children@.len(),
                i <= n,
                self.spec_src_root() == old(self).spec_src_root(),
                self.spec_dst_root() == old(self).spec_dst_root(),
                dir.src@ == spec_at(old(self).spec_src_root(), dir.rel@),
                dir.dst@ == spec_at(old(self).spec_dst_root(), dir.rel@),
                forall|k: int| 0 <= k < children@.len() ==> (#[trigger] children@[k]).name@.len()
                    > 0,
                spec_tree_scan(children@, dir.rel@).0 =~= Seq::new(
                    files@.len(),
                    |k: int| files@[k].rel@,
                ) + spec_tree_scan(children@.skip(i as int), dir.rel@).0,
                forall|k: int|
                    0 <= k < files@.len() ==> {
                        let fr = (#[trigger] files@[k]).rel@;
                        &&& files@[k].src@ == spec_at(old(self).spec_src_root(), fr)
                        &&& files@[k].dst@ == spec_at(old(self).spec_dst_root(), fr)
                    },
                spec_tree_scan(children@, dir.rel@).1 =~= self.spec_pending().skip(
                    pen0.len() as int,
                ) + spec_tree_scan(children@.skip(i as int), dir.rel@).1,
                pen0.len() <= self.spec_pending().len(),
                forall|k: int|
                    0 <= k < pen0.len() ==> #[trigger] self.spec_pending()[k] == pen0[k],
            decreases n - i,
        {
            let ghost tail0 = children@.skip(i as int);
            proof {
                assert(tail0[0] == children@[i as int]);
                assert(tail0.drop_first() =~= children@.skip(i as int + 1));
            }
            let c = &children[i];
            proof {
                assert((#[trigger] children@[i as int]).name@.len() > 0);
            }
            let crel: String = if dir.rel.as_str().unicode_len() == 0 {
                c.name.clone()
            } else {
                path_join(dir.rel.as_str(), c.name.as_str())
            };
            proof {
                assert(crel@ == spec_child_rel(dir.rel@, c.name@));
            }
            if c.is_dir {
                let ghost pcur = self.spec_pending();
                self.pending.push(crel);
                proof {
                    assert(self.spec_pending() =~= pcur.push(spec_child_rel(dir.rel@, c.name@)));
                    assert(self.spec_pending().skip(pen0.len() as int) =~= pcur.skip(
                        pen0.len() as int,
                    ).push(spec_child_rel(dir.rel@, c.name@)));
                    assert(spec_tree_scan(children@, dir.rel@).1 =~= self.spec_pending().skip(
                        pen0.len() as int,
                    ) + spec_tree_scan(children@.skip(i as int + 1), dir.rel@).1);
                }
            } else {
                let src = path_join(dir.src.as_str(), c.name.as_str());
                let dst = path_join(dir.dst.as_str(), c.name.as_str());
                // The absolute sides of a child: joining the child name
                // onto a position equals standing at the child's relative
                // path.
                proof {
                    lemma_at_child(old(self).spec_src_root(), dir.rel@, c.name@);
                    lemma_at_child(old(self).spec_dst_root(), dir.rel@, c.name@);
                }
                let ghost f0 = files@;
                files.push(TreeFileCopy { rel: crel, src, dst });
                proof {
                    assert(Seq::new(files@.len(), |k: int| files@[k].rel@) =~= Seq::new(
                        f0.len(),
                        |k: int| f0[k].rel@,
                    ).push(spec_child_rel(dir.rel@, c.name@)));
                    assert(spec_tree_scan(children@, dir.rel@).0 =~= Seq::new(
                        files@.len(),
                        |k: int| files@[k].rel@,
                    ) + spec_tree_scan(children@.skip(i as int + 1), dir.rel@).0);
                }
            }
            i += 1;
        }
        proof {
            assert(children@.skip(n as int) =~= Seq::<ChildProbe>::empty());
            assert(spec_tree_scan(children@, dir.rel@).0 =~= Seq::new(
                files@.len(),
                |k: int| files@[k].rel@,
            ));
            assert(spec_tree_scan(children@, dir.rel@).1 =~= self.spec_pending().skip(
                pen0.len() as int,
            ));
        }
        files
    }
}

/// Joining a child name onto the absolute position of `rel` lands at the
/// absolute position of the child's relative path.
proof fn lemma_at_child(root: Seq<char>, rel: Seq<char>, name: Seq<char>)
    requires
        name.len() > 0,
    ensures
        spec_join(spec_at(root, rel), name) == spec_at(root, spec_child_rel(rel, name)),
{
    if rel.len() == 0 {
    } else {
        assert(spec_join(spec_join(root, rel), name) =~= spec_join(root, spec_join(rel, name)));
        assert(spec_child_rel(rel, name).len() > 0);
    }
}

} // verus!
