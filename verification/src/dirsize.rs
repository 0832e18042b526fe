//! On-demand recursive directory size: a work-list scan that sums the
//! byte lengths of every file under a root, saturating at the type's
//! ceiling rather than overflowing.

use vstd::prelude::*;

verus! {

/// What the caller found out about one child while sizing a tree.
pub struct SizeProbe {
    pub path: String,
    pub is_dir: bool,
    pub len: u64,
}

/// The byte lengths of the file children, summed without bound.
pub open spec fn spec_file_size_sum(children: Seq<SizeProbe>) -> int
    decreases children.len(),
{
    if children.len() == 0 {
        0
    } else {
        (if children[0].is_dir {
            0
        } else {
            children[0].len as int
        }) + spec_file_size_sum(children.drop_first())
    }
}

/// Sum saturating at the `u64` ceiling.
pub open spec fn spec_sat_add(a: int, b: int) -> int {
    if a + b > u64::MAX {
        u64::MAX as int
    } else {
        a + b
    }
}

/// The directory-size scanner.
pub struct DirSizeScan {
    pending: Vec<String>,
    total: u64,
}

impl DirSizeScan {
    pub closed spec fn spec_total(self) -> u64 {
        self.total
    }

    pub closed spec fn spec_pending(self) -> Seq<Seq<char>> {
        Seq::new(self.pending@.len(), |i: int| self.pending@[i]@)
    }

    /// Starts sizing the tree under `root`.
    pub fn new(root: String) -> (r: DirSizeScan)
        ensures
            r.spec_total() == 0,
            r.spec_pending() =~= seq![root@],
    {
        let mut pending: Vec<String> = Vec::new();
        let ghost rootv = root@;
        pending.push(root);
        let r = DirSizeScan { pending, total: 0 };
        proof {
            assert(r.spec_pending() =~= seq![rootv]);
        }
        r
    }

    /// Hands out the next directory to enumerate, or `None` when done.
    pub fn next_dir(&mut self) -> (r: Option<String>)
        ensures
            final(self).spec_total() == old(self).spec_total(),
            match r {
                None => old(self).spec_pending().len() == 0 && final(self).spec_pending()
                    =~= old(self).spec_pending(),
                Some(d) => old(self).spec_pending().len() > 0 && d@ == old(
                    self,
                ).spec_pending().last() && final(self).spec_pending() =~= old(
                    self,
                ).spec_pending().drop_last(),
            },
    {
        self.pending.pop()
    }

    /// Consumes the children of one enumerated directory: file sizes are
    /// added (saturating), subdirectories queued.  A directory that could
    /// not be read is simply never offered: its subtree counts as zero.
    pub fn offer_children(&mut self, children: &Vec<SizeProbe>)
        ensures
            final(self).spec_total() as int == spec_sat_add(
                old(self).spec_total() as int,
                spec_file_size_sum(children@),
            ),
            final(self).spec_pending().len() >= old(self).spec_pending().len(),
            forall|i: int|
                0 <= i < old(self).spec_pending().len() ==> final(self).spec_pending()[i] == old(
                    self,
                ).spec_pending()[i],
    {
        let mut i: usize = 0;
        let n = children.len();
        let ghost pen0 = self.spec_pending();
        let ghost tot0 = self.total;
        proof {
            assert(children@.skip(0) =~= children@);
            lemma_file_size_sum_nonneg(children@);
        }
        while i < n
            invariant
                n == children@.len(),
                i <= n,
                self.spec_total() as int == spec_sat_add(
                    tot0 as int,
                    spec_file_size_sum(children@) - spec_file_size_sum(children@.skip(i as int)),
                ),
                spec_file_size_sum(children@.skip(i as int)) >= 0,
                spec_file_size_sum(children@) - spec_file_size_sum(children@.skip(i as int)) >= 0,
                pen0.len() <= self.spec_pending().len(),
                forall|k: int|
                    0 <= k < pen0.len() ==> #[trigger] self.spec_pending()[k] == pen0[k],
            decreases n - i,
        {
            let ghost tail0 = children@.skip(i as int);
            proof {
                assert(tail0[0] == children@[i as int]);
                assert(tail0.drop_first() =~= children@.skip(i as int + 1));
                lemma_file_size_sum_nonneg(children@.skip(i as int + 1));
            }
            let c = &children[i];
            if c.is_dir {
                let ghost pcur = self.spec_pending();
                self.pending.push(c.path.clone());
                proof {
                    assert(self.spec_pending() =~= pcur.push(children@[i as int].path@));
                }
            } else {
                if self.total > u64::MAX - c.len {
                    self.total = u64::MAX;
                } else {
                    self.total = self.total + c.len;
                }
            }
            i += 1;
        }
        proof {
            assert(children@.skip(n as int) =~= Seq::<SizeProbe>::empty());
        }
    }

    /// Finishes the scan: the saturated sum of every offered file size.
    pub fn into_total(self) -> (r: u64)
        ensures
            r == self.spec_total(),
    {
        self.total
    }
}

proof fn lemma_file_size_sum_nonneg(children: Seq<SizeProbe>)
    ensures
        spec_file_size_sum(children) >= 0,
    decreases children.len(),
{
    if children.len() > 0 {
        lemma_file_size_sum_nonneg(children.drop_first());
    }
}

} // verus!
