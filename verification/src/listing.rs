//! The directory lister: hidden-entry filtering and the listing order.
//!
//! The ordering invariant: directories sort before files, and within each
//! group names compare case-insensitively ascending.

use vstd::prelude::*;
use vstd::multiset::Multiset;
use vstd::seq_lib::group_to_multiset_ensures;
use vstd::string::StringExecFns;
use crate::entry::{DirContents, FileEntry};
use crate::errors::FsError;
use crate::path::{path_parent, spec_parent};
use crate::text::{lex_le, lemma_lex_le_total, lemma_lex_le_trans, lower_of, lowercase, str_lex_le};

verus! {

broadcast use group_to_multiset_ensures;

/// Validates the subject of a listing: it must exist and be a directory.
pub fn validate_dir(path: &str, exists: bool, is_dir: bool) -> (r: Result<(), FsError>)
    ensures
        !exists ==> (r matches Err(FsError::NotFound { path: p }) && p@ == path@),
        exists && !is_dir ==> (r matches Err(FsError::NotADirectory { path: p }) && p@ == path@),
        exists && is_dir ==> r is Ok,
{
    if !exists {
        Err(FsError::NotFound { path: String::from_str(path) })
    } else if !is_dir {
        Err(FsError::NotADirectory { path: String::from_str(path) })
    } else {
        Ok(())
    }
}

/// The listing order: directories first; within one kind, ascending
/// case-insensitive name order.
pub open spec fn entry_le(a: FileEntry, b: FileEntry) -> bool {
    if a.is_dir != b.is_dir {
        a.is_dir
    } else {
        lex_le(lower_of(a.name@), lower_of(b.name@))
    }
}

/// Every pair of a listing stands in the listing order.
pub open spec fn entries_sorted(s: Seq<FileEntry>) -> bool {
    forall|i: int, j: int| 0 <= i < j < s.len() ==> entry_le(s[i], s[j])
}

/// An entry passes the hidden filter.
pub open spec fn keeps(e: FileEntry, show_hidden: bool) -> bool {
    show_hidden || !e.is_hidden
}

/// The hidden filter as a predicate on entries.
pub open spec fn keep_pred(show_hidden: bool) -> spec_fn(FileEntry) -> bool {
    |e: FileEntry| show_hidden || !e.is_hidden
}

pub proof fn lemma_entry_le_total(a: FileEntry, b: FileEntry)
    ensures
        entry_le(a, b) || entry_le(b, a),
{
    lemma_lex_le_total(lower_of(a.name@), lower_of(b.name@));
}

pub proof fn lemma_entry_le_trans(a: FileEntry, b: FileEntry, c: FileEntry)
    requires
        entry_le(a, b),
        entry_le(b, c),
    ensures
        entry_le(a, c),
{
    if a.is_dir == b.is_dir && b.is_dir == c.is_dir {
        lemma_lex_le_trans(lower_of(a.name@), lower_of(b.name@), lower_of(c.name@));
    }
}

/// An entry paired with its case-folded sort key.
struct Keyed {
    entry: FileEntry,
    key: String,
}

spec fn keyed_ok(k: Keyed) -> bool {
    k.key@ == lower_of(k.entry.name@)
}

spec fn entries_of(s: Seq<Keyed>) -> Seq<FileEntry> {
    s.map_values(|k: Keyed| k.entry)
}

fn keyed_le(a: &Keyed, b: &Keyed) -> (r: bool)
    requires
        keyed_ok(*a),
        keyed_ok(*b),
    ensures
        r == entry_le(a.entry, b.entry),
{
    if a.entry.is_dir != b.entry.is_dir {
        a.entry.is_dir
    } else {
        str_lex_le(a.key.as_str(), b.key.as_str())
    }
}

fn find_min_index(v: &Vec<Keyed>) -> (m: usize)
    requires
        v@.len() > 0,
        forall|i: int| 0 <= i < v@.len() ==> keyed_ok(#[trigger] v@[i]),
    ensures
        m < v@.len(),
        forall|k: int| 0 <= k < v@.len() ==> entry_le(v@[m as int].entry, #[trigger] v@[k].entry),
{
    let mut m: usize = 0;
    let mut j: usize = 1;
    proof {
        lemma_entry_le_total(v@[0].entry, v@[0].entry);
    }
    while j < v.len()
        invariant
            m < j <= v@.len(),
            forall|i: int| 0 <= i < v@.len() ==> keyed_ok(#[trigger] v@[i]),
            forall|k: int| 0 <= k < j ==> entry_le(v@[m as int].entry, #[trigger] v@[k].entry),
        decreases v@.len() - j,
    {
        let le = keyed_le(&v[m], &v[j]);
        if !le {
            proof {
                lemma_entry_le_total(v@[m as int].entry, v@[j as int].entry);
                assert forall|k: int| 0 <= k < j + 1 implies entry_le(
                    v@[j as int].entry,
                    #[trigger] v@[k].entry,
                ) by {
                    if k < j {
                        lemma_entry_le_trans(v@[j as int].entry, v@[m as int].entry, v@[k].entry);
                    } else {
                        lemma_entry_le_total(v@[j as int].entry, v@[j as int].entry);
                    }
                }
            }
            m = j;
        } else {
            proof {
                assert forall|k: int| 0 <= k < j + 1 implies entry_le(
                    v@[m as int].entry,
                    #[trigger] v@[k].entry,
                ) by {}
            }
        }
        j += 1;
    }
    m
}

fn sort_keyed(v: Vec<Keyed>) -> (out: Vec<Keyed>)
    requires
        forall|i: int| 0 <= i < v@.len() ==> keyed_ok(#[trigger] v@[i]),
    ensures
        entries_of(out@).to_multiset() == entries_of(v@).to_multiset(),
        entries_sorted(entries_of(out@)),
{
    let mut rest = v;
    let ghost orig = entries_of(rest@);
    let mut out: Vec<Keyed> = Vec::new();
    while rest.len() > 0
        invariant
            forall|i: int| 0 <= i < rest@.len() ==> keyed_ok(#[trigger] rest@[i]),
            entries_of(out@).to_multiset().add(entries_of(rest@).to_multiset())
                == orig.to_multiset(),
            entries_sorted(entries_of(out@)),
            forall|i: int, j: int|
                0 <= i < out@.len() && 0 <= j < rest@.len() ==> entry_le(
                    #[trigger] entries_of(out@)[i],
                    #[trigger] entries_of(rest@)[j],
                ),
        decreases rest@.len(),
    {
        let ghost rest0 = rest@;
        let ghost out0 = out@;
        let m = find_min_index(&rest);
        let x = rest.remove(m);
        out.push(x);
        proof {
            assert(entries_of(rest@) =~= entries_of(rest0).remove(m as int));
            assert(entries_of(out@) =~= entries_of(out0).push(x.entry));
            entries_of(rest0).to_multiset_ensures();
            entries_of(out0).to_multiset_ensures();
            assert(entries_of(rest0)[m as int] == x.entry);
            assert(entries_of(rest0).contains(x.entry));
            assert(entries_of(rest0).to_multiset().count(x.entry) > 0);
            assert(entries_of(out@).to_multiset().add(entries_of(rest@).to_multiset())
                =~= orig.to_multiset());
            // The appended element follows everything already placed and
            // precedes everything that remains.
            assert forall|i: int, j: int|
                0 <= i < out@.len() && 0 <= j < rest@.len() implies entry_le(
                #[trigger] entries_of(out@)[i],
                #[trigger] entries_of(rest@)[j],
            ) by {
                let rj = entries_of(rest@)[j];
                assert(entries_of(rest0).remove(m as int)[j] == rj);
                assert(exists|k: int|
                    0 <= k < rest0.len() && entries_of(rest0)[k] == rj) by {
                    if j < m {
                        assert(entries_of(rest0)[j] == rj);
                    } else {
                        assert(entries_of(rest0)[j + 1] == rj);
                    }
                }
                let k = choose|k: int| 0 <= k < rest0.len() && entries_of(rest0)[k] == rj;
                if i < out0.len() {
                    assert(entry_le(entries_of(out0)[i], x.entry));
                    lemma_entry_le_trans(entries_of(out0)[i], x.entry, rj);
                } else {
                    assert(entries_of(out@)[i] == x.entry);
                }
            }
            assert forall|i: int, j: int|
                0 <= i < j < entries_of(out@).len() implies entry_le(
                #[trigger] entries_of(out@)[i],
                #[trigger] entries_of(out@)[j],
            ) by {
                if j < out0.len() {
                    assert(entry_le(entries_of(out0)[i], entries_of(out0)[j]));
                } else {
                    assert(entries_of(out@)[j] == x.entry);
                    assert(entry_le(entries_of(out0)[i], x.entry));
                }
            }
        }
    }
    proof {
        assert(entries_of(rest@).to_multiset() =~= Multiset::<FileEntry>::empty());
        assert(entries_of(out@).to_multiset() =~= orig.to_multiset());
    }
    out
}

/// Assembles the listing of one directory: the caller enumerates the
/// children and resolves each to an entry (silently skipping children that
/// failed resolution); this filters hidden entries, sorts, and derives the
/// parent path.
pub fn list_core(path: &str, children: Vec<FileEntry>, show_hidden: bool) -> (r: DirContents)
    requires
        forall|i: int| 0 <= i < children@.len() ==> (#[trigger] children@[i]).wf(),
    ensures
        r.path@ == path@,
        (match r.parent {
            Some(d) => spec_parent(path@) == Some(d@),
            None => spec_parent(path@) is None,
        }),
        entries_sorted(r.entries@),
        r.entries@.to_multiset() == children@.filter(keep_pred(show_hidden)).to_multiset(),
        forall|i: int|
            0 <= i < r.entries@.len() ==> (#[trigger] r.entries@[i]).wf() && keeps(
                r.entries@[i],
                show_hidden,
            ),
{
    let mut remaining = children;
    let ghost orig = remaining@;
    let mut kept: Vec<Keyed> = Vec::new();
    proof {
        reveal(Seq::filter);
        assert(orig.subrange(0, orig.len() as int) =~= orig);
    }
    while remaining.len() > 0
        invariant
            remaining@.len() <= orig.len(),
            remaining@ == orig.subrange(0, remaining@.len() as int),
            forall|i: int| 0 <= i < orig.len() ==> (#[trigger] orig[i]).wf(),
            forall|i: int|
                0 <= i < kept@.len() ==> keyed_ok(#[trigger] kept@[i]) && kept@[i].entry.wf()
                    && keeps(kept@[i].entry, show_hidden),
            entries_of(kept@).to_multiset().add(remaining@.filter(keep_pred(show_hidden)).to_multiset()) == orig.filter(keep_pred(show_hidden)).to_multiset(),
        decreases remaining@.len(),
    {
        let ghost rem0 = remaining@;
        let ghost kept0 = kept@;
        let e = remaining.pop().unwrap();
        proof {
            reveal(Seq::filter);
            assert(rem0 == orig.subrange(0, rem0.len() as int));
            assert(orig.subrange(0, rem0.len() as int).drop_last() =~= orig.subrange(
                0,
                rem0.len() - 1,
            ));
            assert(rem0.drop_last() =~= remaining@);
            assert(remaining@ =~= orig.subrange(0, remaining@.len() as int));
            assert(rem0[rem0.len() - 1] == orig.subrange(0, rem0.len() as int)[rem0.len() - 1]);
        }
        let keep = if show_hidden {
            true
        } else {
            !e.is_hidden
        };
        if keep {
            let key = lowercase(e.name.as_str());
            kept.push(Keyed { entry: e, key });
            proof {
                reveal(Seq::filter);
                assert(entries_of(kept@) =~= entries_of(kept0).push(kept@.last().entry));
                entries_of(kept0).to_multiset_ensures();
                remaining@.filter(keep_pred(show_hidden))
                    .to_multiset_ensures();
                assert(rem0.filter(keep_pred(show_hidden))
                    =~= remaining@.filter(keep_pred(show_hidden)).push(
                    rem0.last(),
                ));
                assert(entries_of(kept@).to_multiset().add(remaining@.filter(keep_pred(show_hidden)).to_multiset()) =~= orig.filter(keep_pred(show_hidden)).to_multiset());
            }
        } else {
            proof {
                reveal(Seq::filter);
                assert(rem0.filter(keep_pred(show_hidden))
                    =~= remaining@.filter(keep_pred(show_hidden)));
            }
        }
    }
    proof {
        reveal(Seq::filter);
        assert(remaining@.filter(keep_pred(show_hidden))
            =~= Seq::<FileEntry>::empty());
        assert(remaining@.filter(keep_pred(show_hidden)).to_multiset()
            =~= Multiset::<FileEntry>::empty());
    }
    let ghost keptseq = entries_of(kept@);
    proof {
        assert(forall|k: int|
            0 <= k < keptseq.len() ==> (#[trigger] keptseq[k]).wf() && keeps(
                keptseq[k],
                show_hidden,
            ));
        assert(keptseq.to_multiset().add(Multiset::<FileEntry>::empty())
            =~= keptseq.to_multiset());
        assert(keptseq.to_multiset() == orig.filter(keep_pred(show_hidden)).to_multiset());
    }
    let sorted = sort_keyed(kept);
    let ghost keptset = entries_of(sorted@);
    let mut entries: Vec<FileEntry> = Vec::new();
    let mut rest = sorted;
    while rest.len() > 0
        invariant
            entries@ + entries_of(rest@) == keptset,
        decreases rest@.len(),
    {
        let ghost rest0 = rest@;
        let x = rest.remove(0);
        entries.push(x.entry);
        proof {
            assert(entries_of(rest@) =~= entries_of(rest0).remove(0));
            assert(entries@ + entries_of(rest@) =~= keptset);
        }
    }
    proof {
        assert(entries@ =~= keptset);
        // Every produced entry came from the kept set: well-formed and
        // passing the filter.
        assert forall|i: int|
            0 <= i < entries@.len() implies (#[trigger] entries@[i]).wf() && keeps(
            entries@[i],
            show_hidden,
        ) by {
            let x = entries@[i];
            assert(keptset[i] == x);
            assert(keptset.contains(x));
            keptset.to_multiset_ensures();
            keptseq.to_multiset_ensures();
            assert(keptset.to_multiset().count(x) > 0);
            assert(keptseq.contains(x));
            let k = choose|k: int| 0 <= k < keptseq.len() && keptseq[k] == x;
            assert(keptseq[k].wf() && keeps(keptseq[k], show_hidden));
        }
        assert(entries@.to_multiset() == children@.filter(keep_pred(show_hidden)).to_multiset());
    }
    let parent = path_parent(path);
    DirContents { path: String::from_str(path), entries, parent }
}

} // verus!
