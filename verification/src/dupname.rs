//! Collision-safe duplicate naming: `stem - Copy.ext`, then
//! `stem - Copy (2).ext`, `(3)`, and so on until a free name is found.
//!
//! Termination is a theorem here, not a hope: the candidates are pairwise
//! distinct (decimal texts of distinct numbers differ), so among the first
//! `taken.len() + 1` candidates at least one is not taken.

use vstd::prelude::*;
use vstd::set_lib::lemma_len_subset;
use vstd::seq_lib::seq_to_set_is_finite;
use vstd::string::StrSliceExecFns;
use vstd::string::StringExecFns;
use crate::path::{
    path_file_name, path_join, spec_file_name, spec_join, spec_parent, spec_stem, spec_dot_ext,
    valid_name, path_parent, split_stem_ext,
};
use crate::text::{dec_digits, dec_str, lemma_dec_digits_injective};

verus! {

/// The infix written between stem and counter.
pub open spec fn marker_copy() -> Seq<char> {
    seq![' ', '-', ' ', 'C', 'o', 'p', 'y']
}

pub open spec fn marker_open() -> Seq<char> {
    seq![' ', '(']
}

pub open spec fn marker_close() -> Seq<char> {
    seq![')']
}

/// The `k`-th candidate name for a duplicate of `stem` + `ext`: the first
/// has no counter, later ones count up from 2.
pub open spec fn copy_candidate(stem: Seq<char>, ext: Seq<char>, k: int) -> Seq<char> {
    if k <= 1 {
        stem + marker_copy() + ext
    } else {
        stem + marker_copy() + marker_open() + dec_digits(k as nat) + marker_close() + ext
    }
}

/// `n` is one of the names in `taken`.
pub open spec fn name_taken(taken: Seq<String>, n: Seq<char>) -> bool {
    exists|i: int| 0 <= i < taken.len() && (#[trigger] taken[i])@ == n
}

proof fn lemma_dec_digits_len_min(n: nat)
    ensures
        dec_digits(n).len() >= 1,
    decreases n,
{
    if n >= 10 {
        lemma_dec_digits_len_min(n / 10);
    }
}

/// Distinct counters give distinct candidate names.
pub proof fn lemma_candidate_injective(stem: Seq<char>, ext: Seq<char>, k1: int, k2: int)
    requires
        k1 >= 1,
        k2 >= 1,
        copy_candidate(stem, ext, k1) == copy_candidate(stem, ext, k2),
    ensures
        k1 == k2,
{
    let c1 = copy_candidate(stem, ext, k1);
    let c2 = copy_candidate(stem, ext, k2);
    if k1 == 1 && k2 == 1 {
    } else if k1 == 1 && k2 > 1 {
        lemma_dec_digits_len_min(k2 as nat);
        assert(c1.len() < c2.len());
    } else if k1 > 1 && k2 == 1 {
        lemma_dec_digits_len_min(k1 as nat);
        assert(c2.len() < c1.len());
    } else {
        let d1 = dec_digits(k1 as nat);
        let d2 = dec_digits(k2 as nat);
        assert(c1.len() == stem.len() + 9 + d1.len() + 1 + ext.len());
        assert(c2.len() == stem.len() + 9 + d2.len() + 1 + ext.len());
        assert(d1.len() == d2.len());
        assert forall|i: int| 0 <= i < d1.len() implies d1[i] == d2[i] by {
            assert(c1[stem.len() + 9 + i] == d1[i]);
            assert(c2[stem.len() + 9 + i] == d2[i]);
        }
        assert(d1 =~= d2);
        lemma_dec_digits_injective(k1 as nat, k2 as nat);
    }
}

/// The set of the first `m` candidate names.
pub open spec fn candidate_set(stem: Seq<char>, ext: Seq<char>, m: int) -> Set<Seq<char>>
    decreases m,
{
    if m < 1 {
        Set::<Seq<char>>::empty()
    } else {
        candidate_set(stem, ext, m - 1).insert(copy_candidate(stem, ext, m))
    }
}

proof fn lemma_candidate_set(stem: Seq<char>, ext: Seq<char>, m: int)
    requires
        m >= 0,
    ensures
        candidate_set(stem, ext, m).finite(),
        candidate_set(stem, ext, m).len() == m,
        forall|s: Seq<char>|
            candidate_set(stem, ext, m).contains(s) <==> exists|j: int|
                1 <= j <= m && s == #[trigger] copy_candidate(stem, ext, j),
    decreases m,
{
    if m == 0 {
        assert(candidate_set(stem, ext, 0) =~= Set::<Seq<char>>::empty());
    } else {
        lemma_candidate_set(stem, ext, m - 1);
        let prev = candidate_set(stem, ext, m - 1);
        let cm = copy_candidate(stem, ext, m);
        if prev.contains(cm) {
            let j = choose|j: int| 1 <= j <= m - 1 && cm == #[trigger] copy_candidate(stem, ext, j);
            lemma_candidate_injective(stem, ext, j, m);
            assert(false);
        }
        assert(prev.insert(cm).len() == prev.len() + 1);
        assert forall|s: Seq<char>|
            candidate_set(stem, ext, m).contains(s) implies exists|j: int|
            1 <= j <= m && s == #[trigger] copy_candidate(stem, ext, j) by {
            if s == cm {
                assert(s == copy_candidate(stem, ext, m));
            }
        }
        assert forall|s: Seq<char>|
            (exists|j: int| 1 <= j <= m && s == #[trigger] copy_candidate(stem, ext, j)) implies
            candidate_set(stem, ext, m).contains(s) by {
            let j = choose|j: int| 1 <= j <= m && s == #[trigger] copy_candidate(stem, ext, j);
            if j <= m - 1 {
                assert(prev.contains(s));
            }
        }
    }
}

fn digitless_candidate(stem: &str, ext: &str) -> (r: String)
    ensures
        r@ == copy_candidate(stem@, ext@, 1),
{
    let mut s = String::from_str(stem);
    s.append(" - Copy");
    s.append(ext);
    proof {
        reveal_strlit(" - Copy");
        assert(" - Copy"@ =~= marker_copy());
        assert(s@ =~= copy_candidate(stem@, ext@, 1));
    }
    s
}

fn build_candidate(stem: &str, ext: &str, k: u64) -> (r: String)
    requires
        k >= 1,
    ensures
        r@ == copy_candidate(stem@, ext@, k as int),
{
    if k == 1 {
        return digitless_candidate(stem, ext);
    }
    let mut s = String::from_str(stem);
    s.append(" - Copy (");
    let d = dec_str(k);
    s.append(d.as_str());
    s.append(")");
    s.append(ext);
    proof {
        reveal_strlit(" - Copy (");
        reveal_strlit(")");
        assert(" - Copy ("@ =~= marker_copy() + marker_open());
        assert(")"@ =~= marker_close());
        assert(s@ =~= copy_candidate(stem@, ext@, k as int));
    }
    s
}

fn contains_name(taken: &Vec<String>, n: &String) -> (r: bool)
    ensures
        r == name_taken(taken@, n@),
{
    let mut i: usize = 0;
    while i < taken.len()
        invariant
            i <= taken@.len(),
            forall|j: int| 0 <= j < i ==> (#[trigger] taken@[j])@ != n@,
        decreases taken@.len() - i,
    {
        if taken[i].eq(n) {
            return true;
        }
        i += 1;
    }
    false
}

/// The first free candidate name for a duplicate of `stem` + `ext`, given
/// the names already present beside it.  Every earlier candidate is taken,
/// and the answer is found among the first `taken.len() + 1` candidates:
/// they are pairwise distinct, so they cannot all be taken.
pub fn find_free_name(stem: &str, ext: &str, taken: &Vec<String>) -> (r: String)
    requires
        taken@.len() < usize::MAX,
    ensures
        !name_taken(taken@, r@),
        exists|k: int|
            1 <= k <= taken@.len() + 1 && r@ == #[trigger] copy_candidate(stem@, ext@, k) && (
            forall|j: int| 1 <= j < k ==> name_taken(taken@, copy_candidate(stem@, ext@, j))),
{
    let n = taken.len();
    let mut k: usize = 1;
    while k <= n
        invariant
            1 <= k <= n + 1,
            n == taken@.len(),
            n < usize::MAX,
            forall|j: int| 1 <= j < k ==> name_taken(taken@, copy_candidate(stem@, ext@, j)),
        decreases n + 1 - k,
    {
        let cand = build_candidate(stem, ext, k as u64);
        if !contains_name(taken, &cand) {
            proof {
                assert(1 <= k as int <= taken@.len() + 1 && cand@ == copy_candidate(
                    stem@,
                    ext@,
                    k as int,
                ) && (forall|j: int|
                    1 <= j < k as int ==> name_taken(taken@, copy_candidate(stem@, ext@, j))));
            }
            return cand;
        }
        k += 1;
    }
    // k == n + 1: the last possible candidate.  If it were taken too, the
    // n + 1 pairwise-distinct candidates would all lie among n names.
    let cand = build_candidate(stem, ext, k as u64);
    if !contains_name(taken, &cand) {
        proof {
            assert(1 <= k as int <= taken@.len() + 1 && cand@ == copy_candidate(
                stem@,
                ext@,
                k as int,
            ) && (forall|j: int|
                1 <= j < k as int ==> name_taken(taken@, copy_candidate(stem@, ext@, j))));
        }
        return cand;
    }
    proof {
        broadcast use seq_to_set_is_finite;

        let views = Seq::new(taken@.len(), |i: int| taken@[i]@);
        views.lemma_cardinality_of_set();
        lemma_candidate_set(stem@, ext@, n as int + 1);
        let cs = candidate_set(stem@, ext@, n as int + 1);
        assert forall|s: Seq<char>| cs.contains(s) implies views.to_set().contains(s) by {
            let j = choose|j: int|
                1 <= j <= n as int + 1 && s == #[trigger] copy_candidate(stem@, ext@, j);
            assert(name_taken(taken@, s));
            let i = choose|i: int| 0 <= i < taken@.len() && (#[trigger] taken@[i])@ == s;
            assert(views[i] == s);
            assert(views.contains(s));
        }
        lemma_len_subset(cs, views.to_set());
        assert(false);
    }
    unreached()
}

/// The path a duplicate of `path` is created at: its parent joined with
/// the first free candidate name beside the given sibling names; `None`
/// when the path has no usable name or no parent.
pub fn duplicate_target(path: &str, taken: &Vec<String>) -> (r: Option<String>)
    requires
        taken@.len() < usize::MAX,
    ensures
        match r {
            None => !valid_name(spec_file_name(path@)) || spec_parent(path@) is None,
            Some(t) => {
                let name = spec_file_name(path@);
                let stem = spec_stem(name);
                let ext = spec_dot_ext(name);
                &&& valid_name(name)
                &&& spec_parent(path@) is Some
                &&& exists|k: int|
                    1 <= k <= taken@.len() + 1 && t@ == spec_join(
                        spec_parent(path@)->Some_0,
                        #[trigger] copy_candidate(stem, ext, k),
                    ) && !name_taken(taken@, copy_candidate(stem, ext, k)) && (forall|j: int|
                        1 <= j < k ==> name_taken(taken@, copy_candidate(stem, ext, j)))
            },
        },
{
    let name = match path_file_name(path) {
        Some(nm) => nm,
        None => {
            return None;
        },
    };
    let parent = match path_parent(path) {
        Some(p) => p,
        None => {
            return None;
        },
    };
    let (stem, ext) = split_stem_ext(name.as_str());
    let free = find_free_name(stem.as_str(), ext.as_str(), taken);
    let ghost freeg = free@;
    let t = path_join(parent.as_str(), free.as_str());
    proof {
        let namec = spec_file_name(path@);
        let stemc = spec_stem(namec);
        let extc = spec_dot_ext(namec);
        let k = choose|k: int|
            1 <= k <= taken@.len() + 1 && freeg == #[trigger] copy_candidate(stemc, extc, k) && (
            forall|j: int| 1 <= j < k ==> name_taken(taken@, copy_candidate(stemc, extc, j)));
        assert(t@ == spec_join(spec_parent(path@)->Some_0, copy_candidate(stemc, extc, k)));
    }
    Some(t)
}

} // verus!
