//! A verified model of slash-separated paths.
//!
//! The engine treats a path as a plain string whose components are joined by
//! `'/'`.  Directory paths are expected in normalized form, without a
//! trailing slash (the filesystem root itself is the single string `"/"`).

use vstd::prelude::*;
use vstd::string::StrSliceExecFns;
use vstd::string::StringExecFns;

verus! {

/// `s` contains no separator.
pub open spec fn no_slash(s: Seq<char>) -> bool {
    forall|i: int| 0 <= i < s.len() ==> s[i] != '/'
}

/// A usable final path component: nonempty, no separator, and not one of
/// the relative markers `.` and `..`.
pub open spec fn valid_name(n: Seq<char>) -> bool {
    &&& n.len() > 0
    &&& no_slash(n)
    &&& n != seq!['.']
    &&& n != seq!['.', '.']
}

/// The index right after the last `'/'` of `p`; `0` if `p` has no slash.
pub open spec fn name_start(p: Seq<char>) -> int
    decreases p.len(),
{
    if p.len() == 0 {
        0
    } else if p.last() == '/' {
        p.len() as int
    } else {
        name_start(p.drop_last())
    }
}

pub proof fn lemma_name_start_props(p: Seq<char>)
    ensures
        0 <= name_start(p) <= p.len(),
        forall|j: int| name_start(p) <= j < p.len() ==> p[j] != '/',
        name_start(p) > 0 ==> p[name_start(p) - 1] == '/',
    decreases p.len(),
{
    if p.len() > 0 && p.last() != '/' {
        lemma_name_start_props(p.drop_last());
        assert forall|j: int| name_start(p) <= j < p.len() implies p[j] != '/' by {
            if j < p.len() - 1 {
                assert(p.drop_last()[j] == p[j]);
            } else {
                assert(p[j] == p.last());
            }
        }
    }
}

/// The final component of `p`: everything after the last slash.
pub open spec fn spec_file_name(p: Seq<char>) -> Seq<char> {
    p.subrange(name_start(p), p.len() as int)
}

/// The directory holding `p`: everything before the last slash, where the
/// root `"/"` has no parent and a bare name has none either.
pub open spec fn spec_parent(p: Seq<char>) -> Option<Seq<char>> {
    if p == seq!['/'] {
        None
    } else if name_start(p) == 0 {
        None
    } else if name_start(p) == 1 {
        Some(seq!['/'])
    } else {
        Some(p.subrange(0, name_start(p) - 1))
    }
}

/// `dir` and a child name, joined by one separator.
pub open spec fn spec_join(dir: Seq<char>, name: Seq<char>) -> Seq<char> {
    dir + seq!['/'] + name
}

/// Joining then taking the name gives the name back: the slash written by
/// the join is the last one of the result.
pub proof fn lemma_name_start_of_join(dir: Seq<char>, name: Seq<char>)
    requires
        no_slash(name),
    ensures
        name_start(spec_join(dir, name)) == dir.len() + 1,
    decreases name.len(),
{
    let q = spec_join(dir, name);
    if name.len() == 0 {
        assert(q.last() == '/');
    } else {
        assert(q.last() == name.last());
        assert(q.drop_last() =~= spec_join(dir, name.drop_last()));
        lemma_name_start_of_join(dir, name.drop_last());
    }
}

pub proof fn lemma_file_name_of_join(dir: Seq<char>, name: Seq<char>)
    requires
        no_slash(name),
    ensures
        spec_file_name(spec_join(dir, name)) == name,
{
    lemma_name_start_of_join(dir, name);
    assert(spec_file_name(spec_join(dir, name)) =~= name);
}

fn name_start_exec(p: &str) -> (r: usize)
    ensures
        r == name_start(p@),
{
    let n: usize = p.unicode_len();
    let mut i: usize = n;
    proof {
        assert(p@.subrange(0, n as int) =~= p@);
    }
    loop
        invariant
            i <= n,
            n == p@.len(),
            name_start(p@) == name_start(p@.subrange(0, i as int)),
        decreases i,
    {
        if i == 0 {
            return 0;
        }
        let c = p.get_char(i - 1);
        proof {
            let sub = p@.subrange(0, i as int);
            assert(sub.last() == p@[i - 1]);
        }
        if c == '/' {
            return i;
        }
        proof {
            let sub = p@.subrange(0, i as int);
            assert(sub.drop_last() =~= p@.subrange(0, i as int - 1));
        }
        i -= 1;
    }
}

/// The final component of `p`, if it is a usable name.
pub fn path_file_name(p: &str) -> (r: Option<String>)
    ensures
        match r {
            Some(n) => n@ == spec_file_name(p@) && valid_name(n@),
            None => !valid_name(spec_file_name(p@)),
        },
{
    let n: usize = p.unicode_len();
    let ns = name_start_exec(p);
    proof {
        lemma_name_start_props(p@);
    }
    let name = p.substring_char(ns, n);
    let len: usize = n - ns;
    proof {
        assert(name@ == spec_file_name(p@));
        assert(name@.len() == len);
    }
    if len == 0 {
        return None;
    }
    if len == 1 && name.get_char(0) == '.' {
        proof {
            assert(name@ =~= seq!['.']);
        }
        return None;
    }
    if len == 2 && name.get_char(0) == '.' && name.get_char(1) == '.' {
        proof {
            assert(name@ =~= seq!['.', '.']);
        }
        return None;
    }
    proof {
        assert(name@ != seq!['.']);
        assert(name@ != seq!['.', '.']);
    }
    Some(String::from_str(name))
}

/// The parent directory of `p`, if it has one.
pub fn path_parent(p: &str) -> (r: Option<String>)
    ensures
        match r {
            Some(d) => spec_parent(p@) == Some(d@),
            None => spec_parent(p@) is None,
        },
{
    let n: usize = p.unicode_len();
    if n == 1 && p.get_char(0) == '/' {
        proof {
            assert(p@ =~= seq!['/']);
        }
        return None;
    }
    proof {
        assert(p@ != seq!['/']);
    }
    let ns = name_start_exec(p);
    proof {
        lemma_name_start_props(p@);
    }
    if ns == 0 {
        None
    } else if ns == 1 {
        let root = String::from_str("/");
        proof {
            reveal_strlit("/");
            assert(root@ =~= seq!['/']);
        }
        Some(root)
    } else {
        Some(String::from_str(p.substring_char(0, ns - 1)))
    }
}

/// Joins a directory path and a child name with one separator.
pub fn path_join(dir: &str, name: &str) -> (r: String)
    ensures
        r@ == spec_join(dir@, name@),
{
    let mut s = String::from_str(dir);
    s.append("/");
    s.append(name);
    proof {
        reveal_strlit("/");
        assert(s@ =~= spec_join(dir@, name@));
    }
    s
}

/// The index of the dot splitting stem and extension of the name `n`: the
/// last `'.'` that is not the first character; `n.len()` if there is none.
pub open spec fn dot_split(n: Seq<char>) -> int
    decreases n.len(),
{
    if n.len() <= 1 {
        n.len() as int
    } else if n.last() == '.' {
        n.len() - 1
    } else {
        let k = dot_split(n.drop_last());
        if k == n.len() - 1 {
            n.len() as int
        } else {
            k
        }
    }
}

pub proof fn lemma_dot_split_props(n: Seq<char>)
    ensures
        1 <= dot_split(n) <= n.len() || (n.len() == 0 && dot_split(n) == 0),
        dot_split(n) < n.len() ==> n[dot_split(n)] == '.',
        forall|j: int| dot_split(n) < j < n.len() ==> n[j] != '.',
        dot_split(n) == n.len() ==> forall|j: int| 1 <= j < n.len() ==> n[j] != '.',
    decreases n.len(),
{
    if n.len() > 1 && n.last() != '.' {
        lemma_dot_split_props(n.drop_last());
        assert forall|j: int| dot_split(n) < j < n.len() implies n[j] != '.' by {
            if j < n.len() - 1 {
                assert(n.drop_last()[j] == n[j]);
            } else {
                assert(n[j] == n.last());
            }
        }
        if dot_split(n) == n.len() {
            assert forall|j: int| 1 <= j < n.len() implies n[j] != '.' by {
                if j < n.len() - 1 {
                    assert(n.drop_last()[j] == n[j]);
                } else {
                    assert(n[j] == n.last());
                }
            }
        }
    }
}

/// The stem of a name: what stands before its extension dot.
pub open spec fn spec_stem(n: Seq<char>) -> Seq<char> {
    n.subrange(0, dot_split(n))
}

/// The extension of a name including its leading dot; empty if the name
/// has no extension (a leading dot alone, as in a hidden file, is part of
/// the stem).
pub open spec fn spec_dot_ext(n: Seq<char>) -> Seq<char> {
    n.subrange(dot_split(n), n.len() as int)
}

/// Splits a name into stem and dotted extension.
pub fn split_stem_ext(name: &str) -> (r: (String, String))
    ensures
        r.0@ == spec_stem(name@),
        r.1@ == spec_dot_ext(name@),
{
    let n: usize = name.unicode_len();
    let mut i: usize = n;
    proof {
        assert(name@.subrange(0, n as int) =~= name@);
    }
    loop
        invariant
            i <= n,
            n == name@.len(),
            dot_split(name@) == dot_split(name@.subrange(0, i as int)) || dot_split(name@)
                == n as int,
            forall|j: int| i <= j < n ==> name@[j] != '.',
        decreases i,
    {
        if i <= 1 {
            proof {
                let sub = name@.subrange(0, i as int);
                assert(sub.len() == i);
                assert(dot_split(sub) == i as int);
                lemma_dot_split_props(name@);
                if dot_split(name@) != n as int {
                    assert(dot_split(name@) == i as int);
                    assert(name@[i as int] == '.');
                    assert(false);
                }
                assert(spec_stem(name@) =~= name@);
                assert(spec_dot_ext(name@) =~= Seq::<char>::empty());
            }
            let stem = String::from_str(name);
            let ext = String::new();
            return (stem, ext);
        }
        let c = name.get_char(i - 1);
        proof {
            let sub = name@.subrange(0, i as int);
            assert(sub.len() == i);
            assert(sub.last() == name@[i - 1]);
            assert(sub.drop_last() =~= name@.subrange(0, i as int - 1));
        }
        if c == '.' {
            proof {
                let sub = name@.subrange(0, i as int);
                assert(dot_split(sub) == i - 1);
                lemma_dot_split_props(name@);
                if dot_split(name@) == n as int {
                    assert(name@[i - 1] != '.');
                    assert(false);
                }
                assert(dot_split(name@) == i - 1);
            }
            let stem = String::from_str(name.substring_char(0, i - 1));
            let ext = String::from_str(name.substring_char(i - 1, n));
            return (stem, ext);
        }
        proof {
            let sub = name@.subrange(0, i as int);
            let sub2 = name@.subrange(0, i as int - 1);
            assert(dot_split(sub) == dot_split(sub2) || dot_split(sub) == i as int);
            lemma_dot_split_props(name@);
            if dot_split(name@) == dot_split(sub) && dot_split(sub) == i as int
                && dot_split(name@) != n as int {
                assert(name@[i as int] == '.');
                assert(false);
            }
        }
        i -= 1;
    }
}

} // verus!
