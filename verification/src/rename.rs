//! Batch renaming by pattern: plain substring replacement or a regular
//! expression, with the per-item decision — rename only when the name
//! actually changes and nothing stands at the target — made here.

use vstd::prelude::*;
use vstd::string::StringExecFns;
use crate::errors::FsError;
use crate::path::{path_file_name, path_join, path_parent, spec_file_name, spec_join, spec_parent, valid_name};
use crate::text::has_substring;

verus! {

/// Whether a pattern compiles as a regular expression; what
/// `regex::Regex::new` decides, a pure function of the pattern.
pub uninterp spec fn regex_ok(pattern: Seq<char>) -> bool;

/// What replacing every match of a compiling pattern in a text yields
/// (capture-group references in the replacement expanded); a pure
/// function of the three texts.
pub uninterp spec fn regex_replaced(pat: Seq<char>, text: Seq<char>, rep: Seq<char>) -> Seq<char>;

/// Relies on regex::Regex::new and regex::Regex::replace_all with a
/// string replacement: whether the pattern compiles, and what the
/// replacement yields, depend on the three texts alone.
#[verifier::external_body]
fn regex_replace_once(pattern: &str, text: &str, rep: &str) -> (r: Option<String>)
    ensures
        r is Some <==> regex_ok(pattern@),
        (r matches Some(s) ==> s@ == regex_replaced(pattern@, text@, rep@)),
{
    regex::Regex::new(pattern).ok().map(|re| re.replace_all(text, rep).to_string())
}

/// What `str::replace` returns: every match of the pattern replaced, a
/// pure function of the three strings.
pub uninterp spec fn replaced_of(s: Seq<char>, pat: Seq<char>, rep: Seq<char>) -> Seq<char>;

/// Relies on str::replace: all matches of the pattern are replaced, and a
/// string containing no match is returned unchanged.
#[verifier::external_body]
fn replace_plain(s: &str, pat: &str, rep: &str) -> (r: String)
    ensures
        r@ == replaced_of(s@, pat@, rep@),
        !has_substring(s@, pat@) ==> r@ == s@,
{
    s.replace(pat, rep)
}

/// The renamed form of one name: in regex mode the pattern's matches
/// replaced — or `PatternError` for a pattern that does not compile,
/// before anything is renamed — and in plain mode every occurrence of the
/// pattern text replaced.
pub fn apply_pattern(name: &str, pattern: &str, replace_with: &str, use_regex: bool) -> (r: Result<
    String,
    FsError,
>)
    ensures
        use_regex && regex_ok(pattern@) ==> (r matches Ok(s) && s@ == regex_replaced(
            pattern@,
            name@,
            replace_with@,
        )),
        use_regex && !regex_ok(pattern@) ==> (r matches Err(FsError::PatternError { pattern: p })
            && p@ == pattern@),
        !use_regex ==> (r matches Ok(s) && s@ == replaced_of(name@, pattern@, replace_with@)),
{
    if use_regex {
        match regex_replace_once(pattern, name, replace_with) {
            Some(s) => Ok(s),
            None => Err(FsError::PatternError { pattern: String::from_str(pattern) }),
        }
    } else {
        Ok(replace_plain(name, pattern, replace_with))
    }
}

/// One rename to carry out.
pub struct RenameAction {
    pub from: String,
    pub to: String,
    pub new_name: String,
}

/// The decision for one item of a rename batch: rename exactly when the
/// new name differs from the current one and nothing already stands at
/// the target path; an unusable path decides nothing.
pub fn rename_decision(path: &str, new_name: &str, target_exists: bool) -> (r: Option<
    RenameAction,
>)
    ensures
        match r {
            Some(a) => {
                &&& valid_name(spec_file_name(path@))
                &&& spec_parent(path@) is Some
                &&& new_name@ != spec_file_name(path@)
                &&& !target_exists
                &&& a.from@ == path@
                &&& a.new_name@ == new_name@
                &&& a.to@ == spec_join(spec_parent(path@)->Some_0, new_name@)
            },
            None => !valid_name(spec_file_name(path@)) || spec_parent(path@) is None || new_name@
                == spec_file_name(path@) || target_exists,
        },
{
    let name = match path_file_name(path) {
        Some(n) => n,
        None => {
            return None;
        },
    };
    let parent = match path_parent(path) {
        Some(p) => p,
        None => {
            return None;
        },
    };
    let candidate = String::from_str(new_name);
    if candidate.eq(&name) {
        return None;
    }
    if target_exists {
        return None;
    }
    let to = path_join(parent.as_str(), new_name);
    Some(RenameAction { from: String::from_str(path), to, new_name: candidate })
}

} // verus!
