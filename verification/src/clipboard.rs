//! The file-reference clipboard.
//!
//! Two halves live here.  The in-memory [`ClipboardStore`] is a single
//! owned slot holding the last written set of paths, handed around
//! explicitly rather than living in a process-wide global.  For platforms
//! whose native clipboard carries file lists as a text payload — an
//! operation word (`cut` or `copy`) followed by one `file://` URI per
//! line — the payload codec below formats and parses that text; only the
//! clipboard read/write itself stays with the surrounding binary.

use vstd::prelude::*;
use vstd::string::StrSliceExecFns;
use vstd::string::StringExecFns;
use crate::text::str_starts_with;

verus! {

/// A set of file references on the clipboard, and whether they were cut.
pub struct ClipboardFiles {
    pub paths: Vec<String>,
    pub is_cut: bool,
}

/// The single clipboard slot.
pub struct ClipboardStore {
    slot: Option<ClipboardFiles>,
}

impl ClipboardStore {
    pub closed spec fn spec_slot(self) -> Option<ClipboardFiles> {
        self.slot
    }

    /// An empty clipboard.
    pub fn new() -> (r: ClipboardStore)
        ensures
            r.spec_slot() is None,
    {
        ClipboardStore { slot: None }
    }

    /// Stores the given paths, replacing whatever was held before.
    pub fn write_files(&mut self, paths: Vec<String>, cut: bool)
        ensures
            final(self).spec_slot() matches Some(c) && c.paths == paths && c.is_cut == cut,
    {
        self.slot = Some(ClipboardFiles { paths, is_cut: cut });
    }

    /// Reads back what was last written: exactly the stored paths and cut
    /// flag; an error when nothing is held.
    pub fn read_files(&self) -> (r: Result<ClipboardFiles, String>)
        ensures
            match self.spec_slot() {
                Some(c) => r matches Ok(out) && out.is_cut == c.is_cut && out.paths@.len()
                    == c.paths@.len() && (forall|i: int|
                    0 <= i < c.paths@.len() ==> (#[trigger] out.paths@[i])@ == c.paths@[i]@),
                None => r is Err,
            },
    {
        match &self.slot {
            Some(c) => Ok(ClipboardFiles { paths: c.paths.clone(), is_cut: c.is_cut }),
            None => Err(String::from_str("No files in clipboard")),
        }
    }

    /// Whether anything is held.
    pub fn has_files(&self) -> (r: bool)
        ensures
            r == (self.spec_slot() is Some),
    {
        match &self.slot {
            Some(_) => true,
            None => false,
        }
    }
}

/// A raw line's trailing carriage return, if any, removed.
pub open spec fn strip_cr(t: Seq<char>) -> Seq<char> {
    if t.len() > 0 && t.last() == '\r' {
        t.drop_last()
    } else {
        t
    }
}

/// The segments of `s` between newline characters; always at least one,
/// and one more than the number of newlines.
pub open spec fn split_lines(s: Seq<char>) -> Seq<Seq<char>>
    decreases s.len(),
{
    if s.len() == 0 {
        seq![Seq::<char>::empty()]
    } else if s[0] == '\n' {
        seq![Seq::<char>::empty()] + split_lines(s.drop_first())
    } else {
        let rest = split_lines(s.drop_first());
        seq![seq![s[0]] + rest[0]] + rest.drop_first()
    }
}

proof fn lemma_split_lines_len(s: Seq<char>)
    ensures
        split_lines(s).len() >= 1,
    decreases s.len(),
{
    if s.len() > 0 {
        lemma_split_lines_len(s.drop_first());
    }
}

proof fn lemma_split_lines_no_nl(s: Seq<char>)
    requires
        forall|j: int| 0 <= j < s.len() ==> s[j] != '\n',
    ensures
        split_lines(s) == seq![s],
    decreases s.len(),
{
    if s.len() == 0 {
        assert(s =~= Seq::<char>::empty());
        assert(split_lines(s) =~= seq![s]);
    } else {
        let tail = s.drop_first();
        assert forall|j: int| 0 <= j < tail.len() implies tail[j] != '\n' by {
            assert(tail[j] == s[j + 1]);
        }
        lemma_split_lines_no_nl(tail);
        lemma_split_lines_len(tail);
        assert(seq![s[0]] + split_lines(tail)[0] =~= s);
        assert(split_lines(tail).drop_first() =~= Seq::<Seq<char>>::empty());
        assert(split_lines(s) =~= seq![s]);
    }
}

proof fn lemma_split_lines_concat(s: Seq<char>, k: int)
    requires
        0 <= k < s.len(),
        s[k] == '\n',
        forall|j: int| 0 <= j < k ==> s[j] != '\n',
    ensures
        split_lines(s) == seq![s.subrange(0, k)] + split_lines(s.subrange(k + 1, s.len() as int)),
    decreases k,
{
    if k == 0 {
        assert(s.subrange(0, 0) =~= Seq::<char>::empty());
        assert(s.drop_first() =~= s.subrange(1, s.len() as int));
        assert(split_lines(s) =~= seq![s.subrange(0, 0)] + split_lines(
            s.subrange(1, s.len() as int),
        ));
    } else {
        let tail = s.drop_first();
        assert(s[0] != '\n');
        assert(tail[k - 1] == s[k]);
        assert forall|j: int| 0 <= j < k - 1 implies tail[j] != '\n' by {
            assert(tail[j] == s[j + 1]);
        }
        lemma_split_lines_concat(tail, k - 1);
        lemma_split_lines_len(tail);
        let rest = split_lines(tail);
        assert(rest[0] == tail.subrange(0, k - 1));
        assert(seq![s[0]] + tail.subrange(0, k - 1) =~= s.subrange(0, k));
        assert(rest.drop_first() =~= split_lines(tail.subrange(k - 1 + 1, tail.len() as int)));
        assert(tail.subrange(k, tail.len() as int) =~= s.subrange(k + 1, s.len() as int));
        assert(split_lines(s) =~= seq![s.subrange(0, k)] + split_lines(
            s.subrange(k + 1, s.len() as int),
        ));
    }
}

/// The views of a sequence of strings.
pub open spec fn string_views(q: Seq<String>) -> Seq<Seq<char>> {
    q.map_values(|t: String| t@)
}

/// Splits a payload into its raw newline-separated segments.
fn split_newlines(s: &str) -> (r: Vec<String>)
    ensures
        r@.len() == split_lines(s@).len(),
        forall|i: int| 0 <= i < r@.len() ==> (#[trigger] r@[i])@ == split_lines(s@)[i],
{
    let n: usize = s.unicode_len();
    let mut out: Vec<String> = Vec::new();
    let mut start: usize = 0;
    let mut i: usize = 0;
    proof {
        assert(s@.skip(0) =~= s@);
    }
    loop
        invariant
            start <= i <= n,
            n == s@.len(),
            forall|j: int| start <= j < i ==> s@[j] != '\n',
            split_lines(s@).len() == out@.len() + split_lines(s@.skip(start as int)).len(),
            split_lines(s@).skip(out@.len() as int) == split_lines(s@.skip(start as int)),
            forall|k: int| 0 <= k < out@.len() ==> (#[trigger] out@[k])@ == split_lines(s@)[k],
        decreases n - i,
    {
        if i == n {
            let seg = String::from_str(s.substring_char(start, n));
            proof {
                let tail = s@.skip(start as int);
                assert forall|j: int| 0 <= j < tail.len() implies tail[j] != '\n' by {
                    assert(tail[j] == s@[start + j]);
                }
                lemma_split_lines_no_nl(tail);
                assert(seg@ =~= tail);
                assert(split_lines(s@)[out@.len() as int] == split_lines(s@).skip(
                    out@.len() as int,
                )[0]);
            }
            let ghost out0 = out@;
            out.push(seg);
            proof {
                assert forall|k: int| 0 <= k < out@.len() implies (#[trigger] out@[k])@
                    == split_lines(s@)[k] by {
                    if k < out0.len() {
                        assert(out@[k] == out0[k]);
                    }
                }
            }
            return out;
        }
        let c = s.get_char(i);
        if c == '\n' {
            let seg = String::from_str(s.substring_char(start, i));
            let ghost out0 = out@;
            proof {
                let tail = s@.skip(start as int);
                let k = i - start;
                assert(tail[k as int] == s@[i as int]);
                assert forall|j: int| 0 <= j < k implies tail[j] != '\n' by {
                    assert(tail[j] == s@[start + j]);
                }
                lemma_split_lines_concat(tail, k as int);
                assert(tail.subrange(0, k as int) =~= s@.subrange(start as int, i as int));
                assert(tail.subrange(k as int + 1, tail.len() as int) =~= s@.skip(i as int + 1));
                assert(seg@ == split_lines(s@).skip(out0.len() as int)[0]);
                assert(seg@ == split_lines(s@)[out0.len() as int]);
            }
            out.push(seg);
            proof {
                assert(split_lines(s@).skip(out@.len() as int) =~= split_lines(s@).skip(
                    out0.len() as int,
                ).drop_first());
                assert(split_lines(s@).skip(out@.len() as int) =~= split_lines(
                    s@.skip(i as int + 1),
                ));
                assert forall|k: int| 0 <= k < out@.len() implies (#[trigger] out@[k])@
                    == split_lines(s@)[k] by {
                    if k < out0.len() {
                        assert(out@[k] == out0[k]);
                    }
                }
            }
            start = i + 1;
            i = i + 1;
        } else {
            i += 1;
        }
    }
}

fn strip_cr_exec(l: &str) -> (r: String)
    ensures
        r@ == strip_cr(l@),
{
    let n: usize = l.unicode_len();
    if n > 0 && l.get_char(n - 1) == '\r' {
        let r = String::from_str(l.substring_char(0, n - 1));
        proof {
            assert(r@ =~= l@.drop_last());
        }
        r
    } else {
        String::from_str(l)
    }
}

/// The operation word written for a cut.
pub open spec fn cut_word() -> Seq<char> {
    seq!['c', 'u', 't']
}

/// The operation word written for a copy.
pub open spec fn copy_word() -> Seq<char> {
    seq!['c', 'o', 'p', 'y']
}

/// The scheme prefix of each path line.
pub open spec fn file_uri_prefix() -> Seq<char> {
    seq!['f', 'i', 'l', 'e', ':', '/', '/']
}

/// A payload line carrying a path: it starts with the scheme prefix.
pub open spec fn is_uri_line(l: Seq<char>) -> bool {
    l.len() >= 7 && l.subrange(0, 7) == file_uri_prefix()
}

/// The path lines of a payload body, newline-joined.
pub open spec fn uri_block(paths: Seq<Seq<char>>) -> Seq<char>
    decreases paths.len(),
{
    if paths.len() == 0 {
        Seq::<char>::empty()
    } else if paths.len() == 1 {
        file_uri_prefix() + paths[0]
    } else {
        uri_block(paths.drop_last()) + seq!['\n'] + file_uri_prefix() + paths.last()
    }
}

/// A whole payload: the operation word, a newline, and one URI per path.
pub open spec fn spec_payload(paths: Seq<Seq<char>>, cut: bool) -> Seq<char> {
    (if cut {
        cut_word()
    } else {
        copy_word()
    }) + seq!['\n'] + uri_block(paths)
}

/// Formats the native clipboard payload for the given paths.
pub fn format_clipboard_payload(paths: &Vec<String>, cut: bool) -> (r: String)
    ensures
        r@ == spec_payload(string_views(paths@), cut),
{
    let mut s = if cut {
        String::from_str("cut")
    } else {
        String::from_str("copy")
    };
    s.append("\n");
    proof {
        reveal_strlit("cut");
        reveal_strlit("copy");
        reveal_strlit("\n");
        assert("cut"@ =~= cut_word());
        assert("copy"@ =~= copy_word());
        assert("\n"@ =~= seq!['\n']);
        assert(string_views(paths@).subrange(0, 0) =~= Seq::<Seq<char>>::empty());
        assert(s@ =~= (if cut {
            cut_word()
        } else {
            copy_word()
        }) + seq!['\n'] + uri_block(string_views(paths@).subrange(0, 0)));
    }
    let mut i: usize = 0;
    let n = paths.len();
    while i < n
        invariant
            i <= n,
            n == paths@.len(),
            s@ == (if cut {
                cut_word()
            } else {
                copy_word()
            }) + seq!['\n'] + uri_block(string_views(paths@).subrange(0, i as int)),
        decreases n - i,
    {
        if i > 0 {
            s.append("\n");
        }
        s.append("file://");
        s.append(paths[i].as_str());
        proof {
            reveal_strlit("\n");
            reveal_strlit("file://");
            assert("file://"@ =~= file_uri_prefix());
            let views = string_views(paths@);
            assert(views.subrange(0, i as int + 1).drop_last() =~= views.subrange(0, i as int));
            assert(views.subrange(0, i as int + 1).last() == views[i as int]);
            assert(views[i as int] == paths@[i as int]@);
            if i == 0 {
                assert(uri_block(views.subrange(0, 1)) =~= file_uri_prefix() + views[0]);
            }
            assert(s@ =~= (if cut {
                cut_word()
            } else {
                copy_word()
            }) + seq!['\n'] + uri_block(views.subrange(0, i as int + 1)));
        }
        i += 1;
    }
    proof {
        assert(string_views(paths@).subrange(0, n as int) =~= string_views(paths@));
    }
    s
}

/// The lines of a payload after carriage-return stripping.
pub open spec fn stripped_lines(s: Seq<char>) -> Seq<Seq<char>> {
    split_lines(s).map_values(|l: Seq<char>| strip_cr(l))
}

/// The path-carrying lines of a payload: every line after the first that
/// starts with the scheme prefix.
pub open spec fn payload_uri_lines(s: Seq<char>) -> Seq<Seq<char>> {
    stripped_lines(s).drop_first().filter(|l: Seq<char>| is_uri_line(l))
}

/// What `urlencoding::decode` returns on success.
pub uninterp spec fn uri_decoded(s: Seq<char>) -> Seq<char>;

/// Relies on urlencoding::decode: percent-decoding depends on the text
/// alone; it fails only when the decoded bytes are not valid UTF-8, and a
/// text without any `%` comes back unchanged.
#[verifier::external_body]
fn uri_decode(s: &str) -> (r: Option<String>)
    ensures
        (r matches Some(d) ==> d@ == uri_decoded(s@)),
        r is None ==> exists|i: int| 0 <= i < s@.len() && s@[i] == '%',
        (r matches Some(d) ==> ((forall|i: int| 0 <= i < s@.len() ==> s@[i] != '%') ==> d@
            == s@)),
{
    urlencoding::decode(s).ok().map(|c| c.into_owned())
}

/// Parses a native clipboard payload.  The first line decides cut against
/// copy; every later line starting with the scheme prefix contributes one
/// path, percent-decoded where the decoding succeeds and taken as written
/// where it does not.  A payload without any path line is an error.
pub fn parse_clipboard_payload(content: &str) -> (r: Result<ClipboardFiles, String>)
    ensures
        match r {
            Ok(c) => {
                &&& payload_uri_lines(content@).len() > 0
                &&& c.is_cut == (stripped_lines(content@)[0] == cut_word())
                &&& c.paths@.len() == payload_uri_lines(content@).len()
                &&& forall|k: int|
                    0 <= k < c.paths@.len() ==> (#[trigger] c.paths@[k])@ == uri_decoded(
                        payload_uri_lines(content@)[k].skip(7),
                    ) || c.paths@[k]@ == payload_uri_lines(content@)[k].skip(7)
            },
            Err(_) => payload_uri_lines(content@).len() == 0,
        },
{
    let lines = split_newlines(content);
    proof {
        lemma_split_lines_len(content@);
    }
    let first = strip_cr_exec(lines[0].as_str());
    let cutw = String::from_str("cut");
    proof {
        reveal_strlit("cut");
        assert(cutw@ =~= cut_word());
        assert(stripped_lines(content@)[0] == strip_cr(split_lines(content@)[0]));
    }
    let is_cut = first.eq(&cutw);
    let mut paths: Vec<String> = Vec::new();
    let mut i: usize = 1;
    let n = lines.len();
    let ghost body = stripped_lines(content@).drop_first();
    proof {
        reveal(Seq::filter);
        assert(body.subrange(0, 0) =~= Seq::<Seq<char>>::empty());
    }
    while i < n
        invariant
            1 <= i <= n,
            n == lines@.len(),
            n == split_lines(content@).len(),
            forall|j: int| 0 <= j < n ==> (#[trigger] lines@[j])@ == split_lines(content@)[j],
            body == stripped_lines(content@).drop_first(),
            body.len() == n - 1,
            paths@.len() == body.subrange(0, i - 1).filter(|l: Seq<char>| is_uri_line(l)).len(),
            forall|k: int|
                0 <= k < paths@.len() ==> (#[trigger] paths@[k])@ == uri_decoded(
                    body.subrange(0, i - 1).filter(|l: Seq<char>| is_uri_line(l))[k].skip(7),
                ) || paths@[k]@ == body.subrange(0, i - 1).filter(
                    |l: Seq<char>| is_uri_line(l),
                )[k].skip(7),
        decreases n - i,
    {
        let stripped = strip_cr_exec(lines[i].as_str());
        proof {
            assert(stripped_lines(content@)[i as int] == strip_cr(split_lines(content@)[i as int]));
            assert(body[i - 1] == stripped_lines(content@)[i as int]);
        }
        let ghost pre = body.subrange(0, i - 1);
        let ghost pre2 = body.subrange(0, i as int);
        proof {
            reveal(Seq::filter);
            assert(pre2.drop_last() =~= pre);
            assert(pre2.last() == body[i - 1]);
        }
        let is_uri = str_starts_with(stripped.as_str(), "file://");
        proof {
            reveal_strlit("file://");
            assert("file://"@ =~= file_uri_prefix());
        }
        if is_uri {
            let len: usize = stripped.as_str().unicode_len();
            let suffix = stripped.as_str().substring_char(7, len);
            proof {
                assert(suffix@ =~= stripped@.skip(7));
            }
            let path = match uri_decode(suffix) {
                Some(d) => d,
                None => String::from_str(suffix),
            };
            let ghost paths0 = paths@;
            paths.push(path);
            proof {
                assert(pre2.filter(|l: Seq<char>| is_uri_line(l)) =~= pre.filter(
                    |l: Seq<char>| is_uri_line(l),
                ).push(body[i - 1]));
                assert forall|k: int|
                    0 <= k < paths@.len() implies (#[trigger] paths@[k])@ == uri_decoded(
                    pre2.filter(|l: Seq<char>| is_uri_line(l))[k].skip(7),
                ) || paths@[k]@ == pre2.filter(|l: Seq<char>| is_uri_line(l))[k].skip(7) by {
                    if k < paths0.len() {
                        assert(paths@[k] == paths0[k]);
                        assert(pre2.filter(|l: Seq<char>| is_uri_line(l))[k] == pre.filter(
                            |l: Seq<char>| is_uri_line(l),
                        )[k]);
                    } else {
                        assert(pre2.filter(|l: Seq<char>| is_uri_line(l))[k] == body[i - 1]);
                    }
                }
            }
        } else {
            proof {
                assert(pre2.filter(|l: Seq<char>| is_uri_line(l)) =~= pre.filter(
                    |l: Seq<char>| is_uri_line(l),
                ));
            }
        }
        i += 1;
    }
    proof {
        assert(body.subrange(0, n - 1) =~= body);
        assert(payload_uri_lines(content@).subrange(
            0,
            payload_uri_lines(content@).len() as int,
        ) =~= payload_uri_lines(content@));
    }
    if paths.len() == 0 {
        Err(String::from_str("No files in clipboard"))
    } else {
        Ok(ClipboardFiles { paths, is_cut })
    }
}


/// Each path as the payload line that carries it.
pub open spec fn uri_lines_of(paths: Seq<Seq<char>>) -> Seq<Seq<char>> {
    paths.map_values(|p: Seq<char>| file_uri_prefix() + p)
}

/// `uri_block` unrolled from the front instead of the back.
spec fn uri_block_front(paths: Seq<Seq<char>>) -> Seq<char>
    decreases paths.len(),
{
    if paths.len() == 0 {
        Seq::<char>::empty()
    } else if paths.len() == 1 {
        file_uri_prefix() + paths[0]
    } else {
        file_uri_prefix() + paths[0] + seq!['\n'] + uri_block_front(paths.drop_first())
    }
}

proof fn lemma_uri_block_front_snoc(paths: Seq<Seq<char>>, p: Seq<char>)
    ensures
        uri_block_front(paths.push(p)) == if paths.len() == 0 {
            file_uri_prefix() + p
        } else {
            uri_block_front(paths) + seq!['\n'] + (file_uri_prefix() + p)
        },
    decreases paths.len(),
{
    let q = paths.push(p);
    if paths.len() == 0 {
        assert(q.len() == 1);
        assert(q[0] == p);
    } else {
        assert(q[0] == paths[0]);
        assert(q.drop_first() =~= paths.drop_first().push(p));
        lemma_uri_block_front_snoc(paths.drop_first(), p);
        if paths.len() == 1 {
            assert(uri_block_front(q) =~= uri_block_front(paths) + seq!['\n'] + (
            file_uri_prefix() + p));
        } else {
            assert(uri_block_front(q) =~= uri_block_front(paths) + seq!['\n'] + (
            file_uri_prefix() + p));
        }
    }
}

proof fn lemma_uri_block_forms_agree(paths: Seq<Seq<char>>)
    ensures
        uri_block(paths) == uri_block_front(paths),
    decreases paths.len(),
{
    if paths.len() >= 2 {
        lemma_uri_block_forms_agree(paths.drop_last());
        assert(paths.drop_last().push(paths.last()) =~= paths);
        lemma_uri_block_front_snoc(paths.drop_last(), paths.last());
    }
}

/// No newline stands anywhere in `s`.
pub open spec fn newline_free(s: Seq<char>) -> bool {
    forall|i: int| 0 <= i < s.len() ==> s[i] != '\n' && s[i] != '\r'
}

proof fn lemma_split_uri_block(paths: Seq<Seq<char>>)
    requires
        paths.len() > 0,
        forall|k: int| 0 <= k < paths.len() ==> newline_free(#[trigger] paths[k]),
    ensures
        split_lines(uri_block_front(paths)) == uri_lines_of(paths),
    decreases paths.len(),
{
    if paths.len() == 1 {
        let line = file_uri_prefix() + paths[0];
        assert(newline_free(paths[0]));
        assert forall|j: int| 0 <= j < line.len() implies line[j] != '\n' by {
            if j >= 7 {
                assert(line[j] == paths[0][j - 7]);
            }
        }
        lemma_split_lines_no_nl(line);
        assert(split_lines(uri_block_front(paths)) =~= uri_lines_of(paths));
    } else {
        let line = file_uri_prefix() + paths[0];
        let rest = uri_block_front(paths.drop_first());
        let whole = uri_block_front(paths);
        assert(newline_free(paths[0]));
        assert forall|j: int| 0 <= j < line.len() implies line[j] != '\n' by {
            if j >= 7 {
                assert(line[j] == paths[0][j - 7]);
            }
        }
        assert(whole =~= line + seq!['\n'] + rest);
        assert(whole[line.len() as int] == '\n');
        assert forall|j: int| 0 <= j < line.len() implies whole[j] != '\n' by {
            assert(whole[j] == line[j]);
        }
        lemma_split_lines_concat(whole, line.len() as int);
        assert(whole.subrange(0, line.len() as int) =~= line);
        assert(whole.subrange(line.len() as int + 1, whole.len() as int) =~= rest);
        assert forall|k: int|
            0 <= k < paths.drop_first().len() implies newline_free(
            #[trigger] paths.drop_first()[k],
        ) by {
            assert(paths.drop_first()[k] == paths[k + 1]);
        }
        lemma_split_uri_block(paths.drop_first());
        assert forall|k: int|
            0 <= k < uri_lines_of(paths).len() implies (seq![line] + uri_lines_of(
            paths.drop_first(),
        ))[k] == uri_lines_of(paths)[k] by {
            if k > 0 {
                assert(uri_lines_of(paths.drop_first())[k - 1] == file_uri_prefix()
                    + paths.drop_first()[k - 1]);
                assert(paths.drop_first()[k - 1] == paths[k]);
            }
        }
        assert(split_lines(whole) =~= uri_lines_of(paths));
    }
}

proof fn lemma_filter_keeps_all(lines: Seq<Seq<char>>)
    requires
        forall|k: int| 0 <= k < lines.len() ==> is_uri_line(#[trigger] lines[k]),
    ensures
        lines.filter(|l: Seq<char>| is_uri_line(l)) == lines,
    decreases lines.len(),
{
    reveal(Seq::filter);
    if lines.len() > 0 {
        lemma_filter_keeps_all(lines.drop_last());
        assert(lines.filter(|l: Seq<char>| is_uri_line(l)) =~= lines.drop_last().push(
            lines.last(),
        ));
        assert(lines.drop_last().push(lines.last()) =~= lines);
    }
}

/// The codec round trip: a payload formatted from newline-free paths
/// parses back to the same operation word and, line for line, the same
/// paths (before any percent-decoding the reader may apply).
pub proof fn lemma_payload_round_trip(paths: Seq<Seq<char>>, cut: bool)
    requires
        paths.len() > 0,
        forall|k: int| 0 <= k < paths.len() ==> newline_free(#[trigger] paths[k]),
    ensures
        stripped_lines(spec_payload(paths, cut))[0] == (if cut {
            cut_word()
        } else {
            copy_word()
        }),
        payload_uri_lines(spec_payload(paths, cut)).len() == paths.len(),
        forall|k: int|
            0 <= k < paths.len() ==> #[trigger] payload_uri_lines(spec_payload(paths, cut))[k].skip(
                7,
            ) == paths[k],
{
    let op = if cut {
        cut_word()
    } else {
        copy_word()
    };
    let payload = spec_payload(paths, cut);
    let block = uri_block(paths);
    lemma_uri_block_forms_agree(paths);
    lemma_split_uri_block(paths);
    assert(payload =~= op + seq!['\n'] + block);
    assert(payload[op.len() as int] == '\n');
    assert forall|j: int| 0 <= j < op.len() implies payload[j] != '\n' by {
        assert(payload[j] == op[j]);
    }
    lemma_split_lines_concat(payload, op.len() as int);
    assert(payload.subrange(0, op.len() as int) =~= op);
    assert(payload.subrange(op.len() as int + 1, payload.len() as int) =~= block);
    let lines = split_lines(payload);
    assert(lines =~= seq![op] + uri_lines_of(paths));
    // No line carries a carriage return, so stripping changes nothing.
    assert(strip_cr(op) == op);
    assert(stripped_lines(payload)[0] == strip_cr(lines[0]));
    let body = stripped_lines(payload).drop_first();
    assert forall|k: int| 0 <= k < body.len() implies #[trigger] body[k] == uri_lines_of(
        paths,
    )[k] by {
        assert(body[k] == strip_cr(lines[k + 1]));
        assert(lines[k + 1] == uri_lines_of(paths)[k]);
        let line = uri_lines_of(paths)[k];
        assert(line == file_uri_prefix() + paths[k]);
        if line.len() > 0 && line.last() == '\r' {
            if paths[k].len() > 0 {
                assert(line.last() == paths[k].last());
            } else {
                assert(line.last() == file_uri_prefix().last());
            }
            assert(false);
        }
        assert(strip_cr(line) == line);
    }
    assert(body =~= uri_lines_of(paths));
    assert forall|k: int| 0 <= k < body.len() implies is_uri_line(#[trigger] body[k]) by {
        assert(body[k] == file_uri_prefix() + paths[k]);
        assert((file_uri_prefix() + paths[k]).subrange(0, 7) =~= file_uri_prefix());
    }
    lemma_filter_keeps_all(body);
    assert(payload_uri_lines(payload) == body);
    assert forall|k: int|
        0 <= k < paths.len() implies #[trigger] payload_uri_lines(payload)[k].skip(7)
        == paths[k] by {
        assert(payload_uri_lines(payload)[k] == file_uri_prefix() + paths[k]);
        assert((file_uri_prefix() + paths[k]).skip(7) =~= paths[k]);
    }
}

} // verus!
