//! Application of one edit operation to the current UTF-8 contents of its file, without I/O:
//! global string replacement, or replacement of a line range or of a byte range.

use vstd::prelude::*;

use crate::assistant::edit_proposal::{byte_len, EditOpV2, ReplaceRangeV2};
use crate::text::{chars_contain, chars_of, contains_sub, occurs_at, push_char, chars_occur_at};

verus! {

broadcast use vstd::utf8::encode_utf8_valid_utf8, vstd::utf8::encode_utf8_decode_utf8;

/// Why an operation cannot be applied to the contents at hand.
#[derive(Debug, Clone, PartialEq, Eq)]
pub enum EditApplyError {
    /// The operation needs a file that does not exist.
    MissingFile(String),
    /// `stringReplace` with an empty search text.
    StringReplaceEmptySearch(String),
    /// `stringReplace` whose search text does not occur (path, search).
    StringReplaceNoMatch(String, String),
    /// Line range outside the file (path, line count, start, end).
    FileReplaceLinesOob(String, usize, u32, u32),
    /// Byte range outside the file (path, byte length, start, end).
    FileReplaceBytesOob(String, usize, usize, usize),
    /// JSON configuration that does not parse (path, message).
    ConfigJsonBaseParse(String, String),
    /// JSON configuration whose root is not an object.
    ConfigJsonNotObject(String),
    /// JSON configuration that cannot be written back.
    ConfigJsonSer(String),
    /// An operation that this pure context cannot apply.
    UnsupportedInPureContext(&'static str),
}

/// Model of an [`EditApplyError`]: texts as character sequences.
pub enum ApplyFailure {
    MissingFile(Seq<char>),
    StringReplaceEmptySearch(Seq<char>),
    StringReplaceNoMatch(Seq<char>, Seq<char>),
    FileReplaceLinesOob(Seq<char>, usize, u32, u32),
    FileReplaceBytesOob(Seq<char>, usize, usize, usize),
    ConfigJsonBaseParse(Seq<char>, Seq<char>),
    ConfigJsonNotObject(Seq<char>),
    ConfigJsonSer(Seq<char>),
    UnsupportedInPureContext(Seq<char>),
}

impl View for EditApplyError {
    type V = ApplyFailure;

    open spec fn view(&self) -> ApplyFailure {
        match self {
            EditApplyError::MissingFile(p) => ApplyFailure::MissingFile(p@),
            EditApplyError::StringReplaceEmptySearch(p) => ApplyFailure::StringReplaceEmptySearch(p@),
            EditApplyError::StringReplaceNoMatch(p, s) => ApplyFailure::StringReplaceNoMatch(p@, s@),
            EditApplyError::FileReplaceLinesOob(p, n, a, b) => ApplyFailure::FileReplaceLinesOob(p@, *n, *a, *b),
            EditApplyError::FileReplaceBytesOob(p, n, a, b) => ApplyFailure::FileReplaceBytesOob(p@, *n, *a, *b),
            EditApplyError::ConfigJsonBaseParse(p, m) => ApplyFailure::ConfigJsonBaseParse(p@, m@),
            EditApplyError::ConfigJsonNotObject(p) => ApplyFailure::ConfigJsonNotObject(p@),
            EditApplyError::ConfigJsonSer(m) => ApplyFailure::ConfigJsonSer(m@),
            EditApplyError::UnsupportedInPureContext(m) => ApplyFailure::UnsupportedInPureContext(m@),
        }
    }
}

/// The model of an application outcome: the new contents as characters.
pub open spec fn applied(r: Result<String, EditApplyError>) -> Result<Seq<char>, ApplyFailure> {
    match r {
        Ok(s) => Ok(s@),
        Err(e) => Err(e@),
    }
}

/// `s` without its carriage returns.
pub open spec fn without_cr(s: Seq<char>) -> Seq<char>
    decreases s.len(),
{
    if s.len() == 0 {
        s
    } else {
        let rest = without_cr(s.drop_last());
        if s.last() == '\r' {
            rest
        } else {
            rest.push(s.last())
        }
    }
}

/// `s` with every occurrence of `pat` replaced by `rep`, occurrences taken from the left and not
/// overlapping (`str::replace`).
pub open spec fn replace_all(s: Seq<char>, pat: Seq<char>, rep: Seq<char>) -> Seq<char>
    decreases s.len(),
{
    if s.len() == 0 || pat.len() == 0 {
        s
    } else if pat.len() <= s.len() && s.subrange(0, pat.len() as int) == pat {
        rep + replace_all(s.subrange(pat.len() as int, s.len() as int), pat, rep)
    } else {
        seq![s[0]] + replace_all(s.subrange(1, s.len() as int), pat, rep)
    }
}

/// Positions of the line feeds of `s`, in order.
pub open spec fn newlines(s: Seq<char>) -> Seq<int>
    decreases s.len(),
{
    if s.len() == 0 {
        Seq::empty()
    } else {
        let rest = newlines(s.drop_last());
        if s.last() == '\n' {
            rest.push(s.len() - 1)
        } else {
            rest
        }
    }
}

/// Number of lines of `s` when split at each line feed.
pub open spec fn line_count(s: Seq<char>) -> int {
    newlines(s).len() + 1int
}

/// `s` where lines `first..=last` (1-based, within the file; lines are split at each line feed)
/// are replaced by `t`: every line outside the range is kept as it is, empty ones included, and the
/// lines are joined by line feeds.
pub open spec fn lines_replaced(s: Seq<char>, first: int, last: int, t: Seq<char>) -> Seq<char> {
    let nl = newlines(s);
    let before = if first > 1 { s.subrange(0, nl[first - 2] + 1) } else { Seq::empty() };
    let after = if last < line_count(s) { s.subrange(nl[last - 1], s.len() as int) } else { Seq::empty() };
    before + t + after
}

/// UTF-8 bytes of `s` where bytes `start..end` are replaced by the encoding of `t`.
pub open spec fn bytes_replaced(s: Seq<char>, start: int, end: int, t: Seq<char>) -> Seq<u8> {
    let b = vstd::utf8::encode_utf8(s);
    b.subrange(0, start) + vstd::utf8::encode_utf8(t) + b.subrange(end, b.len() as int)
}

/// A byte range that lies within `s` falls on character boundaries (slicing a string elsewhere
/// panics).
pub open spec fn bytes_on_boundaries(s: Seq<char>, range: ReplaceRangeV2) -> bool {
    match range {
        ReplaceRangeV2::Utf8Bytes { start_byte, end_byte } => {
            start_byte <= end_byte && end_byte <= byte_len(s) ==> {
                &&& vstd::utf8::is_char_boundary(vstd::utf8::encode_utf8(s), start_byte as int)
                &&& vstd::utf8::is_char_boundary(vstd::utf8::encode_utf8(s), end_byte as int)
            }
        },
        ReplaceRangeV2::Lines { .. } => true,
    }
}

/// The outcome of replacing `range` of `s` (the contents of `path`) by `t`.
pub open spec fn file_replace_outcome(s: Seq<char>, path: Seq<char>, range: ReplaceRangeV2, t: Seq<char>) -> Result<
    Seq<char>,
    ApplyFailure,
> {
    match range {
        ReplaceRangeV2::Lines { start_line, end_line } => {
            let n = line_count(s);
            if start_line < 1 || end_line < start_line || start_line > n || end_line > n {
                Err(ApplyFailure::FileReplaceLinesOob(path, n as usize, start_line, end_line))
            } else {
                Ok(lines_replaced(s, start_line as int, end_line as int, t))
            }
        },
        ReplaceRangeV2::Utf8Bytes { start_byte, end_byte } => {
            let len = byte_len(s);
            if end_byte < start_byte || start_byte > len || end_byte > len {
                Err(ApplyFailure::FileReplaceBytesOob(path, len, start_byte, end_byte))
            } else {
                Ok(vstd::utf8::decode_utf8(bytes_replaced(s, start_byte as int, end_byte as int, t)))
            }
        },
    }
}

/// The outcome of applying `op` to the file named `op_path` whose contents are `current`
/// (`None` when it does not exist). Carriage returns of the contents are dropped first.
pub open spec fn apply_outcome(op: EditOpV2, op_path: Seq<char>, current: Option<String>) -> Result<
    Seq<char>,
    ApplyFailure,
> {
    match op {
        EditOpV2::StringReplace { path, search, replace } => {
            if path@ != op_path {
                Err(ApplyFailure::UnsupportedInPureContext("path ne correspond pas à l’op"@))
            } else if search@.len() == 0 {
                Err(ApplyFailure::StringReplaceEmptySearch(path@))
            } else {
                match current {
                    None => Err(ApplyFailure::MissingFile(path@)),
                    Some(c) => {
                        let s = without_cr(c@);
                        if !contains_sub(s, search@) {
                            Err(ApplyFailure::StringReplaceNoMatch(path@, search@))
                        } else {
                            Ok(replace_all(s, search@, replace@))
                        }
                    },
                }
            }
        },
        EditOpV2::FileReplace { path, range, new_text } => {
            if path@ != op_path {
                Err(ApplyFailure::UnsupportedInPureContext("path ne correspond pas à l’op"@))
            } else {
                match current {
                    None => Err(ApplyFailure::MissingFile(path@)),
                    Some(c) => file_replace_outcome(without_cr(c@), path@, range, new_text@),
                }
            }
        },
    }
}

/// What `apply_one_to_utf8` needs of its inputs: contents whose length fits a machine word, and
/// a byte range that does not cut a character.
pub open spec fn apply_admissible(op: EditOpV2, op_path: Seq<char>, current: Option<String>) -> bool {
    match current {
        Some(c) => {
            &&& c@.len() < usize::MAX
            &&& match op {
                EditOpV2::FileReplace { path, range, .. } => path@ == op_path ==> bytes_on_boundaries(
                    without_cr(c@),
                    range,
                ),
                EditOpV2::StringReplace { .. } => true,
            }
        },
        None => true,
    }
}

proof fn lemma_encode_concat(a: Seq<char>, b: Seq<char>)
    ensures
        vstd::utf8::encode_utf8(a + b) == vstd::utf8::encode_utf8(a) + vstd::utf8::encode_utf8(b),
    decreases a.len(),
{
    if a.len() == 0 {
        assert(a + b =~= b);
        assert(vstd::utf8::encode_utf8(a) =~= Seq::<u8>::empty());
        assert(vstd::utf8::encode_utf8(a) + vstd::utf8::encode_utf8(b) =~= vstd::utf8::encode_utf8(b));
    } else {
        lemma_encode_concat(a.drop_first(), b);
        assert((a + b).drop_first() =~= a.drop_first() + b);
        assert((a + b)[0] == a[0]);
        assert(vstd::utf8::encode_utf8(a + b) =~= vstd::utf8::encode_scalar(a[0] as u32) + (
        vstd::utf8::encode_utf8(a.drop_first()) + vstd::utf8::encode_utf8(b)));
    }
}

proof fn lemma_without_cr_len(s: Seq<char>)
    ensures
        without_cr(s).len() <= s.len(),
    decreases s.len(),
{
    if s.len() > 0 {
        lemma_without_cr_len(s.drop_last());
    }
}

/// `s` without its carriage returns.
pub fn strip_cr(s: &str) -> (r: String)
    ensures
        r@ == without_cr(s@),
{
    let c = chars_of(s);
    let mut out = String::new();
    let mut i: usize = 0;
    while i < c.len()
        invariant
            c@ == s@,
            i <= c@.len(),
            out@ == without_cr(c@.subrange(0, i as int)),
        decreases c.len() - i,
    {
        assert(c@.subrange(0, i + 1).drop_last() =~= c@.subrange(0, i as int));
        if c[i] != '\r' {
            push_char(&mut out, c[i]);
        }
        i = i + 1;
    }
    assert(c@.subrange(0, c@.len() as int) =~= c@);
    out
}

proof fn lemma_replace_step(s: Seq<char>, pat: Seq<char>, rep: Seq<char>, i: int)
    requires
        0 <= i < s.len(),
        pat.len() > 0,
    ensures
        occurs_at(s, pat, i) ==> replace_all(s.subrange(i, s.len() as int), pat, rep) == rep + replace_all(
            s.subrange(i + pat.len(), s.len() as int),
            pat,
            rep,
        ),
        !occurs_at(s, pat, i) ==> replace_all(s.subrange(i, s.len() as int), pat, rep) == seq![s[i]]
            + replace_all(s.subrange(i + 1, s.len() as int), pat, rep),
{
    let t = s.subrange(i, s.len() as int);
    if pat.len() <= t.len() {
        assert(t.subrange(0, pat.len() as int) =~= s.subrange(i, i + pat.len()));
        assert(t.subrange(pat.len() as int, t.len() as int) =~= s.subrange(i + pat.len(), s.len() as int));
    }
    assert(t.subrange(1, t.len() as int) =~= s.subrange(i + 1, s.len() as int));
}

/// `s` with every occurrence of `pat` replaced by `rep` (see [`replace_all`]).
fn replace_all_chars(s: &Vec<char>, pat: &Vec<char>, rep: &str) -> (r: String)
    requires
        pat@.len() > 0,
    ensures
        r@ == replace_all(s@, pat@, rep@),
{
    let mut out = String::new();
    let mut i: usize = 0;
    assert(s@.subrange(0, s@.len() as int) =~= s@);
    assert(out@ + replace_all(s@, pat@, rep@) =~= replace_all(s@, pat@, rep@));
    while i < s.len()
        invariant
            pat@.len() > 0,
            i <= s@.len(),
            out@ + replace_all(s@.subrange(i as int, s@.len() as int), pat@, rep@) == replace_all(s@, pat@, rep@),
        decreases s.len() - i,
    {
        proof {
            lemma_replace_step(s@, pat@, rep@, i as int);
        }
        if chars_occur_at(s, pat, i) {
            out.append(rep);
            i = i + pat.len();
        } else {
            push_char(&mut out, s[i]);
            i = i + 1;
        }
    }
    proof {
        assert(s@.subrange(i as int, s@.len() as int) =~= Seq::<char>::empty());
        assert(out@ + Seq::<char>::empty() =~= out@);
    }
    out
}

/// Positions of the line feeds of `c`.
fn newline_positions(c: &Vec<char>) -> (r: Vec<usize>)
    ensures
        r@.map_values(|x: usize| x as int) == newlines(c@),
        r@.len() <= c@.len(),
        forall|k: int| 0 <= k < r@.len() ==> r@[k] < c@.len(),
{
    let mut out: Vec<usize> = Vec::new();
    let mut i: usize = 0;
    while i < c.len()
        invariant
            i <= c@.len(),
            out@.map_values(|x: usize| x as int) == newlines(c@.subrange(0, i as int)),
            out@.len() <= i,
            forall|k: int| 0 <= k < out@.len() ==> out@[k] < i,
        decreases c.len() - i,
    {
        assert(c@.subrange(0, i + 1).drop_last() =~= c@.subrange(0, i as int));
        if c[i] == '\n' {
            out.push(i);
            assert(out@.map_values(|x: usize| x as int) =~= newlines(c@.subrange(0, i as int)).push(i as int));
        }
        i = i + 1;
    }
    assert(c@.subrange(0, c@.len() as int) =~= c@);
    out
}

/// Replaces `range` of `s` (the contents of `path`) by `new_text`.
pub fn apply_file_replace_in_str(s: &str, path: &str, range: &ReplaceRangeV2, new_text: &str) -> (r: Result<
    String,
    EditApplyError,
>)
    requires
        s@.len() < usize::MAX,
        bytes_on_boundaries(s@, *range),
    ensures
        applied(r) == file_replace_outcome(s@, path@, *range, new_text@),
{
    match range {
        ReplaceRangeV2::Lines { start_line, end_line } => {
            let c = chars_of(s);
            let nl = newline_positions(&c);
            let n = nl.len() + 1;
            let ghost nls = newlines(s@);
            assert(nls.len() == nl@.len());
            let sli = *start_line as usize;
            let eli = *end_line as usize;
            if sli < 1 || eli < sli || sli > n || eli > n {
                return Err(EditApplyError::FileReplaceLinesOob(path.to_owned(), n, *start_line, *end_line));
            }
            proof {
                reveal_strlit("");
            }
            let before: &str = if sli > 1 {
                assert(nls[sli - 2] == nl@[sli - 2] as int);
                s.substring_char(0, nl[sli - 2] + 1)
            } else {
                ""
            };
            let after: &str = if eli < n {
                assert(nls[eli - 1] == nl@[eli - 1] as int);
                s.substring_char(nl[eli - 1], c.len())
            } else {
                ""
            };
            let ghost lr = lines_replaced(s@, sli as int, eli as int, new_text@);
            let mut out = String::new();
            out.append(before);
            out.append(new_text);
            out.append(after);
            assert(out@ =~= lr);
            Ok(out)
        },
        ReplaceRangeV2::Utf8Bytes { start_byte, end_byte } => {
            let len = s.len();
            if *end_byte < *start_byte || *start_byte > len || *end_byte > len {
                return Err(EditApplyError::FileReplaceBytesOob(path.to_owned(), len, *start_byte, *end_byte));
            }
            let (a, _) = s.split_at(*start_byte);
            let (_, b) = s.split_at(*end_byte);
            let mut out = String::new();
            out.append(a);
            out.append(new_text);
            out.append(b);
            proof {
                lemma_encode_concat(a@, new_text@);
                lemma_encode_concat(a@ + new_text@, b@);
                assert(out@ == a@ + new_text@ + b@);
                assert(vstd::utf8::encode_utf8(out@) =~= bytes_replaced(
                    s@,
                    *start_byte as int,
                    *end_byte as int,
                    new_text@,
                ));
            }
            Ok(out)
        },
    }
}

/// Applies one operation to the file named `op_path`, given its UTF-8 contents (`None` when the
/// file does not exist); `op_path` must be the operation's own path.
pub fn apply_one_to_utf8(op: &EditOpV2, op_path: &str, current: Option<String>) -> (r: Result<String, EditApplyError>)
    requires
        apply_admissible(*op, op_path@, current),
    ensures
        applied(r) == apply_outcome(*op, op_path@, current),
{
    match op {
        EditOpV2::StringReplace { path, search, replace } => {
            if !crate::text::str_eq(path.as_str(), op_path) {
                return Err(EditApplyError::UnsupportedInPureContext("path ne correspond pas à l’op"));
            }
            if search.as_str().is_empty() {
                return Err(EditApplyError::StringReplaceEmptySearch(path.clone()));
            }
            let cur = match current {
                Some(c) => c,
                None => {
                    return Err(EditApplyError::MissingFile(path.clone()));
                },
            };
            let s = strip_cr(cur.as_str());
            let sc = chars_of(s.as_str());
            let pc = chars_of(search.as_str());
            if !chars_contain(&sc, &pc) {
                return Err(EditApplyError::StringReplaceNoMatch(path.clone(), search.clone()));
            }
            Ok(replace_all_chars(&sc, &pc, replace.as_str()))
        },
        EditOpV2::FileReplace { path, range, new_text } => {
            if !crate::text::str_eq(path.as_str(), op_path) {
                return Err(EditApplyError::UnsupportedInPureContext("path ne correspond pas à l’op"));
            }
            let cur = match current {
                Some(c) => c,
                None => {
                    return Err(EditApplyError::MissingFile(path.clone()));
                },
            };
            let s = strip_cr(cur.as_str());
            proof {
                lemma_without_cr_len(cur@);
            }
            apply_file_replace_in_str(s.as_str(), path.as_str(), range, new_text.as_str())
        },
    }
}

/// `s` split at each line feed, the line feeds dropped (`str::split('\n')`): one line more than
/// there are line feeds.
pub open spec fn split_lines(s: Seq<char>) -> Seq<Seq<char>>
    decreases s.len(),
{
    if s.len() == 0 {
        seq![Seq::empty()]
    } else {
        let r = split_lines(s.drop_last());
        if s.last() == '\n' {
            r.push(Seq::empty())
        } else {
            r.update(r.len() - 1, r.last().push(s.last()))
        }
    }
}

/// `lines` joined with a line feed between each two (`join("\n")`).
pub open spec fn join_lines(lines: Seq<Seq<char>>) -> Seq<char>
    decreases lines.len(),
{
    if lines.len() == 0 {
        Seq::empty()
    } else if lines.len() == 1 {
        lines[0]
    } else {
        join_lines(lines.drop_last()) + seq!['\n'] + lines.last()
    }
}

proof fn lemma_newlines_concat(a: Seq<char>, b: Seq<char>)
    ensures
        newlines(a + b) == newlines(a) + newlines(b).map_values(|i: int| i + a.len()),
    decreases b.len(),
{
    if b.len() == 0 {
        assert(a + b =~= a);
        assert(newlines(b).map_values(|i: int| i + a.len()) =~= Seq::<int>::empty());
        assert(newlines(a) + Seq::<int>::empty() =~= newlines(a));
    } else {
        let b2 = b.drop_last();
        lemma_newlines_concat(a, b2);
        assert((a + b).drop_last() =~= a + b2);
        assert((a + b).last() == b.last());
        if b.last() == '\n' {
            assert(newlines(b).map_values(|i: int| i + a.len()) =~= newlines(b2).map_values(|i: int| i + a.len()).push(
                b.len() - 1 + a.len(),
            ));
            assert(newlines(a + b) =~= newlines(a) + newlines(b).map_values(|i: int| i + a.len()));
        } else {
            assert(newlines(b).map_values(|i: int| i + a.len()) =~= newlines(b2).map_values(|i: int| i + a.len()));
        }
    }
}

proof fn lemma_newlines_none(a: Seq<char>)
    requires
        !a.contains('\n'),
    ensures
        newlines(a) == Seq::<int>::empty(),
    decreases a.len(),
{
    if a.len() > 0 {
        assert(!a.drop_last().contains('\n')) by {
            if a.drop_last().contains('\n') {
                let i = choose|i: int| 0 <= i < a.drop_last().len() && a.drop_last()[i] == '\n';
                assert(a[i] == '\n');
            }
        }
        lemma_newlines_none(a.drop_last());
        assert(a[a.len() - 1] == a.last());
    }
}

/// Splitting at line feeds gives one line more than line feeds, none holding a line feed, and
/// joining them back gives the text.
pub proof fn lemma_split_join_lines(s: Seq<char>)
    ensures
        split_lines(s).len() == line_count(s),
        forall|i: int| 0 <= i < split_lines(s).len() ==> !(#[trigger] split_lines(s)[i]).contains('\n'),
        join_lines(split_lines(s)) == s,
    decreases s.len(),
{
    if s.len() == 0 {
        assert(!Seq::<char>::empty().contains('\n'));
    } else {
        let s2 = s.drop_last();
        lemma_split_join_lines(s2);
        let r = split_lines(s2);
        let c = s.last();
        assert(s2.push(c) =~= s);
        if c == '\n' {
            let r2 = r.push(Seq::<char>::empty());
            assert(r2.drop_last() =~= r);
            assert forall|i: int| 0 <= i < r2.len() implies !(#[trigger] r2[i]).contains('\n') by {
                if i == r.len() {
                    assert(!Seq::<char>::empty().contains('\n'));
                }
            }
            assert(join_lines(r2) =~= s);
        } else {
            let last = r.last().push(c);
            let r2 = r.update(r.len() - 1, last);
            assert forall|i: int| 0 <= i < r2.len() implies !(#[trigger] r2[i]).contains('\n') by {
                if i == r.len() - 1 {
                    if last.contains('\n') {
                        let j = choose|j: int| 0 <= j < last.len() && last[j] == '\n';
                        if j < r.last().len() {
                            assert(r[r.len() - 1][j] == '\n');
                            assert(r[r.len() - 1].contains('\n'));
                        }
                    }
                }
            }
            if r.len() == 1 {
                assert(join_lines(r2) =~= s);
            } else {
                assert(r2.drop_last() =~= r.drop_last());
                assert(join_lines(r2) =~= s);
            }
        }
    }
}

proof fn lemma_join_append(a: Seq<Seq<char>>, b: Seq<Seq<char>>)
    requires
        a.len() >= 1,
        b.len() >= 1,
    ensures
        join_lines(a + b) == join_lines(a) + seq!['\n'] + join_lines(b),
    decreases b.len(),
{
    if b.len() == 1 {
        assert((a + b).drop_last() =~= a);
        assert((a + b).last() == b[0]);
    } else {
        let b2 = b.drop_last();
        lemma_join_append(a, b2);
        assert((a + b).drop_last() =~= a + b2);
        assert((a + b).last() == b.last());
        assert(join_lines(a + b) =~= join_lines(a) + seq!['\n'] + join_lines(b));
    }
}

proof fn lemma_join_newlines(p: Seq<Seq<char>>)
    requires
        p.len() >= 1,
        forall|i: int| 0 <= i < p.len() ==> !(#[trigger] p[i]).contains('\n'),
    ensures
        newlines(join_lines(p)).len() == p.len() - 1,
    decreases p.len(),
{
    if p.len() == 1 {
        lemma_newlines_none(p[0]);
    } else {
        let p2 = p.drop_last();
        lemma_join_newlines(p2);
        let a = join_lines(p2) + seq!['\n'];
        assert(a.drop_last() =~= join_lines(p2));
        lemma_newlines_concat(a, p.last());
        lemma_newlines_none(p.last());
    }
}

/// Where `s` splits into lines `a + b` (both non-empty), the line feed between them is line feed
/// number `a.len() - 1`, and it stands right after the text of `a`.
proof fn lemma_split_point(s: Seq<char>, a: Seq<Seq<char>>, b: Seq<Seq<char>>)
    requires
        split_lines(s) == a + b,
        a.len() >= 1,
        b.len() >= 1,
    ensures
        s == join_lines(a) + seq!['\n'] + join_lines(b),
        newlines(s)[a.len() - 1] == join_lines(a).len(),
{
    lemma_split_join_lines(s);
    lemma_join_append(a, b);
    assert forall|i: int| 0 <= i < a.len() implies !(#[trigger] a[i]).contains('\n') by {
        assert(a[i] == split_lines(s)[i]);
    }
    lemma_join_newlines(a);
    let x = join_lines(a) + seq!['\n'];
    assert(x.drop_last() =~= join_lines(a));
    assert(s =~= x + join_lines(b));
    lemma_newlines_concat(x, join_lines(b));
}

/// Replacing lines `first..=last` keeps every other line as it is, empty ones included: the result
/// is the lines of `s` before `first`, then `t`, then the lines after `last`, joined by line feeds.
pub proof fn lemma_lines_replaced_keeps_other_lines(s: Seq<char>, first: int, last: int, t: Seq<char>)
    requires
        1 <= first <= last <= line_count(s),
    ensures
        lines_replaced(s, first, last, t) == join_lines(
            split_lines(s).subrange(0, first - 1) + seq![t] + split_lines(s).subrange(last, line_count(s)),
        ),
{
    lemma_split_join_lines(s);
    let ls = split_lines(s);
    let n = line_count(s);
    let p = ls.subrange(0, first - 1);
    let q = ls.subrange(last, n);
    let before = if first > 1 { s.subrange(0, newlines(s)[first - 2] + 1) } else { Seq::empty() };
    let after = if last < n { s.subrange(newlines(s)[last - 1], s.len() as int) } else { Seq::empty() };
    if first > 1 {
        assert(ls =~= p + ls.subrange(first - 1, n));
        lemma_split_point(s, p, ls.subrange(first - 1, n));
        assert(before =~= join_lines(p) + seq!['\n']);
    }
    if last < n {
        assert(ls =~= ls.subrange(0, last) + q);
        lemma_split_point(s, ls.subrange(0, last), q);
        assert(after =~= seq!['\n'] + join_lines(q));
    }
    let mid = seq![t];
    if first > 1 && last < n {
        lemma_join_append(p, mid + q);
        lemma_join_append(mid, q);
        assert(p + mid + q =~= p + (mid + q));
        assert(join_lines(p + mid + q) =~= before + t + after);
    } else if first > 1 {
        assert(q =~= Seq::<Seq<char>>::empty());
        assert(p + mid + q =~= p + mid);
        lemma_join_append(p, mid);
        assert(join_lines(p + mid + q) =~= before + t + after);
    } else if last < n {
        assert(p =~= Seq::<Seq<char>>::empty());
        assert(p + mid + q =~= mid + q);
        lemma_join_append(mid, q);
        assert(join_lines(p + mid + q) =~= before + t + after);
    } else {
        assert(p + mid + q =~= mid);
        assert(join_lines(p + mid + q) =~= before + t + after);
    }
}

} // verus!
