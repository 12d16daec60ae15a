//! What the J-Link Commander runner decides from a finished process: the
//! version banner it prints, and the error reported for a failing run.

use vstd::prelude::*;
use crate::error::AppError;
use crate::text::{
    chars_of, contains, from_utf8_lossy, utf8_lossy, contains_exec, first_word, is_ws, next_non_ws, lemma_next_char_bounds, lemma_next_non_ws_bounds,
    lemma_next_ws_bounds, lines, lines_from, next_char, next_char_exec, next_non_ws_exec,
    next_ws_exec, signed_decimal, slice_chars, string_from_chars, strip_cr, trim, trim_chars,
};

verus! {

/// The text that marks the J-Link Commander banner line.
pub open spec fn banner_marker() -> Seq<char> {
    "SEGGER J-Link Commander"@
}

/// The prefix of a reported version.
pub open spec fn version_prefix() -> Seq<char> {
    "SEGGER J-Link Commander V"@
}

/// The version a single line reports: on a line that holds the banner marker,
/// the first whitespace-separated word of the text between the line's first
/// and second `'V'` (or its end), when that word is not empty.
pub open spec fn line_version(l: Seq<char>) -> Option<Seq<char>> {
    if !contains(l, banner_marker()) {
        None
    } else {
        let v = next_char(l, 'V', 0);
        if v >= l.len() {
            None
        } else {
            let ver = first_word(l.subrange(v + 1, next_char(l, 'V', v + 1)));
            if ver.len() == 0 {
                None
            } else {
                Some(version_prefix() + ver)
            }
        }
    }
}

/// The version reported by the first line, in order, that reports one.
pub open spec fn first_line_version(ls: Seq<Seq<char>>) -> Option<Seq<char>>
    decreases ls.len(),
{
    if ls.len() == 0 {
        None
    } else {
        match line_version(ls[0]) {
            Some(v) => Some(v),
            None => first_line_version(ls.drop_first()),
        }
    }
}

/// The version that J-Link Commander output reports.
pub open spec fn output_version(output: Seq<char>) -> Option<Seq<char>> {
    first_line_version(lines(output))
}

/// An exit code as the runner reports it: its decimal text, or `?` when the
/// process was ended by a signal.
pub open spec fn exit_code_text(code: Option<i32>) -> Seq<char> {
    match code {
        Some(c) => signed_decimal(c as int),
        None => "?"@,
    }
}

/// The first line of a text, or the empty text.
pub open spec fn first_line(s: Seq<char>) -> Seq<char> {
    if lines(s).len() > 0 {
        lines(s)[0]
    } else {
        Seq::empty()
    }
}

/// The text that J-Link Commander prints when its shared library is missing.
pub open spec fn missing_library_text() -> Seq<char> {
    "Could not open J-Link shared library"@
}

/// The message for a run that exited unsuccessfully.
pub open spec fn failure_message(code: Option<i32>, stdout: Seq<char>, stderr: Seq<char>) -> Seq<
    char,
> {
    let c = exit_code_text(code);
    if contains(stdout, missing_library_text()) {
        "exit="@ + c + " (Could not open J-Link shared library)"@
    } else if trim(stderr).len() > 0 {
        "exit="@ + c + " stderr="@ + trim(stderr)
    } else {
        "exit="@ + c + " stdout="@ + trim(first_line(stdout))
    }
}

/// The version of a single line `l`, computed.
fn line_version_exec(l: &Vec<char>, marker: &Vec<char>) -> (r: Option<Vec<char>>)
    requires
        marker@ == banner_marker(),
    ensures
        r matches Some(v) ==> line_version(l@) == Some(v@),
        r is None ==> line_version(l@) is None,
{
    if !contains_exec(l, marker) {
        return None;
    }
    let v = next_char_exec(l, 'V', 0);
    if v >= l.len() {
        return None;
    }
    let w = next_char_exec(l, 'V', v + 1);
    proof {
        lemma_next_char_bounds(l@, 'V', v + 1);
    }
    let seg = slice_chars(l, v + 1, w);
    let a = next_non_ws_exec(&seg, 0);
    proof {
        lemma_next_non_ws_bounds(seg@, 0);
    }
    let b = next_ws_exec(&seg, a);
    proof {
        lemma_next_ws_bounds(seg@, a as int);
    }
    if b == a {
        assert(first_word(seg@).len() == 0);
        return None;
    }
    let mut ver = slice_chars(&seg, a, b);
    let mut out = crate::text::chars_of("SEGGER J-Link Commander V");
    out.append(&mut ver);
    Some(out)
}

/// Parse the SEGGER J-Link Commander version from its banner output: the
/// first line that holds `SEGGER J-Link Commander` and a version after a `V`
/// gives `SEGGER J-Link Commander V<version>`.
pub fn parse_version(output: &str) -> (r: Option<String>)
    ensures
        r matches Some(v) ==> output_version(output@) == Some(v@),
        r is None ==> output_version(output@) is None,
{
    let s = chars_of(output);
    let marker = chars_of("SEGGER J-Link Commander");
    let mut start: usize = 0;
    while start < s.len()
        invariant
            start <= s.len(),
            s@ == output@,
            marker@ == banner_marker(),
            output_version(output@) == first_line_version(lines_from(s@, start as int)),
        decreases s.len() - start,
    {
        let e = next_char_exec(&s, '\n', start);
        proof {
            lemma_next_char_bounds(s@, '\n', start as int);
        }
        let end = if e < s.len() && e > start && s[e - 1] == '\r' {
            e - 1
        } else {
            e
        };
        let line = slice_chars(&s, start, end);
        assert(lines_from(s@, start as int)[0] == line@) by {
            if e < s.len() {
                assert(strip_cr(s@.subrange(start as int, e as int)) =~= line@);
            }
        }
        match line_version_exec(&line, &marker) {
            Some(v) => {
                return Some(string_from_chars(v.as_slice()));
            },
            None => {},
        }
        if e >= s.len() {
            assert(lines_from(s@, start as int).drop_first() =~= Seq::<Seq<char>>::empty());
            assert(first_line_version(Seq::<Seq<char>>::empty()) is None);
            return None;
        }
        assert(lines_from(s@, start as int).drop_first() =~= lines_from(s@, e + 1));
        start = e + 1;
    }
    None
}

/// The first line of `s`, computed.
fn first_line_exec(s: &Vec<char>) -> (r: Vec<char>)
    ensures
        r@ == first_line(s@),
{
    if s.len() == 0 {
        return Vec::new();
    }
    let e = next_char_exec(s, '\n', 0);
    proof {
        lemma_next_char_bounds(s@, '\n', 0);
    }
    let end = if e < s.len() && e > 0 && s[e - 1] == '\r' {
        e - 1
    } else {
        e
    };
    let r = slice_chars(s, 0, end);
    assert(lines(s@)[0] == r@) by {
        if e < s.len() {
            assert(strip_cr(s@.subrange(0, e as int)) =~= r@);
        }
    }
    r
}

/// The characters of `exit_code_text(code)`.
fn exit_code_chars(code: Option<i32>) -> (r: Vec<char>)
    ensures
        r@ == exit_code_text(code),
{
    match code {
        Some(c) => chars_of(crate::text::i32_to_string(c).as_str()),
        None => chars_of("?"),
    }
}

/// The message for a J-Link run that exited unsuccessfully: names the missing
/// shared library when stdout reports it, else quotes trimmed stderr when there
/// is any, else the trimmed first line of stdout.
pub fn failure_message_of(code: Option<i32>, stdout: &str, stderr: &str) -> (r: String)
    ensures
        r@ == failure_message(code, stdout@, stderr@),
{
    let out = chars_of(stdout);
    let err = chars_of(stderr);
    let mut msg = chars_of("exit=");
    let mut c = exit_code_chars(code);
    msg.append(&mut c);
    if contains_exec(&out, &chars_of("Could not open J-Link shared library")) {
        let mut tail = chars_of(" (Could not open J-Link shared library)");
        msg.append(&mut tail);
    } else {
        let mut t = trim_chars(&err);
        if t.len() > 0 {
            let mut tag = chars_of(" stderr=");
            msg.append(&mut tag);
            msg.append(&mut t);
        } else {
            let mut tag = chars_of(" stdout=");
            msg.append(&mut tag);
            let mut first = trim_chars(&first_line_exec(&out));
            msg.append(&mut first);
        }
    }
    string_from_chars(msg.as_slice())
}

/// The result of a finished J-Link run: its output when the process exited
/// successfully, otherwise `JLinkFailed` with `failure_message`.
pub fn run_result(success: bool, code: Option<i32>, stdout: String, stderr: String) -> (r: Result<
    (String, String),
    AppError,
>)
    ensures
        success ==> r == Ok::<(String, String), AppError>((stdout, stderr)),
        !success ==> (r matches Err(AppError::JLinkFailed(m)) && m@ == failure_message(
            code,
            stdout@,
            stderr@,
        )),
{
    if success {
        Ok((stdout, stderr))
    } else {
        Err(AppError::JLinkFailed(failure_message_of(code, stdout.as_str(), stderr.as_str())))
    }
}


/// The result of a finished J-Link run from its raw output: stdout and
/// stderr decoded lossily as UTF-8, then as `run_result` decides.
pub fn run_output_result(success: bool, code: Option<i32>, stdout: &[u8], stderr: &[u8]) -> (r:
    Result<(String, String), AppError>)
    ensures
        success ==> (r matches Ok((o, e)) && o@ == utf8_lossy(stdout@) && e@ == utf8_lossy(
            stderr@,
        )),
        !success ==> (r matches Err(AppError::JLinkFailed(m)) && m@ == failure_message(
            code,
            utf8_lossy(stdout@),
            utf8_lossy(stderr@),
        )),
{
    let out = from_utf8_lossy(stdout);
    let err = from_utf8_lossy(stderr);
    run_result(success, code, out, err)
}

/// A reported version: the prefix, then a non-empty word without whitespace
/// and without `V`.
pub open spec fn is_version_text(v: Seq<char>) -> bool {
    &&& v.len() > version_prefix().len()
    &&& v.subrange(0, version_prefix().len() as int) == version_prefix()
    &&& forall|i: int|
        version_prefix().len() <= i < v.len() ==> !is_ws(#[trigger] v[i]) && v[i] != 'V'
}

proof fn lemma_line_version_shape(l: Seq<char>)
    ensures
        line_version(l) matches Some(v) ==> is_version_text(v),
{
    if let Some(v) = line_version(l) {
        let p = next_char(l, 'V', 0);
        lemma_next_char_bounds(l, 'V', 0);
        lemma_next_char_bounds(l, 'V', p + 1);
        let seg = l.subrange(p + 1, next_char(l, 'V', p + 1));
        lemma_next_non_ws_bounds(seg, 0);
        let a = next_non_ws(seg, 0);
        lemma_next_ws_bounds(seg, a);
        let ver = first_word(seg);
        let n = version_prefix().len() as int;
        assert(v == version_prefix() + ver);
        assert(v.subrange(0, n) =~= version_prefix());
        assert forall|i: int| n <= i < v.len() implies !is_ws(#[trigger] v[i]) && v[i] != 'V' by {
            assert(v[i] == ver[i - n]);
            assert(ver[i - n] == seg[a + i - n]);
            assert(seg[a + i - n] == l[p + 1 + a + i - n]);
        }
    }
}

proof fn lemma_first_line_version_shape(ls: Seq<Seq<char>>)
    ensures
        first_line_version(ls) matches Some(v) ==> is_version_text(v),
    decreases ls.len(),
{
    if ls.len() > 0 {
        lemma_line_version_shape(ls[0]);
        lemma_first_line_version_shape(ls.drop_first());
    }
}

/// A version parsed from J-Link Commander output is always
/// `SEGGER J-Link Commander V` followed by a non-empty version word that holds
/// no whitespace and no further `V`.
pub proof fn lemma_output_version_shape(output: Seq<char>)
    ensures
        output_version(output) matches Some(v) ==> is_version_text(v),
{
    lemma_first_line_version_shape(lines(output));
}

} // verus!
