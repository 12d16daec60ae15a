//! Path text as `std::path` reads it: separators, the segments between them,
//! the check that a zip entry name stays inside the extraction directory, and
//! joining a file name onto a POSIX path.

use vstd::prelude::*;
use crate::text::{chars_of, string_from_chars};

verus! {

/// Which platform's path rules apply.
#[derive(Clone, Copy, Debug, PartialEq, Eq, Structural)]
pub enum PathStyle {
    /// `/` separates components; a leading `/` is the root.
    Unix,
    /// `/` and `\` separate components; a leading separator is a root and a
    /// leading `X:` (an ASCII letter and a colon) is a drive prefix.
    Windows,
}

/// `c` separates path components.
pub open spec fn is_sep(style: PathStyle, c: char) -> bool {
    c == '/' || (style == PathStyle::Windows && c == '\\')
}

/// An ASCII letter.
pub open spec fn is_ascii_alpha(c: char) -> bool {
    ('a' <= c <= 'z') || ('A' <= c <= 'Z')
}

/// The path starts with a root (a separator) or, on Windows, a drive prefix.
pub open spec fn has_root_or_prefix(style: PathStyle, s: Seq<char>) -> bool {
    ||| (s.len() > 0 && is_sep(style, s[0]))
    ||| (style == PathStyle::Windows && s.len() >= 2 && is_ascii_alpha(s[0]) && s[1] == ':')
}

/// First index `>= i` holding a separator, or `s.len()`.
pub open spec fn next_sep(style: PathStyle, s: Seq<char>, i: int) -> int
    decreases s.len() - i,
{
    if i >= s.len() {
        s.len() as int
    } else if is_sep(style, s[i]) {
        i
    } else {
        next_sep(style, s, i + 1)
    }
}

/// The pieces of `s[start..]` between separators, empty pieces included.
pub open spec fn segments_from(style: PathStyle, s: Seq<char>, start: int) -> Seq<Seq<char>>
    decreases s.len() - start,
{
    if start < 0 || start > s.len() {
        Seq::empty()
    } else {
        let e = next_sep(style, s, start);
        if e >= s.len() {
            seq![s.subrange(start, s.len() as int)]
        } else {
            proof {
                lemma_next_sep_bounds(style, s, start);
            }
            seq![s.subrange(start, e)] + segments_from(style, s, e + 1)
        }
    }
}

/// The pieces of `s` between separators.
pub open spec fn segments(style: PathStyle, s: Seq<char>) -> Seq<Seq<char>> {
    segments_from(style, s, 0)
}

/// The segment `..`.
pub open spec fn is_parent_seg(g: Seq<char>) -> bool {
    g == seq!['.', '.']
}

/// A segment that names something: not empty and not `.` (those two are
/// skipped by `Path::components`).
pub open spec fn is_named_seg(g: Seq<char>) -> bool {
    g.len() > 0 && g != seq!['.']
}

/// The named segments of `gs`, in order.
pub open spec fn named_segs(gs: Seq<Seq<char>>) -> Seq<Seq<char>>
    decreases gs.len(),
{
    if gs.len() == 0 {
        Seq::empty()
    } else if is_named_seg(gs.last()) {
        named_segs(gs.drop_last()).push(gs.last())
    } else {
        named_segs(gs.drop_last())
    }
}

/// The components under which a zip entry named `s` is written below the
/// extraction directory, or `None` when the name is refused: it is refused
/// when it is absolute or starts with a root or a drive prefix, or when one of
/// its components is `..`; otherwise its components are its named segments.
pub open spec fn entry_components(style: PathStyle, s: Seq<char>) -> Option<Seq<Seq<char>>> {
    if has_root_or_prefix(style, s) || exists|i: int|
        0 <= i < segments(style, s).len() && is_parent_seg(#[trigger] segments(style, s)[i]) {
        None
    } else {
        Some(named_segs(segments(style, s)))
    }
}

/// A single plain file name: not empty, not `.` or `..`, and without a
/// separator, so it names an entry directly inside a directory.
pub open spec fn is_plain_name(style: PathStyle, g: Seq<char>) -> bool {
    &&& g.len() > 0
    &&& g != seq!['.']
    &&& g != seq!['.', '.']
    &&& forall|j: int| 0 <= j < g.len() ==> !is_sep(style, g[j])
}

/// `PathBuf::push` of a relative name onto a POSIX path: a `/` is put between
/// them unless the base is empty or already ends with one.
pub open spec fn unix_join(base: Seq<char>, name: Seq<char>) -> Seq<char> {
    if base.len() > 0 && base.last() != '/' {
        base + seq!['/'] + name
    } else {
        base + name
    }
}

pub proof fn lemma_next_sep_bounds(style: PathStyle, s: Seq<char>, i: int)
    requires
        0 <= i <= s.len(),
    ensures
        i <= next_sep(style, s, i) <= s.len(),
        next_sep(style, s, i) < s.len() ==> is_sep(style, s[next_sep(style, s, i)]),
        forall|k: int| i <= k < next_sep(style, s, i) ==> !is_sep(style, #[trigger] s[k]),
    decreases s.len() - i,
{
    if i < s.len() && !is_sep(style, s[i]) {
        lemma_next_sep_bounds(style, s, i + 1);
    }
}

/// No segment holds a separator.
pub proof fn lemma_segments_from_have_no_sep(style: PathStyle, s: Seq<char>, start: int)
    requires
        0 <= start <= s.len(),
    ensures
        forall|i: int, j: int|
            0 <= i < segments_from(style, s, start).len() && 0 <= j < segments_from(
                style,
                s,
                start,
            )[i].len() ==> !is_sep(style, #[trigger] segments_from(style, s, start)[i][j]),
    decreases s.len() - start,
{
    lemma_next_sep_bounds(style, s, start);
    let e = next_sep(style, s, start);
    if e < s.len() {
        lemma_segments_from_have_no_sep(style, s, e + 1);
        let rest = segments_from(style, s, e + 1);
        assert forall|i: int, j: int|
            0 <= i < segments_from(style, s, start).len() && 0 <= j < segments_from(
                style,
                s,
                start,
            )[i].len() implies !is_sep(style, #[trigger] segments_from(style, s, start)[i][j]) by {
            if i == 0 {
                assert(segments_from(style, s, start)[0][j] == s[start + j]);
            } else {
                assert(segments_from(style, s, start)[i] == rest[i - 1]);
            }
        }
    } else {
        assert forall|i: int, j: int|
            0 <= i < segments_from(style, s, start).len() && 0 <= j < segments_from(
                style,
                s,
                start,
            )[i].len() implies !is_sep(style, #[trigger] segments_from(style, s, start)[i][j]) by {
            assert(segments_from(style, s, start)[0][j] == s[start + j]);
        }
    }
}

/// Every named segment is a named segment of the input.
pub proof fn lemma_named_segs_subset(gs: Seq<Seq<char>>)
    ensures
        forall|i: int|
            0 <= i < named_segs(gs).len() ==> is_named_seg(#[trigger] named_segs(gs)[i])
                && exists|k: int| 0 <= k < gs.len() && gs[k] == named_segs(gs)[i],
    decreases gs.len(),
{
    if gs.len() > 0 {
        lemma_named_segs_subset(gs.drop_last());
        let prev = named_segs(gs.drop_last());
        assert forall|i: int| 0 <= i < named_segs(gs).len() implies is_named_seg(
            #[trigger] named_segs(gs)[i],
        ) && exists|k: int| 0 <= k < gs.len() && gs[k] == named_segs(gs)[i] by {
            if i < prev.len() {
                assert(named_segs(gs)[i] == prev[i]);
                let k = choose|k: int| 0 <= k < gs.drop_last().len() && gs.drop_last()[k] == prev[i];
                assert(gs[k] == named_segs(gs)[i]);
            } else {
                assert(gs[gs.len() - 1] == named_segs(gs)[i]);
            }
        }
    }
}

/// A zip entry's components: when the name is accepted, each component is a
/// plain name (not empty, not `.`, not `..`, free of separators). On Unix,
/// pushing such names onto a directory never leaves it. On Windows a later
/// component may still look like a drive (`C:`), which `PathBuf::push` treats
/// as a new prefix; such names are accepted, as `Path::components` yields them
/// as normal components.
pub proof fn lemma_entry_components_are_plain_names(
    style: PathStyle,
    s: Seq<char>,
    cs: Seq<Seq<char>>,
)
    requires
        entry_components(style, s) == Some(cs),
    ensures
        forall|i: int| 0 <= i < cs.len() ==> is_plain_name(style, #[trigger] cs[i]),
{
    let gs = segments(style, s);
    lemma_named_segs_subset(gs);
    lemma_segments_from_have_no_sep(style, s, 0);
    assert forall|i: int| 0 <= i < cs.len() implies is_plain_name(style, #[trigger] cs[i]) by {
        assert(is_named_seg(named_segs(gs)[i]));
        let k = choose|k: int| 0 <= k < gs.len() && gs[k] == named_segs(gs)[i];
        assert(!is_parent_seg(gs[k]));
        assert forall|j: int| 0 <= j < cs[i].len() implies !is_sep(style, cs[i][j]) by {
            assert(gs[k][j] == cs[i][j]);
        }
    }
}

/// Whether `c` separates components.
pub fn is_separator(style: PathStyle, c: char) -> (r: bool)
    ensures
        r == is_sep(style, c),
{
    c == '/' || (style == PathStyle::Windows && c == '\\')
}

/// `next_sep(style, s, from)`.
fn next_sep_exec(style: PathStyle, s: &Vec<char>, from: usize) -> (r: usize)
    requires
        from <= s.len(),
    ensures
        r == next_sep(style, s@, from as int),
{
    let mut i = from;
    while i < s.len()
        invariant
            from <= i <= s.len(),
            next_sep(style, s@, from as int) == next_sep(style, s@, i as int),
        decreases s.len() - i,
    {
        if is_separator(style, s[i]) {
            return i;
        }
        i += 1;
    }
    i
}

/// The components of a zip entry name `name` to write below the extraction
/// directory, or `None` when the name would leave it: absolute names, names
/// with a root or drive prefix, and names with a `..` component are refused.
/// Accepted components are plain names (see
/// `lemma_entry_components_are_plain_names`).
pub fn zip_entry_components(style: PathStyle, name: &str) -> (r: Option<Vec<String>>)
    ensures
        r is None <==> entry_components(style, name@) is None,
        r matches Some(v) ==> entry_components(style, name@) == Some(
            v@.map_values(|x: String| x@),
        ),
        r matches Some(v) ==> forall|i: int|
            0 <= i < v.len() ==> is_plain_name(style, (#[trigger] v@[i])@),
{
    let s = chars_of(name);
    let n = s.len();
    if n > 0 && is_separator(style, s[0]) {
        return None;
    }
    if style == PathStyle::Windows && n >= 2 && s[1] == ':' && (('a' <= s[0] && s[0] <= 'z') || (
    'A' <= s[0] && s[0] <= 'Z')) {
        return None;
    }
    let ghost all = segments(style, s@);
    let ghost mut done: Seq<Seq<char>> = Seq::empty();
    let mut out: Vec<String> = Vec::new();
    let mut start: usize = 0;
    loop
        invariant
            start <= n,
            n == s.len(),
            s@ == name@,
            !has_root_or_prefix(style, s@),
            all == segments(style, s@),
            all == done + segments_from(style, s@, start as int),
            forall|i: int| 0 <= i < done.len() ==> !is_parent_seg(#[trigger] done[i]),
            out@.map_values(|x: String| x@) == named_segs(done),
        decreases n - start,
    {
        let e = next_sep_exec(style, &s, start);
        proof {
            lemma_next_sep_bounds(style, s@, start as int);
        }
        let seg = crate::text::slice_chars(&s, start, e);
        let ghost prev_done = done;
        proof {
            done = done.push(seg@);
        }
        if seg.len() == 2 && seg[0] == '.' && seg[1] == '.' {
            assert(all[prev_done.len() as int] == seg@);
            assert(is_parent_seg(seg@)) by {
                assert(seg@ =~= seq!['.', '.']);
            }
            return None;
        }
        let named = seg.len() > 0 && !(seg.len() == 1 && seg[0] == '.');
        assert(named == is_named_seg(seg@)) by {
            if seg.len() == 1 && seg[0] == '.' {
                assert(seg@ =~= seq!['.']);
            }
        }
        assert(done.drop_last() =~= prev_done);
        if named {
            let piece = string_from_chars(seg.as_slice());
            out.push(piece);
            assert(out@.map_values(|x: String| x@) =~= named_segs(done));
        } else {
            assert(out@.map_values(|x: String| x@) =~= named_segs(done));
        }
        if e >= n {
            assert(segments_from(style, s@, start as int) =~= seq![seg@]);
            assert(all =~= done);
            assert forall|i: int| 0 <= i < segments(style, name@).len() implies !is_parent_seg(
                #[trigger] segments(style, name@)[i],
            ) by {
                assert(segments(style, name@)[i] == done[i]);
            }
            proof {
                let cs = out@.map_values(|x: String| x@);
                assert(cs == named_segs(segments(style, name@)));
                assert(entry_components(style, name@) == Some(cs));
                lemma_entry_components_are_plain_names(style, name@, cs);
                assert forall|i: int| 0 <= i < out.len() implies is_plain_name(
                    style,
                    (#[trigger] out@[i])@,
                ) by {
                    assert(cs[i] == out@[i]@);
                }
            }
            return Some(out);
        }
        assert(segments_from(style, s@, start as int) =~= seq![seg@] + segments_from(
            style,
            s@,
            e + 1,
        ));
        assert(all =~= done + segments_from(style, s@, e + 1));
        start = e + 1;
    }
}

/// `PathBuf::push` of a relative file name onto a POSIX path (see `unix_join`).
pub fn join_unix(base: &str, name: &str) -> (r: String)
    ensures
        r@ == unix_join(base@, name@),
{
    let mut v = chars_of(base);
    let mut n = chars_of(name);
    if v.len() > 0 && v[v.len() - 1] != '/' {
        v.push('/');
    }
    v.append(&mut n);
    assert(v@ =~= unix_join(base@, name@));
    string_from_chars(v.as_slice())
}

} // verus!
