//! Character-level text utilities with exact specifications: substring search,
//! Unicode whitespace trimming, line splitting as `str::lines` does it, decimal
//! rendering, and the two conversions taken from `std` (lossy UTF-8 decoding
//! and Unicode lowercasing).

use vstd::prelude::*;
use vstd::utf8::{decode_utf8, valid_utf8};

verus! {

/// `char::is_whitespace`: the Unicode `White_Space` property.
pub open spec fn is_ws(c: char) -> bool {
    let x = c as u32;
    ||| 0x09 <= x <= 0x0D
    ||| x == 0x20
    ||| x == 0x85
    ||| x == 0xA0
    ||| x == 0x1680
    ||| 0x2000 <= x <= 0x200A
    ||| x == 0x2028
    ||| x == 0x2029
    ||| x == 0x202F
    ||| x == 0x205F
    ||| x == 0x3000
}

/// Every character is in the ASCII range.
pub open spec fn is_ascii(s: Seq<char>) -> bool {
    forall|i: int| 0 <= i < s.len() ==> (#[trigger] s[i] as u32) < 128
}

/// ASCII lowercasing of one character; other characters are unchanged.
pub open spec fn ascii_lower_char(c: char) -> char {
    if 'A' <= c <= 'Z' {
        ((c as u32) + 32) as char
    } else {
        c
    }
}

/// ASCII lowercasing of a string.
pub open spec fn ascii_lower(s: Seq<char>) -> Seq<char> {
    s.map_values(|c: char| ascii_lower_char(c))
}

/// What `str::to_lowercase` returns (full Unicode case mapping, including the
/// context-dependent final sigma).
pub uninterp spec fn unicode_lowercase(s: Seq<char>) -> Seq<char>;

/// Lowercasing as `str::to_lowercase` does it: on ASCII input it is ASCII
/// lowercasing; otherwise it is the Unicode mapping named above.
pub open spec fn lower(s: Seq<char>) -> Seq<char> {
    if is_ascii(s) {
        ascii_lower(s)
    } else {
        unicode_lowercase(s)
    }
}

/// What `String::from_utf8_lossy` decodes from a byte string (invalid
/// sequences become U+FFFD).
pub uninterp spec fn utf8_lossy(b: Seq<u8>) -> Seq<char>;

/// The texts of a sequence of strings.
pub open spec fn views(v: Seq<String>) -> Seq<Seq<char>> {
    v.map_values(|x: String| x@)
}

/// `needle` occurs in `hay` starting at index `i`.
pub open spec fn matches_at(hay: Seq<char>, needle: Seq<char>, i: int) -> bool {
    &&& 0 <= i
    &&& i + needle.len() <= hay.len()
    &&& hay.subrange(i, i + needle.len()) == needle
}

/// `str::contains` with a string pattern.
pub open spec fn contains(hay: Seq<char>, needle: Seq<char>) -> bool {
    exists|i: int| matches_at(hay, needle, i)
}

/// `str::ends_with` with a string pattern.
pub open spec fn ends_with(hay: Seq<char>, needle: Seq<char>) -> bool {
    matches_at(hay, needle, hay.len() - needle.len())
}

/// First index `>= i` holding `c`, or `s.len()` when there is none.
pub open spec fn next_char(s: Seq<char>, c: char, i: int) -> int
    decreases s.len() - i,
{
    if i >= s.len() {
        s.len() as int
    } else if s[i] == c {
        i
    } else {
        next_char(s, c, i + 1)
    }
}

/// First index `>= i` holding a whitespace character, or `s.len()`.
pub open spec fn next_ws(s: Seq<char>, i: int) -> int
    decreases s.len() - i,
{
    if i >= s.len() {
        s.len() as int
    } else if is_ws(s[i]) {
        i
    } else {
        next_ws(s, i + 1)
    }
}

/// First index `>= i` holding a non-whitespace character, or `s.len()`.
pub open spec fn next_non_ws(s: Seq<char>, i: int) -> int
    decreases s.len() - i,
{
    if i >= s.len() {
        s.len() as int
    } else if !is_ws(s[i]) {
        i
    } else {
        next_non_ws(s, i + 1)
    }
}

/// End of `s[..j]` once trailing whitespace is dropped.
pub open spec fn trimmed_end(s: Seq<char>, j: int) -> int
    decreases j,
{
    if j <= 0 {
        0
    } else if is_ws(s[j - 1]) {
        trimmed_end(s, j - 1)
    } else {
        j
    }
}

/// `str::trim`: leading and trailing Unicode whitespace removed.
pub open spec fn trim(s: Seq<char>) -> Seq<char> {
    let a = next_non_ws(s, 0);
    if a >= s.len() {
        Seq::empty()
    } else {
        s.subrange(a, trimmed_end(s, s.len() as int))
    }
}

/// `s.split_whitespace().next().unwrap_or("")`: the first maximal run of
/// non-whitespace characters, or the empty string.
pub open spec fn first_word(s: Seq<char>) -> Seq<char> {
    let a = next_non_ws(s, 0);
    s.subrange(a, next_ws(s, a))
}

/// A line without its `'\r'` when one ends it.
pub open spec fn strip_cr(l: Seq<char>) -> Seq<char> {
    if l.len() > 0 && l.last() == '\r' {
        l.drop_last()
    } else {
        l
    }
}

/// The lines of `s[start..]` as `str::lines` yields them: split after each
/// `'\n'`, that `'\n'` and a `'\r'` just before it removed; a last piece without
/// a `'\n'` is kept as it is, and an empty remainder yields nothing.
pub open spec fn lines_from(s: Seq<char>, start: int) -> Seq<Seq<char>>
    decreases s.len() - start,
{
    if start < 0 || start >= s.len() {
        Seq::empty()
    } else {
        let e = next_char(s, '\n', start);
        if e >= s.len() {
            seq![s.subrange(start, s.len() as int)]
        } else {
            proof {
                lemma_next_char_bounds(s, '\n', start);
            }
            seq![strip_cr(s.subrange(start, e))] + lines_from(s, e + 1)
        }
    }
}

/// `str::lines`.
pub open spec fn lines(s: Seq<char>) -> Seq<Seq<char>> {
    lines_from(s, 0)
}

/// The pieces of `s[start..]` between occurrences of `c` (as `str::split`
/// yields them, empty pieces included).
pub open spec fn split_from(s: Seq<char>, c: char, start: int) -> Seq<Seq<char>>
    decreases s.len() - start,
{
    if start < 0 || start > s.len() {
        Seq::empty()
    } else {
        let e = next_char(s, c, start);
        if e >= s.len() {
            seq![s.subrange(start, s.len() as int)]
        } else {
            proof {
                lemma_next_char_bounds(s, c, start);
            }
            seq![s.subrange(start, e)] + split_from(s, c, e + 1)
        }
    }
}

/// `str::split` on a character.
pub open spec fn split(s: Seq<char>, c: char) -> Seq<Seq<char>> {
    split_from(s, c, 0)
}

/// The decimal digit character for `d` in `0..10`.
pub open spec fn digit_char(d: int) -> char {
    (d + 48) as char
}

/// Decimal rendering of a natural number, as `ToString` gives it.
pub open spec fn decimal(n: nat) -> Seq<char>
    decreases n,
{
    if n < 10 {
        seq![digit_char(n as int)]
    } else {
        decimal(n / 10) + seq![digit_char((n % 10) as int)]
    }
}

/// Decimal rendering of an integer, with a leading `'-'` when it is negative.
pub open spec fn signed_decimal(n: int) -> Seq<char> {
    if n < 0 {
        seq!['-'] + decimal((-n) as nat)
    } else {
        decimal(n as nat)
    }
}

pub proof fn lemma_next_char_bounds(s: Seq<char>, c: char, i: int)
    requires
        0 <= i <= s.len(),
    ensures
        i <= next_char(s, c, i) <= s.len(),
        next_char(s, c, i) < s.len() ==> s[next_char(s, c, i)] == c,
        forall|k: int| i <= k < next_char(s, c, i) ==> s[k] != c,
    decreases s.len() - i,
{
    if i < s.len() && s[i] != c {
        lemma_next_char_bounds(s, c, i + 1);
    }
}

pub proof fn lemma_next_ws_bounds(s: Seq<char>, i: int)
    requires
        0 <= i <= s.len(),
    ensures
        i <= next_ws(s, i) <= s.len(),
        next_ws(s, i) < s.len() ==> is_ws(s[next_ws(s, i)]),
        forall|k: int| i <= k < next_ws(s, i) ==> !is_ws(#[trigger] s[k]),
    decreases s.len() - i,
{
    if i < s.len() && !is_ws(s[i]) {
        lemma_next_ws_bounds(s, i + 1);
    }
}

pub proof fn lemma_next_non_ws_bounds(s: Seq<char>, i: int)
    requires
        0 <= i <= s.len(),
    ensures
        i <= next_non_ws(s, i) <= s.len(),
        next_non_ws(s, i) < s.len() ==> !is_ws(s[next_non_ws(s, i)]),
        forall|k: int| i <= k < next_non_ws(s, i) ==> is_ws(#[trigger] s[k]),
    decreases s.len() - i,
{
    if i < s.len() && is_ws(s[i]) {
        lemma_next_non_ws_bounds(s, i + 1);
    }
}

pub proof fn lemma_trimmed_end_bounds(s: Seq<char>, j: int)
    requires
        0 <= j <= s.len(),
    ensures
        0 <= trimmed_end(s, j) <= j,
        trimmed_end(s, j) > 0 ==> !is_ws(s[trimmed_end(s, j) - 1]),
        forall|k: int| trimmed_end(s, j) <= k < j ==> is_ws(#[trigger] s[k]),
    decreases j,
{
    if j > 0 && is_ws(s[j - 1]) {
        lemma_trimmed_end_bounds(s, j - 1);
    }
}

/// `next_char` is unchanged by a prefix.
pub proof fn lemma_next_char_shift(p: Seq<char>, q: Seq<char>, c: char, j: int)
    requires
        0 <= j <= q.len(),
    ensures
        next_char(p + q, c, p.len() + j) == p.len() + next_char(q, c, j),
    decreases q.len() - j,
{
    if j < q.len() {
        assert((p + q)[p.len() + j] == q[j]);
        if q[j] != c {
            lemma_next_char_shift(p, q, c, j + 1);
        }
    }
}

/// `split_from` is unchanged by a prefix.
pub proof fn lemma_split_from_shift(p: Seq<char>, q: Seq<char>, c: char, j: int)
    requires
        0 <= j <= q.len(),
    ensures
        split_from(p + q, c, p.len() + j) == split_from(q, c, j),
    decreases q.len() - j,
{
    let s = p + q;
    lemma_next_char_shift(p, q, c, j);
    lemma_next_char_bounds(q, c, j);
    let e = next_char(q, c, j);
    if e >= q.len() {
        assert(s.subrange(p.len() + j, s.len() as int) =~= q.subrange(j, q.len() as int));
    } else {
        assert(s.subrange(p.len() + j, p.len() + e) =~= q.subrange(j, e));
        lemma_split_from_shift(p, q, c, e + 1);
    }
}

/// Before the separator that joins `a` and `b`, `next_char` sees only `a`.
pub proof fn lemma_next_char_joined(a: Seq<char>, b: Seq<char>, c: char, start: int)
    requires
        0 <= start <= a.len(),
    ensures
        next_char(a + seq![c] + b, c, start) == next_char(a, c, start),
    decreases a.len() - start,
{
    let s = a + seq![c] + b;
    if start < a.len() {
        assert(s[start] == a[start]);
        if a[start] != c {
            lemma_next_char_joined(a, b, c, start + 1);
        }
    } else {
        assert(s[a.len() as int] == c);
    }
}

/// Splitting `a`, the separator, then `b` splits `a` and `b` apart.
pub proof fn lemma_split_joined(a: Seq<char>, b: Seq<char>, c: char, start: int)
    requires
        0 <= start <= a.len(),
    ensures
        split_from(a + seq![c] + b, c, start) == split_from(a, c, start) + split(b, c),
    decreases a.len() - start,
{
    let s = a + seq![c] + b;
    lemma_next_char_joined(a, b, c, start);
    lemma_next_char_bounds(a, c, start);
    let e = next_char(a, c, start);
    if e < a.len() {
        assert(s.subrange(start, e) =~= a.subrange(start, e));
        lemma_split_joined(a, b, c, e + 1);
        assert(split_from(s, c, start) =~= seq![a.subrange(start, e)] + split_from(s, c, e + 1));
        assert(split_from(a, c, start) =~= seq![a.subrange(start, e)] + split_from(a, c, e + 1));
        assert(split_from(s, c, start) =~= split_from(a, c, start) + split(b, c));
    } else {
        assert(s.subrange(start, a.len() as int) =~= a.subrange(start, a.len() as int));
        assert(s =~= (a + seq![c]) + b);
        lemma_split_from_shift(a + seq![c], b, c, 0);
        assert(split_from(s, c, start) =~= seq![a.subrange(start, a.len() as int)] + split(b, c));
    }
}

/// The pieces of a split never hold the separator.
pub proof fn lemma_split_from_pieces(s: Seq<char>, c: char, start: int)
    requires
        0 <= start <= s.len(),
    ensures
        forall|i: int|
            0 <= i < split_from(s, c, start).len() ==> !(#[trigger] split_from(s, c, start)[i]).contains(
                c,
            ),
    decreases s.len() - start,
{
    lemma_next_char_bounds(s, c, start);
    let e = next_char(s, c, start);
    if e < s.len() {
        lemma_split_from_pieces(s, c, e + 1);
        assert forall|i: int|
            0 <= i < split_from(s, c, start).len() implies !(#[trigger] split_from(
                s,
                c,
                start,
            )[i]).contains(c) by {
            if i == 0 {
                let g = s.subrange(start, e);
                if g.contains(c) {
                    let k = choose|k: int| 0 <= k < g.len() && g[k] == c;
                    assert(s[start + k] == c);
                }
            } else {
                assert(split_from(s, c, start)[i] == split_from(s, c, e + 1)[i - 1]);
            }
        }
    } else {
        assert forall|i: int|
            0 <= i < split_from(s, c, start).len() implies !(#[trigger] split_from(
                s,
                c,
                start,
            )[i]).contains(c) by {
            let g = s.subrange(start, s.len() as int);
            if g.contains(c) {
                let k = choose|k: int| 0 <= k < g.len() && g[k] == c;
                assert(s[start + k] == c);
            }
        }
    }
}

/// A text without the separator splits into itself.
pub proof fn lemma_split_single(a: Seq<char>, c: char)
    requires
        !a.contains(c),
    ensures
        split(a, c) == seq![a],
{
    lemma_next_char_bounds(a, c, 0);
    if next_char(a, c, 0) < a.len() {
        assert(a[next_char(a, c, 0)] == c);
    }
    assert(a.subrange(0, a.len() as int) =~= a);
}

/// Exact test of `is_ws`.
pub fn is_whitespace(c: char) -> (r: bool)
    ensures
        r == is_ws(c),
{
    let x = c as u32;
    (0x09 <= x && x <= 0x0D) || x == 0x20 || x == 0x85 || x == 0xA0 || x == 0x1680 || (0x2000
        <= x && x <= 0x200A) || x == 0x2028 || x == 0x2029 || x == 0x202F || x == 0x205F || x
        == 0x3000
}

/// The characters of a string slice, in order.
pub fn chars_of(s: &str) -> (v: Vec<char>)
    ensures
        v@ == s@,
{
    broadcast use vstd::string::group_string_axioms;

    let mut v: Vec<char> = Vec::new();
    for c in it: s.chars()
        invariant
            v@ == it.seq().take(it.index() as int),
    {
        v.push(c);
    }
    v
}

/// Calls `String::from_iter` on the characters of `v`. Claimed: the string's
/// characters are those of `v`, in order.
#[verifier::external_body]
pub(crate) fn string_from_chars(v: &[char]) -> (r: String)
    ensures
        r@ == v@,
{
    String::from_iter(v)
}

/// Calls `str::to_lowercase`. Claimed: for ASCII text the result is the
/// text with `A`-`Z` lowered and everything else kept; for other text it is
/// `unicode_lowercase` of the input, whose content (the Unicode case tables and
/// the final-sigma rule) is left unstated.
#[verifier::external_body]
pub(crate) fn to_lowercase(s: &str) -> (r: String)
    ensures
        is_ascii(s@) ==> r@ == ascii_lower(s@),
        !is_ascii(s@) ==> r@ == unicode_lowercase(s@),
        r@ == lower(s@),
{
    s.to_lowercase()
}

/// Calls `String::from_utf8_lossy`. Claimed: the result is `utf8_lossy` of
/// the bytes, and for valid UTF-8 it is their decoding; how invalid sequences
/// are replaced is left unstated.
#[verifier::external_body]
pub(crate) fn from_utf8_lossy(b: &[u8]) -> (r: String)
    ensures
        r@ == utf8_lossy(b@),
        valid_utf8(b@) ==> r@ == decode_utf8(b@),
{
    String::from_utf8_lossy(b).into_owned()
}

/// String equality.
pub fn str_eq(a: &str, b: &str) -> (r: bool)
    ensures
        r == (a@ == b@),
{
    let x = a.to_owned();
    let y = b.to_owned();
    x == y
}

/// Character-vector equality.
pub fn chars_eq(a: &Vec<char>, b: &Vec<char>) -> (r: bool)
    ensures
        r == (a@ == b@),
{
    if a.len() != b.len() {
        return false;
    }
    let mut i: usize = 0;
    while i < a.len()
        invariant
            a.len() == b.len(),
            i <= a.len(),
            forall|k: int| 0 <= k < i ==> a@[k] == b@[k],
        decreases a.len() - i,
    {
        if a[i] != b[i] {
            return false;
        }
        i += 1;
    }
    assert(a@ =~= b@);
    true
}

/// The texts of a sequence of character vectors.
pub open spec fn cviews(v: Seq<Vec<char>>) -> Seq<Seq<char>> {
    v.map_values(|x: Vec<char>| x@)
}

/// `a` followed by `b`, as an owned string.
pub fn concat_str(a: &str, b: &str) -> (r: String)
    ensures
        r@ == a@ + b@,
{
    let mut v = chars_of(a);
    let mut w = chars_of(b);
    v.append(&mut w);
    string_from_chars(v.as_slice())
}

/// Whether `needle` occurs in `hay` at index `i`.
pub fn matches_at_exec(hay: &Vec<char>, needle: &Vec<char>, i: usize) -> (r: bool)
    ensures
        r == matches_at(hay@, needle@, i as int),
{
    if i > hay.len() || needle.len() > hay.len() - i {
        return false;
    }
    let mut j: usize = 0;
    while j < needle.len()
        invariant
            i + needle.len() <= hay.len(),
            j <= needle.len(),
            forall|k: int| 0 <= k < j ==> hay@[i + k] == needle@[k],
        decreases needle.len() - j,
    {
        if hay[i + j] != needle[j] {
            assert(hay@.subrange(i as int, i + needle.len())[j as int] != needle@[j as int]);
            return false;
        }
        j += 1;
    }
    assert(hay@.subrange(i as int, i + needle.len()) =~= needle@);
    true
}

/// Index of the first occurrence of `needle` in `hay`.
pub fn find(hay: &Vec<char>, needle: &Vec<char>) -> (r: Option<usize>)
    ensures
        r matches Some(i) ==> matches_at(hay@, needle@, i as int) && forall|k: int|
            0 <= k < i ==> !matches_at(hay@, needle@, k),
        r is None ==> !contains(hay@, needle@),
{
    if needle.len() > hay.len() {
        return None;
    }
    let last = hay.len() - needle.len();
    let mut i: usize = 0;
    loop
        invariant
            i <= last,
            last == hay.len() - needle.len(),
            forall|k: int| 0 <= k < i ==> !matches_at(hay@, needle@, k),
        ensures
            forall|k: int| 0 <= k <= last ==> !matches_at(hay@, needle@, k),
        decreases last - i,
    {
        if matches_at_exec(hay, needle, i) {
            return Some(i);
        }
        if i == last {
            break;
        }
        i += 1;
    }
    None
}

/// `str::contains` over character vectors.
pub fn contains_exec(hay: &Vec<char>, needle: &Vec<char>) -> (r: bool)
    ensures
        r == contains(hay@, needle@),
{
    match find(hay, needle) {
        Some(_) => true,
        None => false,
    }
}

/// `str::contains` with a string pattern.
pub fn str_contains(hay: &str, needle: &str) -> (r: bool)
    ensures
        r == contains(hay@, needle@),
{
    contains_exec(&chars_of(hay), &chars_of(needle))
}

/// `next_char(s, c, from)`.
pub fn next_char_exec(s: &Vec<char>, c: char, from: usize) -> (r: usize)
    requires
        from <= s.len(),
    ensures
        r == next_char(s@, c, from as int),
{
    let mut i = from;
    while i < s.len()
        invariant
            from <= i <= s.len(),
            next_char(s@, c, from as int) == next_char(s@, c, i as int),
        decreases s.len() - i,
    {
        if s[i] == c {
            return i;
        }
        i += 1;
    }
    i
}

/// The pieces of `s` between occurrences of `c` (see `split`).
pub fn split_chars(s: &Vec<char>, c: char) -> (r: Vec<Vec<char>>)
    ensures
        r.len() == split(s@, c).len(),
        forall|i: int| 0 <= i < r.len() ==> (#[trigger] r@[i])@ == split(s@, c)[i],
{
    let ghost all = split(s@, c);
    let ghost mut done: Seq<Seq<char>> = Seq::empty();
    let mut out: Vec<Vec<char>> = Vec::new();
    let mut start: usize = 0;
    loop
        invariant
            start <= s.len(),
            all == split(s@, c),
            all == done + split_from(s@, c, start as int),
            out.len() == done.len(),
            forall|i: int| 0 <= i < out.len() ==> (#[trigger] out@[i])@ == done[i],
        decreases s.len() - start,
    {
        let e = next_char_exec(s, c, start);
        proof {
            lemma_next_char_bounds(s@, c, start as int);
        }
        let piece = slice_chars(s, start, e);
        proof {
            done = done.push(piece@);
        }
        out.push(piece);
        if e >= s.len() {
            assert(split_from(s@, c, start as int) =~= seq![piece@]);
            assert(all =~= done);
            return out;
        }
        assert(split_from(s@, c, start as int) =~= seq![piece@] + split_from(s@, c, e + 1));
        assert(all =~= done + split_from(s@, c, e + 1));
        start = e + 1;
    }
}

/// `next_ws(s, from)`.
pub fn next_ws_exec(s: &Vec<char>, from: usize) -> (r: usize)
    requires
        from <= s.len(),
    ensures
        r == next_ws(s@, from as int),
{
    let mut i = from;
    while i < s.len()
        invariant
            from <= i <= s.len(),
            next_ws(s@, from as int) == next_ws(s@, i as int),
        decreases s.len() - i,
    {
        if is_whitespace(s[i]) {
            return i;
        }
        i += 1;
    }
    i
}

/// `next_non_ws(s, from)`.
pub fn next_non_ws_exec(s: &Vec<char>, from: usize) -> (r: usize)
    requires
        from <= s.len(),
    ensures
        r == next_non_ws(s@, from as int),
{
    let mut i = from;
    while i < s.len()
        invariant
            from <= i <= s.len(),
            next_non_ws(s@, from as int) == next_non_ws(s@, i as int),
        decreases s.len() - i,
    {
        if !is_whitespace(s[i]) {
            return i;
        }
        i += 1;
    }
    i
}

/// `trimmed_end(s, to)`.
pub fn trimmed_end_exec(s: &Vec<char>, to: usize) -> (r: usize)
    requires
        to <= s.len(),
    ensures
        r == trimmed_end(s@, to as int),
{
    let mut j = to;
    while j > 0
        invariant
            j <= to <= s.len(),
            trimmed_end(s@, to as int) == trimmed_end(s@, j as int),
        decreases j,
    {
        if !is_whitespace(s[j - 1]) {
            return j;
        }
        j -= 1;
    }
    0
}

/// `str::trim` over a character vector.
pub fn trim_chars(s: &Vec<char>) -> (r: Vec<char>)
    ensures
        r@ == trim(s@),
{
    let a = next_non_ws_exec(s, 0);
    if a >= s.len() {
        return Vec::new();
    }
    let b = trimmed_end_exec(s, s.len());
    proof {
        lemma_next_non_ws_bounds(s@, 0);
        lemma_trimmed_end_bounds(s@, s@.len() as int);
        if b <= a {
            assert(is_ws(s@[a as int]));
        }
    }
    slice_chars(s, a, b)
}

/// `s[from..to]`.
pub fn slice_chars(s: &Vec<char>, from: usize, to: usize) -> (r: Vec<char>)
    requires
        from <= to <= s.len(),
    ensures
        r@ == s@.subrange(from as int, to as int),
{
    let mut r: Vec<char> = Vec::new();
    let mut i = from;
    while i < to
        invariant
            from <= i <= to <= s.len(),
            r@ == s@.subrange(from as int, i as int),
        decreases to - i,
    {
        r.push(s[i]);
        i += 1;
        assert(r@ =~= s@.subrange(from as int, i as int));
    }
    r
}

/// `str::trim`, as an owned string.
pub fn str_trim(s: &str) -> (r: String)
    ensures
        r@ == trim(s@),
{
    let v = trim_chars(&chars_of(s));
    string_from_chars(v.as_slice())
}

/// The decimal digit character for `d`.
pub fn digit(d: u64) -> (c: char)
    requires
        d < 10,
    ensures
        c == digit_char(d as int),
{
    let b: u8 = 48u8 + (d as u8);
    b as char
}

/// Decimal digits of `n`.
pub fn decimal_chars(n: u64) -> (r: Vec<char>)
    ensures
        r@ == decimal(n as nat),
    decreases n,
{
    if n < 10 {
        let mut r: Vec<char> = Vec::new();
        r.push(digit(n));
        assert(r@ =~= decimal(n as nat));
        r
    } else {
        let mut r = decimal_chars(n / 10);
        r.push(digit(n % 10));
        assert(r@ =~= decimal(n as nat));
        r
    }
}

/// `i32::to_string`.
pub fn i32_to_string(n: i32) -> (r: String)
    ensures
        r@ == signed_decimal(n as int),
{
    if n < 0 {
        let m: u64 = (-(n as i64)) as u64;
        let mut v: Vec<char> = Vec::new();
        v.push('-');
        let mut d = decimal_chars(m);
        v.append(&mut d);
        assert(v@ =~= signed_decimal(n as int));
        string_from_chars(v.as_slice())
    } else {
        let v = decimal_chars(n as u64);
        string_from_chars(v.as_slice())
    }
}

/// `u32::to_string`.
pub fn u32_to_string(n: u32) -> (r: String)
    ensures
        r@ == decimal(n as nat),
{
    let v = decimal_chars(n as u64);
    string_from_chars(v.as_slice())
}

} // verus!
