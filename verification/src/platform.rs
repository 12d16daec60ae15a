//! Per-platform J-Link names and the process environment's search paths:
//! which variable holds `PATH`, prepending the J-Link directory to it, and the
//! `LD_LIBRARY_PATH` a SEGGER install tree needs on Linux.

use vstd::prelude::*;
use crate::paths::unix_join;
use crate::paths::join_unix;
use crate::text::{
    chars_eq, chars_of, cviews, lower, next_char, split, split_chars, string_from_chars, to_lowercase, views,
    lemma_next_char_bounds, lemma_split_from_pieces, lemma_split_joined, lemma_split_single,
    str_eq,
};

verus! {

/// The operating system the app was built for.
#[derive(Clone, Copy, Debug, PartialEq, Eq, Structural)]
pub enum TargetOs {
    Windows,
    MacOs,
    /// Linux and every other Unix.
    Linux,
}

/// Names of the J-Link Commander program on a platform.
pub struct PlatformConfig {
    /// The command name looked up on `PATH`.
    pub jlink_bin: &'static str,
    /// The file name of the executable in an install directory.
    pub jlink_executable: &'static str,
}

/// The J-Link Commander command name on `os`.
pub open spec fn jlink_bin_name(os: TargetOs) -> Seq<char> {
    match os {
        TargetOs::Windows => "JLink"@,
        _ => "JLinkExe"@,
    }
}

/// The J-Link Commander executable file name on `os`.
pub open spec fn jlink_executable_name(os: TargetOs) -> Seq<char> {
    match os {
        TargetOs::Windows => "JLink.exe"@,
        _ => "JLinkExe"@,
    }
}

/// The J-Link Commander names on `os`.
pub fn config(os: TargetOs) -> (r: PlatformConfig)
    ensures
        r.jlink_bin@ == jlink_bin_name(os),
        r.jlink_executable@ == jlink_executable_name(os),
{
    match os {
        TargetOs::Windows => PlatformConfig { jlink_bin: "JLink", jlink_executable: "JLink.exe" },
        _ => PlatformConfig { jlink_bin: "JLinkExe", jlink_executable: "JLinkExe" },
    }
}

/// Index of the first variable name that lowercases to `path`, from `i` on,
/// or `keys.len()`.
pub open spec fn first_path_key_from(keys: Seq<Seq<char>>, i: int) -> int
    decreases keys.len() - i,
{
    if i >= keys.len() {
        keys.len() as int
    } else if lower(keys[i]) == "path"@ {
        i
    } else {
        first_path_key_from(keys, i + 1)
    }
}

/// The name of the search-path variable: the first variable, in the order the
/// environment lists them, whose name lowercases to `path`, else `PATH`.
pub open spec fn path_key(keys: Seq<Seq<char>>) -> Seq<char> {
    let i = first_path_key_from(keys, 0);
    if 0 <= i < keys.len() {
        keys[i]
    } else {
        "PATH"@
    }
}

/// Index of the first lowered name equal to `path`, from `i` on, or
/// `lowered.len()`.
pub open spec fn first_lowered_path_from(lowered: Seq<Seq<char>>, i: int) -> int
    decreases lowered.len() - i,
{
    if i >= lowered.len() {
        lowered.len() as int
    } else if lowered[i] == "path"@ {
        i
    } else {
        first_lowered_path_from(lowered, i + 1)
    }
}

/// The search-path variable name given each name's lowercase form.
pub open spec fn path_key_lowered(keys: Seq<Seq<char>>, lowered: Seq<Seq<char>>) -> Seq<char> {
    let i = first_lowered_path_from(lowered, 0);
    if 0 <= i < keys.len() && i < lowered.len() {
        keys[i]
    } else {
        "PATH"@
    }
}

/// The name of the search-path variable among `keys`, given the lowercase
/// form of each (`lowered[i]` is `keys[i]` in lowercase): the first whose
/// lowercase form is `path`, else `PATH`.
pub fn path_env_key_lowered(keys: &Vec<String>, lowered: &Vec<String>) -> (r: String)
    requires
        keys.len() == lowered.len(),
    ensures
        r@ == path_key_lowered(views(keys@), views(lowered@)),
{
    let ghost ls = views(lowered@);
    let mut i: usize = 0;
    while i < lowered.len()
        invariant
            i <= lowered.len() == keys.len(),
            ls == views(lowered@),
            first_lowered_path_from(ls, 0) == first_lowered_path_from(ls, i as int),
        decreases lowered.len() - i,
    {
        assert(ls[i as int] == lowered@[i as int]@);
        if str_eq(lowered[i].as_str(), "path") {
            assert(views(keys@)[i as int] == keys@[i as int]@);
            return String::from_str(keys[i].as_str());
        }
        i += 1;
    }
    String::from_str("PATH")
}

/// The name of the search-path variable among the environment's variable
/// names `keys` (see `path_key`).
pub fn path_env_key(keys: &Vec<String>) -> (r: String)
    ensures
        r@ == path_key(views(keys@)),
{
    let mut lowered: Vec<String> = Vec::new();
    let mut i: usize = 0;
    while i < keys.len()
        invariant
            i <= keys.len(),
            lowered.len() == i,
            forall|k: int| 0 <= k < i ==> (#[trigger] lowered@[k])@ == lower(keys@[k]@),
        decreases keys.len() - i,
    {
        lowered.push(to_lowercase(keys[i].as_str()));
        i += 1;
    }
    let r = path_env_key_lowered(keys, &lowered);
    proof {
        let ks = views(keys@);
        let ls = views(lowered@);
        assert forall|j: int| 0 <= j <= ks.len() implies first_lowered_path_from(ls, j)
            == first_path_key_from(ks, j) by {
            lemma_first_path_key_same(ks, ls, j);
        }
    }
    r
}

proof fn lemma_first_path_key_same(ks: Seq<Seq<char>>, ls: Seq<Seq<char>>, j: int)
    requires
        ks.len() == ls.len(),
        0 <= j <= ks.len(),
        forall|k: int| 0 <= k < ks.len() ==> ls[k] == lower(ks[k]),
    ensures
        first_lowered_path_from(ls, j) == first_path_key_from(ks, j),
    decreases ks.len() - j,
{
    if j < ks.len() {
        assert(ls[j] == lower(ks[j]));
        lemma_first_path_key_same(ks, ls, j + 1);
    }
}

/// The separator between search-path entries on `os`.
pub open spec fn path_list_sep(os: TargetOs) -> char {
    if os == TargetOs::Windows {
        ';'
    } else {
        ':'
    }
}

/// The text by which a search-path entry is compared: lowercase on Windows
/// (whose paths ignore letter case), the entry itself elsewhere.
pub open spec fn entry_key(os: TargetOs, g: Seq<char>) -> Seq<char> {
    if os == TargetOs::Windows {
        lower(g)
    } else {
        g
    }
}

/// The search path `list` has an entry, between the separators of `os`, that
/// names `dir`.
pub open spec fn path_lists(list: Seq<char>, dir: Seq<char>, os: TargetOs) -> bool {
    exists|i: int|
        0 <= i < split(list, path_list_sep(os)).len() && entry_key(
            os,
            #[trigger] split(list, path_list_sep(os))[i],
        ) == entry_key(os, dir)
}

/// The new search path with `dir` in front, or `None` when `dir` already is
/// one of its entries.
pub open spec fn prepended_path(current: Seq<char>, dir: Seq<char>, os: TargetOs) -> Option<
    Seq<char>,
> {
    if path_lists(current, dir, os) {
        None
    } else {
        Some(dir + seq![path_list_sep(os)] + current)
    }
}

/// The search path once `dir` has been put on it.
pub open spec fn path_after(current: Seq<char>, dir: Seq<char>, os: TargetOs) -> Seq<char> {
    match prepended_path(current, dir, os) {
        Some(p) => p,
        None => current,
    }
}

/// The new search path given the comparison text of each entry of `current`
/// (`keys[i]` for its `i`-th entry) and of `dir` (`dir_key`): `None` when some
/// entry's text equals `dir_key`, else `dir`, the separator of `os`, and the
/// current value.
pub fn prepended_path_with_keys(
    current: &str,
    dir: &str,
    keys: &Vec<String>,
    dir_key: &str,
    os: TargetOs,
) -> (r: Option<String>)
    ensures
        (exists|i: int| 0 <= i < keys.len() && (#[trigger] keys@[i])@ == dir_key@) ==> r is None,
        !(exists|i: int| 0 <= i < keys.len() && (#[trigger] keys@[i])@ == dir_key@) ==> (r matches Some(
            p,
        ) && p@ == dir@ + seq![path_list_sep(os)] + current@),
{
    let mut i: usize = 0;
    while i < keys.len()
        invariant
            i <= keys.len(),
            forall|k: int| 0 <= k < i ==> (#[trigger] keys@[k])@ != dir_key@,
        decreases keys.len() - i,
    {
        if str_eq(keys[i].as_str(), dir_key) {
            return None;
        }
        i += 1;
    }
    let mut v = chars_of(dir);
    v.push(if os == TargetOs::Windows {
        ';'
    } else {
        ':'
    });
    let mut c = chars_of(current);
    v.append(&mut c);
    Some(string_from_chars(v.as_slice()))
}

/// `entry_key(os, g)`, computed.
fn entry_key_of(os: TargetOs, g: &str) -> (r: String)
    ensures
        r@ == entry_key(os, g@),
{
    if os == TargetOs::Windows {
        to_lowercase(g)
    } else {
        String::from_str(g)
    }
}

/// The value to give the search path so that the bundled J-Link in `dir` is
/// on it and wins over stale entries: `dir` in front, or `None` when `dir`
/// already is one of its entries (compared in lowercase on Windows).
pub fn prepended_process_path(current: &str, dir: &str, os: TargetOs) -> (r: Option<String>)
    ensures
        r matches Some(p) ==> prepended_path(current@, dir@, os) == Some(p@),
        r is None ==> prepended_path(current@, dir@, os) is None,
{
    let sep = if os == TargetOs::Windows {
        ';'
    } else {
        ':'
    };
    let parts = split_chars(&chars_of(current), sep);
    let ghost sp = split(current@, sep);
    let mut keys: Vec<String> = Vec::new();
    let mut i: usize = 0;
    while i < parts.len()
        invariant
            i <= parts.len() == sp.len(),
            forall|k: int| 0 <= k < parts.len() ==> (#[trigger] parts@[k])@ == sp[k],
            keys.len() == i,
            forall|k: int| 0 <= k < i ==> (#[trigger] keys@[k])@ == entry_key(os, sp[k]),
        decreases parts.len() - i,
    {
        let piece = string_from_chars(parts[i].as_slice());
        keys.push(entry_key_of(os, piece.as_str()));
        i += 1;
    }
    let dk = entry_key_of(os, dir);
    let r = prepended_path_with_keys(current, dir, &keys, dk.as_str(), os);
    proof {
        if path_lists(current@, dir@, os) {
            let j = choose|j: int|
                0 <= j < sp.len() && entry_key(os, #[trigger] sp[j]) == entry_key(os, dir@);
            assert(keys@[j]@ == dk@);
        }
        if exists|k: int| 0 <= k < keys.len() && (#[trigger] keys@[k])@ == dk@ {
            let k = choose|k: int| 0 <= k < keys.len() && (#[trigger] keys@[k])@ == dk@;
            assert(entry_key(os, sp[k]) == entry_key(os, dir@));
        }
    }
    r
}

/// Once put on the search path, the J-Link directory is one of its entries,
/// whether it was added or already there; so putting it on again changes
/// nothing. This holds for every directory that holds no separator.
pub proof fn lemma_path_after_lists_dir(current: Seq<char>, dir: Seq<char>, os: TargetOs)
    requires
        !dir.contains(path_list_sep(os)),
    ensures
        path_lists(path_after(current, dir, os), dir, os),
        prepended_path(path_after(current, dir, os), dir, os) is None,
{
    let c = path_list_sep(os);
    if !path_lists(current, dir, os) {
        let p = dir + seq![c] + current;
        lemma_split_joined(dir, current, c, 0);
        lemma_split_single(dir, c);
        assert(split(p, c)[0] == dir);
        assert(entry_key(os, split(p, c)[0]) == entry_key(os, dir));
    }
}

/// `list` (a `:`-separated `LD_LIBRARY_PATH`) has `dir` as one of its
/// non-empty entries.
pub open spec fn lists_dir(list: Seq<char>, dir: Seq<char>) -> bool {
    exists|i: int|
        0 <= i < split(list, ':').len() && (#[trigger] split(list, ':')[i]).len() > 0 && split(
            list,
            ':',
        )[i] == dir
}

/// The new `LD_LIBRARY_PATH` with `dir` in front, or `None` when `dir` is
/// already one of its entries.
pub open spec fn ld_prepended(current: Seq<char>, dir: Seq<char>) -> Option<Seq<char>> {
    if lists_dir(current, dir) {
        None
    } else {
        Some(dir + seq![':'] + current)
    }
}

/// The `LD_LIBRARY_PATH` that puts `dir` in front (see `ld_prepended`).
pub fn prepended_ld_library_path(current: &str, dir: &str) -> (r: Option<String>)
    ensures
        r matches Some(p) ==> ld_prepended(current@, dir@) == Some(p@),
        r is None ==> ld_prepended(current@, dir@) is None,
{
    let cur = chars_of(current);
    let d = chars_of(dir);
    let parts = split_chars(&cur, ':');
    let mut i: usize = 0;
    while i < parts.len()
        invariant
            i <= parts.len() == split(cur@, ':').len(),
            cur@ == current@,
            d@ == dir@,
            forall|k: int| 0 <= k < parts.len() ==> (#[trigger] parts@[k])@ == split(cur@, ':')[k],
            forall|k: int|
                0 <= k < i ==> !((#[trigger] split(cur@, ':')[k]).len() > 0 && split(cur@, ':')[k]
                    == dir@),
        decreases parts.len() - i,
    {
        if parts[i].len() > 0 && chars_eq(&parts[i], &d) {
            assert(split(current@, ':')[i as int] == dir@);
            return None;
        }
        i += 1;
    }
    let mut v = d;
    v.push(':');
    let mut c = cur;
    v.append(&mut c);
    Some(string_from_chars(v.as_slice()))
}

/// Prepending to `LD_LIBRARY_PATH` is idempotent for a directory name that is
/// not empty and holds no `:`: once it is in front, prepending it again
/// changes nothing.
pub proof fn lemma_ld_prepend_idempotent(current: Seq<char>, dir: Seq<char>)
    requires
        dir.len() > 0,
        !dir.contains(':'),
        ld_prepended(current, dir) is Some,
    ensures
        ld_prepended(ld_prepended(current, dir)->0, dir) is None,
{
    let s = dir + seq![':'] + current;
    lemma_next_char_bounds(s, ':', 0);
    let e = next_char(s, ':', 0);
    assert(s[dir.len() as int] == ':');
    if e < dir.len() {
        assert(s[e] == dir[e]);
    }
    assert(e == dir.len());
    assert(split(s, ':')[0] =~= dir);
    assert(split(s, ':')[0].len() > 0);
}

/// The architecture subdirectories that may hold SEGGER shared libraries,
/// native architecture first (a wrong ELF class breaks loading).
pub open spec fn ld_subdirs(arch: Seq<char>) -> Seq<Seq<char>> {
    if arch == "x86_64"@ {
        seq!["x86_64"@, "amd64"@, "x86"@]
    } else if arch == "aarch64"@ {
        seq!["aarch64"@, "arm64"@]
    } else {
        seq!["x86_64"@, "amd64"@, "x86"@, "aarch64"@, "arm64"@]
    }
}

/// `ld_subdirs(arch)`.
pub fn ld_subdirs_for_arch(arch: &str) -> (r: Vec<String>)
    ensures
        views(r@) == ld_subdirs(arch@),
{
    let mut r: Vec<String> = Vec::new();
    if str_eq(arch, "x86_64") {
        r.push(String::from_str("x86_64"));
        r.push(String::from_str("amd64"));
        r.push(String::from_str("x86"));
    } else if str_eq(arch, "aarch64") {
        r.push(String::from_str("aarch64"));
        r.push(String::from_str("arm64"));
    } else {
        r.push(String::from_str("x86_64"));
        r.push(String::from_str("amd64"));
        r.push(String::from_str("x86"));
        r.push(String::from_str("aarch64"));
        r.push(String::from_str("arm64"));
    }
    assert(views(r@) =~= ld_subdirs(arch@));
    r
}

/// The subdirectories, joined onto the install directory, whose flag says
/// that they are directories.
pub open spec fn present_subdir_paths(
    install: Seq<char>,
    subs: Seq<Seq<char>>,
    present: Seq<bool>,
) -> Seq<Seq<char>>
    decreases subs.len(),
{
    if subs.len() == 0 || present.len() != subs.len() {
        Seq::empty()
    } else if present.last() {
        present_subdir_paths(install, subs.drop_last(), present.drop_last()).push(
            unix_join(install, subs.last()),
        )
    } else {
        present_subdir_paths(install, subs.drop_last(), present.drop_last())
    }
}

/// The non-empty parts, in order.
pub open spec fn nonempty_parts(parts: Seq<Seq<char>>) -> Seq<Seq<char>>
    decreases parts.len(),
{
    if parts.len() == 0 {
        Seq::empty()
    } else if parts.last().len() > 0 {
        nonempty_parts(parts.drop_last()).push(parts.last())
    } else {
        nonempty_parts(parts.drop_last())
    }
}

/// The library path entries in order of preference, repeats included: the
/// install directory, its architecture subdirectories that exist, then the
/// non-empty entries of the current value.
pub open spec fn ld_candidates(
    install: Seq<char>,
    arch: Seq<char>,
    present: Seq<bool>,
    current: Seq<char>,
) -> Seq<Seq<char>> {
    seq![install] + present_subdir_paths(install, ld_subdirs(arch), present) + nonempty_parts(
        split(current, ':'),
    )
}

/// `acc` extended by the items of `items` not seen before, in order.
pub open spec fn dedup_onto(acc: Seq<Seq<char>>, items: Seq<Seq<char>>) -> Seq<Seq<char>>
    decreases items.len(),
{
    if items.len() == 0 {
        acc
    } else {
        dedup_onto(
            if acc.contains(items[0]) {
                acc
            } else {
                acc.push(items[0])
            },
            items.drop_first(),
        )
    }
}

/// The library path entries, each kept once, at its first place.
pub open spec fn ld_front(
    install: Seq<char>,
    arch: Seq<char>,
    present: Seq<bool>,
    current: Seq<char>,
) -> Seq<Seq<char>> {
    dedup_onto(Seq::empty(), ld_candidates(install, arch, present, current))
}

/// The parts joined with `c` between them.
pub open spec fn join_with(parts: Seq<Seq<char>>, c: char) -> Seq<char>
    decreases parts.len(),
{
    if parts.len() == 0 {
        Seq::empty()
    } else if parts.len() == 1 {
        parts[0]
    } else {
        join_with(parts.drop_last(), c) + seq![c] + parts.last()
    }
}

/// The `LD_LIBRARY_PATH` for a SEGGER install tree.
pub open spec fn segger_ld_path(
    install: Seq<char>,
    arch: Seq<char>,
    present: Seq<bool>,
    current: Seq<char>,
) -> Seq<char> {
    join_with(ld_front(install, arch, present, current), ':')
}

/// Whether `x` is among `v`.
fn contains_chars(v: &Vec<Vec<char>>, x: &Vec<char>) -> (r: bool)
    ensures
        r == cviews(v@).contains(x@),
{
    let mut i: usize = 0;
    while i < v.len()
        invariant
            i <= v.len(),
            forall|k: int| 0 <= k < i ==> (#[trigger] v@[k])@ != x@,
        decreases v.len() - i,
    {
        if chars_eq(&v[i], x) {
            assert(cviews(v@)[i as int] == x@);
            return true;
        }
        i += 1;
    }
    assert(!cviews(v@).contains(x@)) by {
        if cviews(v@).contains(x@) {
            let k = choose|k: int| 0 <= k < cviews(v@).len() && cviews(v@)[k] == x@;
            assert(v@[k]@ == cviews(v@)[k]);
        }
    }
    false
}

/// The library path entries of `ld_candidates`, computed.
fn ld_candidate_list(install_dir: &str, arch: &str, present: &Vec<bool>, current: &str) -> (r: Vec<
    Vec<char>,
>)
    requires
        present.len() == ld_subdirs(arch@).len(),
    ensures
        cviews(r@) == ld_candidates(install_dir@, arch@, present@, current@),
{
    let subs = ld_subdirs_for_arch(arch);
    let ghost ss = ld_subdirs(arch@);
    assert(subs.len() == ss.len());
    let mut r: Vec<Vec<char>> = Vec::new();
    r.push(chars_of(install_dir));
    let mut i: usize = 0;
    while i < subs.len()
        invariant
            i <= subs.len() == present.len() == ss.len(),
            views(subs@) == ss,
            cviews(r@) == seq![install_dir@] + present_subdir_paths(
                install_dir@,
                ss.take(i as int),
                present@.take(i as int),
            ),
        decreases subs.len() - i,
    {
        let ghost before = cviews(r@);
        assert(ss.take(i + 1).drop_last() =~= ss.take(i as int));
        assert(present@.take(i + 1).drop_last() =~= present@.take(i as int));
        assert(views(subs@)[i as int] == subs@[i as int]@);
        if present[i] {
            let p = join_unix(install_dir, subs[i].as_str());
            r.push(chars_of(p.as_str()));
            assert(cviews(r@) =~= before.push(unix_join(install_dir@, ss[i as int])));
        }
        i += 1;
    }
    assert(ss.take(subs.len() as int) =~= ss);
    assert(present@.take(subs.len() as int) =~= present@);
    let parts = split_chars(&chars_of(current), ':');
    let ghost sp = split(current@, ':');
    let ghost head = cviews(r@);
    let mut j: usize = 0;
    while j < parts.len()
        invariant
            j <= parts.len() == sp.len(),
            forall|k: int| 0 <= k < parts.len() ==> (#[trigger] parts@[k])@ == sp[k],
            cviews(r@) == head + nonempty_parts(sp.take(j as int)),
        decreases parts.len() - j,
    {
        let ghost before = cviews(r@);
        assert(sp.take(j + 1).drop_last() =~= sp.take(j as int));
        if parts[j].len() > 0 {
            r.push(slice_all(&parts[j]));
            assert(cviews(r@) =~= before.push(sp[j as int]));
        }
        j += 1;
    }
    assert(sp.take(parts.len() as int) =~= sp);
    r
}

/// A copy of `v`.
fn slice_all(v: &Vec<char>) -> (r: Vec<char>)
    ensures
        r@ == v@,
{
    crate::text::slice_chars(v, 0, v.len())
}

/// The `LD_LIBRARY_PATH` for a SEGGER install tree at `install_dir` on the
/// host architecture `arch`: the install directory first, then those of its
/// architecture subdirectories (from `ld_subdirs`) that exist, then the
/// current entries, each entry once at its first place, joined with `:`.
pub fn segger_ld_library_path(
    install_dir: &str,
    arch: &str,
    present: &Vec<bool>,
    current: &str,
) -> (r: String)
    requires
        present.len() == ld_subdirs(arch@).len(),
    ensures
        r@ == segger_ld_path(install_dir@, arch@, present@, current@),
{
    let items = ld_candidate_list(install_dir, arch, present, current);
    let ghost all = cviews(items@);
    let ghost front = dedup_onto(Seq::empty(), all);
    let mut acc: Vec<Vec<char>> = Vec::new();
    let mut k: usize = 0;
    assert(cviews(acc@) =~= Seq::<Seq<char>>::empty());
    assert(all.skip(0) =~= all);
    while k < items.len()
        invariant
            k <= items.len(),
            all == cviews(items@),
            dedup_onto(cviews(acc@), all.skip(k as int)) == front,
        decreases items.len() - k,
    {
        assert(all.skip(k as int).drop_first() =~= all.skip(k + 1));
        assert(all.skip(k as int)[0] == items@[k as int]@);
        if !contains_chars(&acc, &items[k]) {
            let ghost before = cviews(acc@);
            acc.push(slice_all(&items[k]));
            assert(cviews(acc@) =~= before.push(items@[k as int]@));
        }
        k += 1;
    }
    assert(all.skip(items.len() as int) =~= Seq::<Seq<char>>::empty());
    let mut out: Vec<char> = Vec::new();
    let mut i: usize = 0;
    while i < acc.len()
        invariant
            i <= acc.len(),
            out@ == join_with(cviews(acc@).take(i as int), ':'),
        decreases acc.len() - i,
    {
        let ghost before = out@;
        assert(cviews(acc@).take(i + 1).drop_last() =~= cviews(acc@).take(i as int));
        assert(cviews(acc@).take(i + 1).last() == acc@[i as int]@);
        if i > 0 {
            out.push(':');
        }
        let mut piece = slice_all(&acc[i]);
        out.append(&mut piece);
        assert(out@ =~= join_with(cviews(acc@).take(i + 1), ':'));
        i += 1;
    }
    assert(cviews(acc@).take(acc.len() as int) =~= cviews(acc@));
    string_from_chars(out.as_slice())
}


/// No entry occurs twice.
pub open spec fn no_dup(s: Seq<Seq<char>>) -> bool {
    forall|i: int, j: int| 0 <= i < j < s.len() ==> s[i] != s[j]
}

proof fn lemma_dedup_onto(acc: Seq<Seq<char>>, items: Seq<Seq<char>>)
    requires
        no_dup(acc),
    ensures
        no_dup(dedup_onto(acc, items)),
        dedup_onto(acc, items).len() >= acc.len(),
        dedup_onto(acc, items).subrange(0, acc.len() as int) == acc,
        forall|i: int| 0 <= i < items.len() ==> dedup_onto(acc, items).contains(#[trigger] items[i]),
        forall|x: Seq<char>|
            #[trigger] dedup_onto(acc, items).contains(x) ==> acc.contains(x) || items.contains(x),
    decreases items.len(),
{
    if items.len() > 0 {
        let next = if acc.contains(items[0]) {
            acc
        } else {
            acc.push(items[0])
        };
        assert(no_dup(next)) by {
            if !acc.contains(items[0]) {
                assert forall|i: int, j: int| 0 <= i < j < next.len() implies next[i] != next[j] by {
                    if j == acc.len() {
                        assert(next[i] == acc[i]);
                    }
                }
            }
        }
        let rest = items.drop_first();
        lemma_dedup_onto(next, rest);
        let r = dedup_onto(next, rest);
        assert(r == dedup_onto(acc, items));
        assert(r.subrange(0, acc.len() as int) =~= acc) by {
            assert forall|k: int| 0 <= k < acc.len() implies r.subrange(0, acc.len() as int)[k]
                == acc[k] by {
                assert(r.subrange(0, next.len() as int)[k] == next[k]);
            }
        }
        assert(r.contains(items[0])) by {
            if acc.contains(items[0]) {
                let k = choose|k: int| 0 <= k < acc.len() && acc[k] == items[0];
                assert(r.subrange(0, next.len() as int)[k] == next[k]);
                assert(r[k] == items[0]);
            } else {
                let k = acc.len() as int;
                assert(r.subrange(0, next.len() as int)[k] == next[k]);
                assert(r[k] == items[0]);
            }
        }
        assert forall|i: int| 0 <= i < items.len() implies r.contains(#[trigger] items[i]) by {
            if i > 0 {
                assert(items[i] == rest[i - 1]);
            }
        }
        assert forall|x: Seq<char>| #[trigger] r.contains(x) implies acc.contains(x)
            || items.contains(x) by {
            if next.contains(x) && !acc.contains(x) {
                assert(x == items[0]);
            }
            if rest.contains(x) {
                let k = choose|k: int| 0 <= k < rest.len() && rest[k] == x;
                assert(items[k + 1] == x);
            }
        }
    }
}

/// The `LD_LIBRARY_PATH` built for a SEGGER tree lists the install directory
/// first and every entry once; it keeps every existing architecture
/// subdirectory and every non-empty entry of the current value, and adds
/// nothing else.
pub proof fn lemma_segger_ld_front(
    install: Seq<char>,
    arch: Seq<char>,
    present: Seq<bool>,
    current: Seq<char>,
)
    ensures
        no_dup(ld_front(install, arch, present, current)),
        ld_front(install, arch, present, current).len() > 0,
        ld_front(install, arch, present, current)[0] == install,
        forall|i: int|
            0 <= i < ld_candidates(install, arch, present, current).len() ==> ld_front(
                install,
                arch,
                present,
                current,
            ).contains(#[trigger] ld_candidates(install, arch, present, current)[i]),
        forall|x: Seq<char>|
            #[trigger] ld_front(install, arch, present, current).contains(x) ==> ld_candidates(
                install,
                arch,
                present,
                current,
            ).contains(x),
{
    let items = ld_candidates(install, arch, present, current);
    let first = Seq::<Seq<char>>::empty().push(items[0]);
    lemma_dedup_onto(first, items.drop_first());
    assert(ld_front(install, arch, present, current) == dedup_onto(first, items.drop_first()));
    lemma_dedup_onto(Seq::empty(), items);
    let f = ld_front(install, arch, present, current);
    assert(f.subrange(0, 1)[0] == f[0]);
}


/// What was seen of one search directory.
pub struct SearchDirProbe {
    /// The directory exists.
    pub exists: bool,
    /// For each entry listed in it, in listing order: the entry is a directory
    /// that holds the J-Link executable.
    pub entry_has_executable: Vec<bool>,
    /// The directory itself holds the J-Link executable.
    pub base_has_executable: bool,
}

/// Where the J-Link executable was found among the search directories.
#[derive(Clone, Copy, Debug, PartialEq, Eq, Structural)]
pub enum JLinkLocation {
    /// In the listed entry (second index) of the search directory (first index).
    Entry(usize, usize),
    /// Directly in the search directory.
    Base(usize),
}

/// First index `>= i` whose flag is set, or `flags.len()`.
pub open spec fn first_flag_from(flags: Seq<bool>, i: int) -> int
    decreases flags.len() - i,
{
    if i >= flags.len() {
        flags.len() as int
    } else if flags[i] {
        i
    } else {
        first_flag_from(flags, i + 1)
    }
}

/// The J-Link location among the search directories from the `i`-th on:
/// directories that do not exist are skipped; in one that exists, the first
/// listed subdirectory holding the executable wins, else the directory itself
/// when it holds it.
pub open spec fn jlink_location_from(ps: Seq<SearchDirProbe>, i: int) -> Option<JLinkLocation>
    decreases ps.len() - i,
{
    if i < 0 || i >= ps.len() {
        None
    } else if !ps[i].exists {
        jlink_location_from(ps, i + 1)
    } else {
        let flags = ps[i].entry_has_executable@;
        let j = first_flag_from(flags, 0);
        if 0 <= j < flags.len() {
            Some(JLinkLocation::Entry(i as usize, j as usize))
        } else if ps[i].base_has_executable {
            Some(JLinkLocation::Base(i as usize))
        } else {
            jlink_location_from(ps, i + 1)
        }
    }
}

/// Find the directory holding the J-Link executable in the known search
/// directories (see `jlink_location_from`).
pub fn find_jlink_in_search_dirs(probes: &Vec<SearchDirProbe>) -> (r: Option<JLinkLocation>)
    ensures
        r == jlink_location_from(probes@, 0),
{
    let mut i: usize = 0;
    while i < probes.len()
        invariant
            i <= probes.len(),
            jlink_location_from(probes@, 0) == jlink_location_from(probes@, i as int),
        decreases probes.len() - i,
    {
        if probes[i].exists {
            let mut j: usize = 0;
            while j < probes[i].entry_has_executable.len()
                invariant
                    i < probes.len(),
                    probes@[i as int].exists,
                    jlink_location_from(probes@, 0) == jlink_location_from(probes@, i as int),
                    j <= probes@[i as int].entry_has_executable.len(),
                    first_flag_from(probes@[i as int].entry_has_executable@, 0) == first_flag_from(
                        probes@[i as int].entry_has_executable@,
                        j as int,
                    ),
                decreases probes@[i as int].entry_has_executable.len() - j,
            {
                if probes[i].entry_has_executable[j] {
                    return Some(JLinkLocation::Entry(i, j));
                }
                j += 1;
            }
            if probes[i].base_has_executable {
                return Some(JLinkLocation::Base(i));
            }
        }
        i += 1;
    }
    None
}


/// Joining parts that hold no `:` with `:` and splitting on `:` gives the
/// parts back.
proof fn lemma_split_join(xs: Seq<Seq<char>>)
    requires
        xs.len() > 0,
        forall|i: int| 0 <= i < xs.len() ==> !(#[trigger] xs[i]).contains(':'),
    ensures
        split(join_with(xs, ':'), ':') == xs,
    decreases xs.len(),
{
    if xs.len() == 1 {
        lemma_split_single(xs[0], ':');
        assert(seq![xs[0]] =~= xs);
    } else {
        let init = xs.drop_last();
        assert forall|i: int| 0 <= i < init.len() implies !(#[trigger] init[i]).contains(':') by {
            assert(init[i] == xs[i]);
        }
        lemma_split_join(init);
        lemma_split_joined(join_with(init, ':'), xs.last(), ':', 0);
        lemma_split_single(xs.last(), ':');
        assert(init + seq![xs.last()] =~= xs);
    }
}

/// The non-empty parts of parts that are all non-empty are the parts.
proof fn lemma_nonempty_parts_all(xs: Seq<Seq<char>>)
    requires
        forall|i: int| 0 <= i < xs.len() ==> (#[trigger] xs[i]).len() > 0,
    ensures
        nonempty_parts(xs) == xs,
    decreases xs.len(),
{
    if xs.len() > 0 {
        let init = xs.drop_last();
        assert forall|i: int| 0 <= i < init.len() implies (#[trigger] init[i]).len() > 0 by {
            assert(init[i] == xs[i]);
        }
        lemma_nonempty_parts_all(init);
        assert(init.push(xs.last()) =~= xs);
    }
}

/// The non-empty parts are parts, and not empty.
proof fn lemma_nonempty_parts_from(xs: Seq<Seq<char>>)
    ensures
        forall|i: int|
            0 <= i < nonempty_parts(xs).len() ==> (#[trigger] nonempty_parts(xs)[i]).len() > 0
                && xs.contains(nonempty_parts(xs)[i]),
    decreases xs.len(),
{
    if xs.len() > 0 {
        let init = xs.drop_last();
        lemma_nonempty_parts_from(init);
        assert forall|i: int| 0 <= i < nonempty_parts(xs).len() implies (#[trigger] nonempty_parts(
            xs,
        )[i]).len() > 0 && xs.contains(nonempty_parts(xs)[i]) by {
            if i < nonempty_parts(init).len() {
                assert(nonempty_parts(xs)[i] == nonempty_parts(init)[i]);
                let k = choose|k: int| 0 <= k < init.len() && init[k] == nonempty_parts(init)[i];
                assert(xs[k] == init[k]);
            } else {
                assert(nonempty_parts(xs)[i] == xs[xs.len() - 1]);
            }
        }
    }
}

/// `x` is the install directory joined with one of `subs`.
spec fn is_subdir_path(install: Seq<char>, subs: Seq<Seq<char>>, x: Seq<char>) -> bool {
    exists|k: int| 0 <= k < subs.len() && x == unix_join(install, #[trigger] subs[k])
}

/// The joined subdirectory paths are joins of the install directory.
proof fn lemma_present_subdir_paths(install: Seq<char>, subs: Seq<Seq<char>>, present: Seq<bool>)
    ensures
        forall|i: int|
            0 <= i < present_subdir_paths(install, subs, present).len() ==> is_subdir_path(
                install,
                subs,
                #[trigger] present_subdir_paths(install, subs, present)[i],
            ),
    decreases subs.len(),
{
    if subs.len() > 0 && present.len() == subs.len() {
        let ps = subs.drop_last();
        let pp = present.drop_last();
        lemma_present_subdir_paths(install, ps, pp);
        let prev = present_subdir_paths(install, ps, pp);
        let cur = present_subdir_paths(install, subs, present);
        assert forall|i: int| 0 <= i < cur.len() implies is_subdir_path(
            install,
            subs,
            #[trigger] cur[i],
        ) by {
            if i < prev.len() {
                assert(is_subdir_path(install, ps, prev[i]));
                let k = choose|k: int| 0 <= k < ps.len() && prev[i] == unix_join(install, ps[k]);
                assert(subs[k] == ps[k]);
                assert(cur[i] == prev[i]);
            } else {
                assert(cur[i] == unix_join(install, subs[subs.len() - 1]));
            }
        }
    }
}

/// Folding a concatenation folds its two halves in turn.
proof fn lemma_dedup_onto_concat(acc: Seq<Seq<char>>, a: Seq<Seq<char>>, b: Seq<Seq<char>>)
    ensures
        dedup_onto(acc, a + b) == dedup_onto(dedup_onto(acc, a), b),
    decreases a.len(),
{
    if a.len() == 0 {
        assert(a + b =~= b);
    } else {
        let next = if acc.contains(a[0]) {
            acc
        } else {
            acc.push(a[0])
        };
        assert((a + b)[0] == a[0]);
        assert((a + b).drop_first() =~= a.drop_first() + b);
        lemma_dedup_onto_concat(next, a.drop_first(), b);
    }
}

/// Items already present leave the result unchanged.
proof fn lemma_dedup_onto_seen(acc: Seq<Seq<char>>, items: Seq<Seq<char>>)
    requires
        forall|i: int| 0 <= i < items.len() ==> acc.contains(#[trigger] items[i]),
    ensures
        dedup_onto(acc, items) == acc,
    decreases items.len(),
{
    if items.len() > 0 {
        assert(acc.contains(items[0]));
        let rest = items.drop_first();
        assert forall|i: int| 0 <= i < rest.len() implies acc.contains(#[trigger] rest[i]) by {
            assert(rest[i] == items[i + 1]);
        }
        lemma_dedup_onto_seen(acc, rest);
    }
}

/// A list without repeats is rebuilt from any prefix of itself.
proof fn lemma_dedup_onto_rebuild(f: Seq<Seq<char>>, k: int)
    requires
        no_dup(f),
        0 <= k <= f.len(),
    ensures
        dedup_onto(f.take(k), f.skip(k)) == f,
    decreases f.len() - k,
{
    if k == f.len() {
        assert(f.take(k) =~= f);
    } else {
        assert(f.skip(k)[0] == f[k]);
        assert(!f.take(k).contains(f[k])) by {
            if f.take(k).contains(f[k]) {
                let j = choose|j: int| 0 <= j < f.take(k).len() && f.take(k)[j] == f[k];
                assert(f[j] == f[k]);
            }
        }
        assert(f.take(k).push(f[k]) =~= f.take(k + 1));
        assert(f.skip(k).drop_first() =~= f.skip(k + 1));
        lemma_dedup_onto_rebuild(f, k + 1);
    }
}

/// Building the SEGGER `LD_LIBRARY_PATH` is idempotent: applied to its own
/// result (with the same install directory, architecture and existing
/// subdirectories) it gives the same value again. This holds when the install
/// directory is not empty and holds no `:`.
pub proof fn lemma_segger_ld_path_idempotent(
    install: Seq<char>,
    arch: Seq<char>,
    present: Seq<bool>,
    current: Seq<char>,
)
    requires
        install.len() > 0,
        !install.contains(':'),
    ensures
        segger_ld_path(install, arch, present, segger_ld_path(install, arch, present, current))
            == segger_ld_path(install, arch, present, current),
{
    let f = ld_front(install, arch, present, current);
    let cands = ld_candidates(install, arch, present, current);
    lemma_segger_ld_front(install, arch, present, current);
    let subs = present_subdir_paths(install, ld_subdirs(arch), present);
    let parts = split(current, ':');
    lemma_present_subdir_paths(install, ld_subdirs(arch), present);
    lemma_nonempty_parts_from(parts);
    lemma_split_from_pieces(current, ':', 0);
    // Every entry is non-empty and free of `:`.
    assert forall|i: int| 0 <= i < f.len() implies (#[trigger] f[i]).len() > 0 && !f[i].contains(
        ':',
    ) by {
        assert(f.contains(f[i]));
        let k = choose|k: int| 0 <= k < cands.len() && cands[k] == f[i];
        if k == 0 {
            assert(cands[0] == install);
        } else if k < 1 + subs.len() {
            assert(cands[k] == subs[k - 1]);
            assert(is_subdir_path(install, ld_subdirs(arch), subs[k - 1]));
            let m = choose|m: int|
                0 <= m < ld_subdirs(arch).len() && subs[k - 1] == unix_join(
                    install,
                    ld_subdirs(arch)[m],
                );
            let g = ld_subdirs(arch)[m];
            reveal_strlit("x86_64");
            reveal_strlit("amd64");
            reveal_strlit("x86");
            reveal_strlit("aarch64");
            reveal_strlit("arm64");
            assert(!g.contains(':'));
            let joined = unix_join(install, g);
            if joined.contains(':') {
                let j = choose|j: int| 0 <= j < joined.len() && joined[j] == ':';
                if j < install.len() {
                    assert(joined[j] == install[j]);
                } else if install.last() != '/' && j == install.len() {
                    assert(joined[j] == '/');
                } else if install.last() != '/' {
                    assert(joined[j] == g[j - install.len() - 1]);
                } else {
                    assert(joined[j] == g[j - install.len()]);
                }
            }
        } else {
            let np = nonempty_parts(parts);
            assert(cands[k] == np[k - 1 - subs.len()]);
            let m = choose|m: int| 0 <= m < parts.len() && parts[m] == np[k - 1 - subs.len()];
        }
    }
    lemma_split_join(f);
    lemma_nonempty_parts_all(f);
    let head = seq![install] + subs;
    assert(cands =~= head + nonempty_parts(parts));
    assert(ld_candidates(install, arch, present, join_with(f, ':')) =~= head + f);
    let d = dedup_onto(Seq::empty(), head);
    lemma_dedup_onto_concat(Seq::empty(), head, nonempty_parts(parts));
    lemma_dedup_onto(Seq::empty(), head);
    lemma_dedup_onto(d, nonempty_parts(parts));
    assert(f == dedup_onto(d, nonempty_parts(parts)));
    assert(f.take(d.len() as int) =~= d);
    lemma_dedup_onto_concat(Seq::empty(), head, f);
    assert(f =~= f.take(d.len() as int) + f.skip(d.len() as int));
    lemma_dedup_onto_concat(d, f.take(d.len() as int), f.skip(d.len() as int));
    assert forall|i: int| 0 <= i < f.take(d.len() as int).len() implies d.contains(
        #[trigger] f.take(d.len() as int)[i],
    ) by {
        assert(d[i] == f.take(d.len() as int)[i]);
    }
    lemma_dedup_onto_seen(d, f.take(d.len() as int));
    lemma_dedup_onto_rebuild(f, d.len() as int);
}

} // verus!
