//! Decisions of the bundled J-Link bootstrap: which CPU architecture payload to
//! use, where the payload zip may sit, whether a file is a zip at all, how each
//! zip entry is written, where the Linux install tree keeps its executables and
//! udev rules, and when the rules need to be (re)installed.

use vstd::prelude::*;
use crate::error::{AppError, ErrorView};
use crate::paths::{entry_components, join_unix, unix_join, zip_entry_components, PathStyle};
use crate::text::{
    chars_of, concat_str, contains, contains_exec, decimal, ends_with, lower, matches_at_exec,
    str_contains, str_eq, string_from_chars, to_lowercase, trim, trim_chars, u32_to_string,
    utf8_lossy, views, from_utf8_lossy,
};

verus! {

/// Name of the directory the payload unpacks into (and of the zip's top folder).
pub open spec fn bundled_dir_name() -> Seq<char> {
    "JLink_V930a"@
}

/// File name of the bundled payload zip.
pub open spec fn bundled_zip_name() -> Seq<char> {
    "JLink_V930a.zip"@
}

/// CPU architectures a payload can be bundled for.
#[derive(Clone, Copy, Debug, PartialEq, Eq, Structural)]
pub enum BundledArch {
    X86_64,
    Aarch64,
    X86,
    Arm,
}

impl BundledArch {
    /// The resource directory name of the architecture.
    pub open spec fn dir_name(self) -> Seq<char> {
        match self {
            BundledArch::X86_64 => "x86_64"@,
            BundledArch::Aarch64 => "aarch64"@,
            BundledArch::X86 => "x86"@,
            BundledArch::Arm => "arm"@,
        }
    }

    /// The architecture a Rust target architecture name (`std::env::consts::ARCH`)
    /// stands for, if a payload can exist for it.
    pub open spec fn from_name(arch: Seq<char>) -> Option<BundledArch> {
        if arch == "x86_64"@ {
            Some(BundledArch::X86_64)
        } else if arch == "aarch64"@ {
            Some(BundledArch::Aarch64)
        } else if arch == "x86"@ {
            Some(BundledArch::X86)
        } else if arch == "arm"@ {
            Some(BundledArch::Arm)
        } else {
            None
        }
    }

    /// The architecture for the Rust target architecture name `arch`.
    pub fn from_rust_arch(arch: &str) -> (r: Option<BundledArch>)
        ensures
            r == Self::from_name(arch@),
    {
        if str_eq(arch, "x86_64") {
            Some(BundledArch::X86_64)
        } else if str_eq(arch, "aarch64") {
            Some(BundledArch::Aarch64)
        } else if str_eq(arch, "x86") {
            Some(BundledArch::X86)
        } else if str_eq(arch, "arm") {
            Some(BundledArch::Arm)
        } else {
            None
        }
    }

    /// The resource directory name of the architecture.
    pub fn as_dir_name(self) -> (r: &'static str)
        ensures
            r@ == self.dir_name(),
    {
        match self {
            BundledArch::X86_64 => "x86_64",
            BundledArch::Aarch64 => "aarch64",
            BundledArch::X86 => "x86",
            BundledArch::Arm => "arm",
        }
    }
}

/// First index `>= i` whose flag is set, or `flags.len()`.
pub open spec fn first_set_from(flags: Seq<bool>, i: int) -> int
    decreases flags.len() - i,
{
    if i >= flags.len() {
        flags.len() as int
    } else if flags[i] {
        i
    } else {
        first_set_from(flags, i + 1)
    }
}

/// Index of the first set flag.
pub open spec fn first_set(flags: Seq<bool>) -> Option<int> {
    let i = first_set_from(flags, 0);
    if 0 <= i < flags.len() {
        Some(i)
    } else {
        None
    }
}

/// Index of the first set flag: the first candidate that passed a check.
pub fn pick_first(flags: &Vec<bool>) -> (r: Option<usize>)
    ensures
        r matches Some(i) ==> first_set(flags@) == Some(i as int),
        r is None ==> first_set(flags@) is None,
{
    let mut i: usize = 0;
    while i < flags.len()
        invariant
            i <= flags.len(),
            first_set_from(flags@, 0) == first_set_from(flags@, i as int),
        decreases flags.len() - i,
    {
        if flags[i] {
            return Some(i);
        }
        i += 1;
    }
    None
}

/// The places, relative to the app's resource directory, where the payload
/// zip for `os` and `arch` may be: under `resources/jlink/` first, then
/// under `jlink/`.
pub open spec fn zip_candidate_components(os: Seq<char>, arch: BundledArch) -> Seq<
    Seq<Seq<char>>,
> {
    seq![
        seq!["resources"@, "jlink"@, os, arch.dir_name(), bundled_zip_name()],
        seq!["jlink"@, os, arch.dir_name(), bundled_zip_name()],
    ]
}

/// Components of `zip_candidate_components(os, arch)`.
pub fn bundled_zip_candidates(os: &str, arch: BundledArch) -> (r: Vec<Vec<String>>)
    ensures
        r@.len() == 2,
        forall|i: int|
            0 <= i < 2 ==> views((#[trigger] r@[i])@) == zip_candidate_components(os@, arch)[i],
{
    let mut first: Vec<String> = Vec::new();
    first.push(String::from_str("resources"));
    first.push(String::from_str("jlink"));
    first.push(String::from_str(os));
    first.push(String::from_str(arch.as_dir_name()));
    first.push(String::from_str("JLink_V930a.zip"));
    let mut second: Vec<String> = Vec::new();
    second.push(String::from_str("jlink"));
    second.push(String::from_str(os));
    second.push(String::from_str(arch.as_dir_name()));
    second.push(String::from_str("JLink_V930a.zip"));
    assert(views(first@) =~= zip_candidate_components(os@, arch)[0]);
    assert(views(second@) =~= zip_candidate_components(os@, arch)[1]);
    let mut r: Vec<Vec<String>> = Vec::new();
    r.push(first);
    r.push(second);
    r
}

/// The error when no payload zip is found under `res_dir`.
pub open spec fn zip_not_found_message(res_dir: Seq<char>) -> Seq<char> {
    "Bundled J-Link zip not found in resources (looked under "@ + res_dir + ")"@
}

/// The payload zip to use: the first candidate that is a file, else an
/// internal error naming the resource directory.
pub fn bundled_zip_path(is_file: &Vec<bool>, res_dir: &str) -> (r: Result<usize, AppError>)
    ensures
        r matches Ok(i) ==> first_set(is_file@) == Some(i as int),
        r is Err ==> first_set(is_file@) is None,
        r is Err ==> (r matches Err(AppError::Internal(m)) && m@ == zip_not_found_message(
            res_dir@,
        )),
{
    match pick_first(is_file) {
        Some(i) => Ok(i),
        None => {
            let m = concat_str(
                concat_str("Bundled J-Link zip not found in resources (looked under ", res_dir).as_str(),
                ")",
            );
            Err(AppError::Internal(m))
        },
    }
}

/// The first line of a Git LFS pointer file.
pub open spec fn lfs_pointer_prefix() -> Seq<char> {
    "version https://git-lfs.github.com/spec/v1"@
}

/// The message when the payload is a Git LFS pointer instead of the zip.
pub open spec fn lfs_pointer_message() -> Seq<char> {
    "Bundled J-Link payload is missing (Git LFS pointer file detected).\nIf you cloned the repo, install Git LFS and run:\n\ngit lfs install\ngit lfs pull\n\nThen rebuild the app."@
}

/// The message when the payload does not start like a zip.
pub open spec fn invalid_zip_message(zip_path: Seq<char>) -> Seq<char> {
    "Bundled J-Link zip is invalid or incomplete: "@ + zip_path
}

/// The problem the first bytes of the payload show, if any: a Git LFS
/// pointer, or (for two bytes or more) a start other than `PK`.
pub open spec fn header_error(header: Seq<u8>, zip_path: Seq<char>) -> Option<ErrorView> {
    if bytes_start_with(header, lfs_pointer_prefix()) {
        Some(ErrorView::Platform(lfs_pointer_message()))
    } else if header.len() >= 2 && !(header[0] == 0x50 && header[1] == 0x4B) {
        Some(ErrorView::Internal(invalid_zip_message(zip_path)))
    } else {
        None
    }
}

/// The bytes start with the ASCII text `p`.
pub open spec fn bytes_start_with(b: Seq<u8>, p: Seq<char>) -> bool {
    p.len() <= b.len() && forall|i: int| 0 <= i < p.len() ==> (b[i] as u32) == (#[trigger] p[i] as u32)
}

/// Whether the bytes start with the ASCII text `p`.
fn bytes_start_with_exec(b: &[u8], p: &Vec<char>) -> (r: bool)
    ensures
        r == bytes_start_with(b@, p@),
{
    if p.len() > b.len() {
        return false;
    }
    let mut i: usize = 0;
    while i < p.len()
        invariant
            p.len() <= b@.len(),
            i <= p.len(),
            forall|k: int| 0 <= k < i ==> (b@[k] as u32) == (#[trigger] p@[k] as u32),
        decreases p.len() - i,
    {
        if (b[i] as u32) != (p[i] as u32) {
            return false;
        }
        i += 1;
    }
    true
}

/// Sanity check of the first bytes read from the payload (at most 64 bytes):
/// a Git LFS pointer is reported with how to fetch the real payload, and bytes
/// that do not start with `PK` are reported as an invalid zip. Fewer than two
/// bytes pass this check (opening the archive then reports the problem).
///
/// The check is made on the bytes: the prefix is ASCII, and a lossy UTF-8
/// decoding of the bytes starts with an ASCII text exactly when the bytes do.
pub fn check_zip_header(header: &[u8], zip_path: &str) -> (r: Result<(), AppError>)
    ensures
        bytes_start_with(header@, lfs_pointer_prefix()) ==> (r matches Err(AppError::Platform(m))
            && m@ == lfs_pointer_message()),
        !bytes_start_with(header@, lfs_pointer_prefix()) && header@.len() >= 2 && !(header@[0]
            == 0x50 && header@[1] == 0x4B) ==> (r matches Err(AppError::Internal(m)) && m@
            == invalid_zip_message(zip_path@)),
        !bytes_start_with(header@, lfs_pointer_prefix()) && !(header@.len() >= 2 && !(header@[0]
            == 0x50 && header@[1] == 0x4B)) ==> r is Ok,
        match r {
            Ok(()) => header_error(header@, zip_path@) is None,
            Err(e) => header_error(header@, zip_path@) == Some(e@),
        },
{
    let prefix = chars_of("version https://git-lfs.github.com/spec/v1");
    if bytes_start_with_exec(header, &prefix) {
        return Err(
            AppError::Platform(
                String::from_str(
                    "Bundled J-Link payload is missing (Git LFS pointer file detected).\nIf you cloned the repo, install Git LFS and run:\n\ngit lfs install\ngit lfs pull\n\nThen rebuild the app.",
                ),
            ),
        );
    }
    if header.len() >= 2 && !(header[0] == 0x50 && header[1] == 0x4B) {
        return Err(
            AppError::Internal(concat_str("Bundled J-Link zip is invalid or incomplete: ", zip_path)),
        );
    }
    Ok(())
}

/// The Unix file type bits of a mode say "symbolic link".
pub open spec fn is_symlink_mode(mode: u32) -> bool {
    mode & 0o170000u32 == 0o120000u32
}

/// On Unix, an entry whose mode says "symbolic link" is restored as one.
pub open spec fn is_link_entry(style: PathStyle, unix_mode: Option<u32>) -> bool {
    style == PathStyle::Unix && (unix_mode matches Some(m) && is_symlink_mode(m))
}

/// How a zip entry is written below the extraction directory, with the
/// components of its path there.
#[derive(Debug, PartialEq, Eq)]
pub enum ZipEntryPlan {
    /// Create the directory.
    Directory(Vec<String>),
    /// Create a symbolic link whose target is the entry's content (Unix only).
    Symlink(Vec<String>),
    /// Write the entry's content to a file.
    File(Vec<String>),
}

impl ZipEntryPlan {
    /// The components of the entry's path.
    pub open spec fn components(self) -> Seq<Seq<char>> {
        match self {
            ZipEntryPlan::Directory(v) => views(v@),
            ZipEntryPlan::Symlink(v) => views(v@),
            ZipEntryPlan::File(v) => views(v@),
        }
    }
}

/// The message for a zip entry whose name would leave the extraction directory.
pub open spec fn unsafe_entry_message(name: Seq<char>) -> Seq<char> {
    "Unsafe zip entry path: "@ + name
}

/// How to extract a zip entry named `name`: refused (internal error) when the
/// name would leave the extraction directory; otherwise a directory for a
/// directory entry, a symbolic link for an entry whose Unix mode says so (on
/// Unix), and a file for anything else.
pub fn plan_zip_entry(style: PathStyle, name: &str, is_dir: bool, unix_mode: Option<u32>) -> (r:
    Result<ZipEntryPlan, AppError>)
    ensures
        entry_components(style, name@) is None ==> (r matches Err(AppError::Internal(m)) && m@
            == unsafe_entry_message(name@)),
        entry_components(style, name@) matches Some(cs) ==> (r matches Ok(p) && p.components()
            == cs && (is_dir ==> p is Directory) && (!is_dir ==> (p is Symlink <==> is_link_entry(
            style,
            unix_mode,
        ))) && (!is_dir ==> !(p is Directory))),
{
    match zip_entry_components(style, name) {
        None => Err(AppError::Internal(concat_str("Unsafe zip entry path: ", name))),
        Some(comps) => {
            if is_dir {
                Ok(ZipEntryPlan::Directory(comps))
            } else {
                let link = match unix_mode {
                    Some(m) => style == PathStyle::Unix && m & 0o170000u32 == 0o120000u32,
                    None => false,
                };
                if link {
                    Ok(ZipEntryPlan::Symlink(comps))
                } else {
                    Ok(ZipEntryPlan::File(comps))
                }
            }
        },
    }
}

/// The target of a symbolic link stored in a zip entry: the entry's content,
/// decoded lossily as UTF-8 and trimmed.
pub fn symlink_target(content: &[u8]) -> (r: String)
    ensures
        r@ == trim(utf8_lossy(content@)),
{
    let decoded = from_utf8_lossy(content);
    let t = trim_chars(&chars_of(decoded.as_str()));
    string_from_chars(t.as_slice())
}


/// Where the Linux payload is installed.
pub open spec fn linux_install_root() -> Seq<char> {
    "/opt/SEGGER"@
}

/// `linux_install_root()`.
pub fn linux_install_root_str() -> (r: &'static str)
    ensures
        r@ == linux_install_root(),
{
    "/opt/SEGGER"
}

/// The places the Linux `JLinkExe` may have under the install root: flat at
/// the root, or nested in the payload's own folder.
pub open spec fn linux_exe_candidates(root: Seq<char>) -> Seq<Seq<char>> {
    seq![
        unix_join(root, "JLinkExe"@),
        unix_join(unix_join(root, bundled_dir_name()), "JLinkExe"@),
    ]
}

/// The directory of each place in `linux_exe_candidates`.
pub open spec fn linux_exe_dirs(root: Seq<char>) -> Seq<Seq<char>> {
    seq![root, unix_join(root, bundled_dir_name())]
}

/// `linux_exe_candidates(dst_root)`.
pub fn linux_jlink_exe_candidates(dst_root: &str) -> (r: Vec<String>)
    ensures
        r.len() == 2,
        views(r@) == linux_exe_candidates(dst_root@),
{
    let nested = join_unix(dst_root, "JLink_V930a");
    let mut r: Vec<String> = Vec::new();
    r.push(join_unix(dst_root, "JLinkExe"));
    r.push(join_unix(nested.as_str(), "JLinkExe"));
    assert(views(r@) =~= linux_exe_candidates(dst_root@));
    r
}

/// The `JLinkExe` to use, given which candidates exist: the first existing
/// one, with the directory that holds it (the install directory).
pub fn linux_resolve_jlink_exe(dst_root: &str, exists: &Vec<bool>) -> (r: Option<(String, String)>)
    requires
        exists.len() == 2,
    ensures
        r matches Some((exe, dir)) ==> (first_set(exists@) matches Some(i) && exe@
            == linux_exe_candidates(dst_root@)[i] && dir@ == linux_exe_dirs(dst_root@)[i]),
        r is None ==> first_set(exists@) is None,
{
    match pick_first(exists) {
        None => None,
        Some(i) => {
            let candidates = linux_jlink_exe_candidates(dst_root);
            let exe = String::from_str(candidates[i].as_str());
            let dir = if i == 0 {
                String::from_str(dst_root)
            } else {
                join_unix(dst_root, "JLink_V930a")
            };
            assert(views(candidates@)[i as int] == candidates@[i as int]@);
            Some((exe, dir))
        },
    }
}

/// The message when extraction left no `JLinkExe` behind.
pub open spec fn linux_missing_exe_message(root: Seq<char>) -> Seq<char> {
    "Bundled J-Link extracted under "@ + root + ", but JLinkExe not found (expected "@
        + linux_exe_candidates(root)[0] + " or "@ + linux_exe_candidates(root)[1] + ")"@
}

/// The error when extraction left no `JLinkExe` behind.
pub fn linux_missing_exe_error(dst_root: &str) -> (r: AppError)
    ensures
        r matches AppError::Internal(m) && m@ == linux_missing_exe_message(dst_root@),
{
    let c = linux_jlink_exe_candidates(dst_root);
    assert(views(c@)[0] == c@[0]@ && views(c@)[1] == c@[1]@);
    let m = concat_str("Bundled J-Link extracted under ", dst_root);
    let m = concat_str(m.as_str(), ", but JLinkExe not found (expected ");
    let m = concat_str(m.as_str(), c[0].as_str());
    let m = concat_str(m.as_str(), " or ");
    let m = concat_str(m.as_str(), c[1].as_str());
    let m = concat_str(m.as_str(), ")");
    AppError::Internal(m)
}

/// The SEGGER install directories under the root: the root, and the nested
/// payload folder when it is a directory.
pub open spec fn linux_install_dirs(root: Seq<char>, nested_is_dir: bool) -> Seq<Seq<char>> {
    if nested_is_dir {
        seq![root, unix_join(root, bundled_dir_name())]
    } else {
        seq![root]
    }
}

/// `linux_install_dirs(dst_root, nested_is_dir)`.
pub fn linux_segger_install_dirs(dst_root: &str, nested_is_dir: bool) -> (r: Vec<String>)
    ensures
        views(r@) == linux_install_dirs(dst_root@, nested_is_dir),
{
    let mut r: Vec<String> = Vec::new();
    r.push(String::from_str(dst_root));
    if nested_is_dir {
        r.push(join_unix(dst_root, "JLink_V930a"));
    }
    assert(views(r@) =~= linux_install_dirs(dst_root@, nested_is_dir));
    r
}

/// The SEGGER command-line and GUI executables of the Linux payload.
pub open spec fn linux_executable_names() -> Seq<Seq<char>> {
    seq![
        "JLinkExe"@,
        "JLinkConfigExe"@,
        "JLinkGDBServer"@,
        "JLinkGDBServerCLExe"@,
        "JLinkGUIServerExe"@,
        "JFlashLiteExe"@,
        "JLinkLicenseManagerExe"@,
        "JLinkRegistrationExe"@,
    ]
}

/// The `k`-th name of `linux_executable_names()`.
fn linux_executable_name(k: usize) -> (r: &'static str)
    requires
        k < 8,
    ensures
        r@ == linux_executable_names()[k as int],
{
    match k {
        0 => "JLinkExe",
        1 => "JLinkConfigExe",
        2 => "JLinkGDBServer",
        3 => "JLinkGDBServerCLExe",
        4 => "JLinkGUIServerExe",
        5 => "JFlashLiteExe",
        6 => "JLinkLicenseManagerExe",
        _ => "JLinkRegistrationExe",
    }
}

/// Every SEGGER executable path to make executable: each install directory
/// joined with each executable name, directory by directory.
pub fn linux_executable_paths(dirs: &Vec<String>) -> (r: Vec<String>)
    requires
        dirs.len() * 8 <= usize::MAX,
    ensures
        r.len() == dirs.len() * 8,
        forall|d: int, k: int|
            0 <= d < dirs.len() && 0 <= k < 8 ==> (#[trigger] r@[d * 8 + k])@ == unix_join(
                dirs@[d]@,
                linux_executable_names()[k],
            ),
{
    let mut r: Vec<String> = Vec::new();
    let mut d: usize = 0;
    while d < dirs.len()
        invariant
            d <= dirs.len(),
            dirs.len() * 8 <= usize::MAX,
            r.len() == d * 8,
            forall|dd: int, k: int|
                0 <= dd < d && 0 <= k < 8 ==> (#[trigger] r@[dd * 8 + k])@ == unix_join(
                    dirs@[dd]@,
                    linux_executable_names()[k],
                ),
        decreases dirs.len() - d,
    {
        let mut k: usize = 0;
        while k < 8
            invariant
                d < dirs.len(),
                k <= 8,
                r.len() == d * 8 + k,
                forall|dd: int, kk: int|
                    0 <= dd < d && 0 <= kk < 8 ==> (#[trigger] r@[dd * 8 + kk])@ == unix_join(
                        dirs@[dd]@,
                        linux_executable_names()[kk],
                    ),
                forall|kk: int|
                    0 <= kk < k ==> (#[trigger] r@[d * 8 + kk])@ == unix_join(
                        dirs@[d as int]@,
                        linux_executable_names()[kk],
                    ),
            decreases 8 - k,
        {
            r.push(join_unix(dirs[d].as_str(), linux_executable_name(k)));
            k += 1;
        }
        d += 1;
    }
    r
}

/// What became of making one executable file executable.
#[derive(Clone, Copy, Debug, PartialEq, Eq, Structural)]
pub enum ChmodOutcome {
    /// The path is not a regular file; nothing was done.
    NotAFile,
    /// The executable bits were set.
    Done,
    /// Setting the bits failed (for example a root-owned file).
    Failed,
}

/// The paths whose outcome is `Failed`, in order.
pub open spec fn failed_paths(paths: Seq<Seq<char>>, outcomes: Seq<ChmodOutcome>) -> Seq<Seq<char>>
    decreases paths.len(),
{
    if paths.len() == 0 || outcomes.len() != paths.len() {
        Seq::empty()
    } else if outcomes.last() == ChmodOutcome::Failed {
        failed_paths(paths.drop_last(), outcomes.drop_last()).push(paths.last())
    } else {
        failed_paths(paths.drop_last(), outcomes.drop_last())
    }
}

/// After a user-level extraction, the executables whose bits could not be set
/// directly; they are then set in one elevated `chmod` so that one prompt
/// covers them all.
pub fn linux_post_extract_fixups(paths: &Vec<String>, outcomes: &Vec<ChmodOutcome>) -> (r: Vec<
    String,
>)
    requires
        paths.len() == outcomes.len(),
    ensures
        views(r@) == failed_paths(views(paths@), outcomes@),
{
    let mut r: Vec<String> = Vec::new();
    let mut i: usize = 0;
    while i < paths.len()
        invariant
            i <= paths.len() == outcomes.len(),
            views(r@) == failed_paths(views(paths@).take(i as int), outcomes@.take(i as int)),
        decreases paths.len() - i,
    {
        let ghost before = views(r@);
        assert(views(paths@).take(i + 1).drop_last() =~= views(paths@).take(i as int));
        assert(outcomes@.take(i + 1).drop_last() =~= outcomes@.take(i as int));
        if outcomes[i] == ChmodOutcome::Failed {
            r.push(String::from_str(paths[i].as_str()));
            assert(views(r@) =~= before.push(paths@[i as int]@));
        }
        i += 1;
    }
    assert(views(paths@).take(paths.len() as int) =~= views(paths@));
    assert(outcomes@.take(paths.len() as int) =~= outcomes@);
    r
}

/// The arguments of the elevated `chmod` for `paths`, or `None` when there is
/// nothing to do.
pub fn pkexec_chmod_args(paths: &Vec<String>) -> (r: Option<Vec<String>>)
    ensures
        paths.len() == 0 ==> r is None,
        paths.len() > 0 ==> (r matches Some(a) && views(a@) == seq!["chmod"@, "+x"@] + views(
            paths@,
        )),
{
    if paths.len() == 0 {
        return None;
    }
    let mut a: Vec<String> = Vec::new();
    a.push(String::from_str("chmod"));
    a.push(String::from_str("+x"));
    let mut i: usize = 0;
    while i < paths.len()
        invariant
            i <= paths.len(),
            a.len() == i + 2,
            views(a@) == seq!["chmod"@, "+x"@] + views(paths@).take(i as int),
        decreases paths.len() - i,
    {
        let ghost before = views(a@);
        a.push(String::from_str(paths[i].as_str()));
        assert(views(a@) =~= before.push(paths@[i as int]@));
        assert(views(paths@).take(i + 1) =~= views(paths@).take(i as int).push(paths@[i as int]@));
        assert(views(a@) =~= seq!["chmod"@, "+x"@] + views(paths@).take(i + 1));
        i += 1;
    }
    assert(views(paths@).take(paths.len() as int) =~= views(paths@));
    Some(a)
}

/// The places a rules file `name` is looked for under `base`: next to the
/// tools, or under `ETC/udev/rules.d/` or `etc/udev/rules.d/`.
pub open spec fn rules_places(base: Seq<char>, name: Seq<char>) -> Seq<Seq<char>> {
    seq![
        unix_join(base, name),
        unix_join(unix_join(unix_join(unix_join(base, "ETC"@), "udev"@), "rules.d"@), name),
        unix_join(unix_join(unix_join(unix_join(base, "etc"@), "udev"@), "rules.d"@), name),
    ]
}

/// The two bases searched for udev rules: the nested payload folder, then the
/// install root.
pub open spec fn udev_bases(root: Seq<char>) -> Seq<Seq<char>> {
    seq![unix_join(root, bundled_dir_name()), root]
}

/// Every place a SEGGER udev rules file is looked for, in order: `99-jlink.rules`
/// before `70-jlink.rules`, and for each name the nested folder before the root.
pub open spec fn udev_rules_candidates(root: Seq<char>) -> Seq<Seq<char>> {
    rules_places(udev_bases(root)[0], "99-jlink.rules"@) + rules_places(
        udev_bases(root)[1],
        "99-jlink.rules"@,
    ) + rules_places(udev_bases(root)[0], "70-jlink.rules"@) + rules_places(
        udev_bases(root)[1],
        "70-jlink.rules"@,
    )
}

/// `rules_places(base, name)`, appended to `out`.
fn push_rules_places(out: &mut Vec<String>, base: &str, name: &str)
    ensures
        views(final(out)@) == views(old(out)@) + rules_places(base@, name@),
{
    let ghost before = views(out@);
    out.push(join_unix(base, name));
    let upper = join_unix(join_unix(join_unix(base, "ETC").as_str(), "udev").as_str(), "rules.d");
    out.push(join_unix(upper.as_str(), name));
    let lower = join_unix(join_unix(join_unix(base, "etc").as_str(), "udev").as_str(), "rules.d");
    out.push(join_unix(lower.as_str(), name));
    assert(views(out@) =~= before + rules_places(base@, name@));
}

/// The two bases searched for udev rules (see `udev_bases`).
pub fn linux_udev_bases(dst_root: &str) -> (r: Vec<String>)
    ensures
        r.len() == 2,
        views(r@) == udev_bases(dst_root@),
{
    let mut r: Vec<String> = Vec::new();
    r.push(join_unix(dst_root, "JLink_V930a"));
    r.push(String::from_str(dst_root));
    assert(views(r@) =~= udev_bases(dst_root@));
    r
}

/// `udev_rules_candidates(dst_root)`.
pub fn linux_udev_rules_candidates(dst_root: &str) -> (r: Vec<String>)
    ensures
        views(r@) == udev_rules_candidates(dst_root@),
{
    let bases = linux_udev_bases(dst_root);
    assert(views(bases@)[0] == bases@[0]@ && views(bases@)[1] == bases@[1]@);
    let mut r: Vec<String> = Vec::new();
    assert(views(r@) =~= Seq::<Seq<char>>::empty());
    push_rules_places(&mut r, bases[0].as_str(), "99-jlink.rules");
    push_rules_places(&mut r, bases[1].as_str(), "99-jlink.rules");
    push_rules_places(&mut r, bases[0].as_str(), "70-jlink.rules");
    push_rules_places(&mut r, bases[1].as_str(), "70-jlink.rules");
    assert(views(r@) =~= udev_rules_candidates(dst_root@));
    r
}

/// A file name that the recursive search takes for SEGGER udev rules: in
/// lowercase it ends with `.rules` and holds `jlink`.
pub open spec fn is_jlink_rules_name(name: Seq<char>) -> bool {
    ends_with(lower(name), ".rules"@) && contains(lower(name), "jlink"@)
}

/// Whether an already lowercased file name ends with `.rules` and holds `jlink`.
pub fn is_jlink_rules_lowered(lowered: &str) -> (r: bool)
    ensures
        r == (ends_with(lowered@, ".rules"@) && contains(lowered@, "jlink"@)),
{
    let lc = chars_of(lowered);
    let suffix = chars_of(".rules");
    let ends = suffix.len() <= lc.len() && matches_at_exec(&lc, &suffix, lc.len() - suffix.len());
    ends && contains_exec(&lc, &chars_of("jlink"))
}

/// Whether `name` is taken for SEGGER udev rules by the recursive search.
pub fn is_jlink_rules_file_name(name: &str) -> (r: bool)
    ensures
        r == is_jlink_rules_name(name@),
{
    let l = to_lowercase(name);
    is_jlink_rules_lowered(l.as_str())
}

/// The view of optional bytes.
pub open spec fn opt_bytes_view(b: Option<Vec<u8>>) -> Option<Seq<u8>> {
    match b {
        Some(v) => Some(v@),
        None => None,
    }
}

/// The rules content to install (see `desired_udev_rules`).
pub open spec fn desired_rules(tree_rules: Option<Seq<u8>>, embedded: Seq<u8>) -> Seq<u8> {
    match tree_rules {
        Some(b) => if b.len() > 0 {
            b
        } else {
            embedded
        },
        None => embedded,
    }
}

/// The rules content to install: the rules file found in the install tree
/// when it could be read and is not empty, else the rules embedded in the app.
pub fn desired_udev_rules(tree_rules: Option<Vec<u8>>, embedded: &[u8]) -> (r: Vec<u8>)
    ensures
        r@ == desired_rules(opt_bytes_view(tree_rules), embedded@),
{
    match tree_rules {
        Some(b) => {
            if b.len() > 0 {
                b
            } else {
                copy_bytes(embedded)
            }
        },
        None => copy_bytes(embedded),
    }
}

/// A copy of `b`.
pub(crate) fn copy_bytes(b: &[u8]) -> (r: Vec<u8>)
    ensures
        r@ == b@,
{
    let mut r: Vec<u8> = Vec::new();
    let mut i: usize = 0;
    while i < b.len()
        invariant
            i <= b.len(),
            r@ == b@.take(i as int),
        decreases b.len() - i,
    {
        r.push(b[i]);
        i += 1;
        assert(r@ =~= b@.take(i as int));
    }
    assert(b@.take(b.len() as int) =~= b@);
    r
}

/// Whether two byte strings are equal.
pub fn bytes_eq(a: &[u8], b: &[u8]) -> (r: bool)
    ensures
        r == (a@ == b@),
{
    if a.len() != b.len() {
        return false;
    }
    let mut i: usize = 0;
    while i < a.len()
        invariant
            a.len() == b.len(),
            i <= a.len(),
            forall|k: int| 0 <= k < i ==> a@[k] == b@[k],
        decreases a.len() - i,
    {
        if a[i] != b[i] {
            return false;
        }
        i += 1;
    }
    assert(a@ =~= b@);
    true
}

/// The installed rules must be rewritten unless they were read and equal the
/// desired rules.
pub open spec fn rules_need_install(installed: Option<Seq<u8>>, desired: Seq<u8>) -> bool {
    !(installed matches Some(c) && c == desired)
}

/// The installed rules must be (re)written unless the installed file could be
/// read and equals the desired rules byte for byte.
pub fn udev_rules_need_install(installed: Option<Vec<u8>>, desired: &[u8]) -> (r: bool)
    ensures
        r == rules_need_install(opt_bytes_view(installed), desired@),
        installed is None ==> r,
        installed matches Some(c) ==> (r <==> c@ != desired@),
{
    match installed {
        Some(c) => !bytes_eq(c.as_slice(), desired),
        None => true,
    }
}

/// The texts by which an error message says "permission denied".
pub open spec fn says_permission_denied(m: Seq<char>) -> bool {
    contains(m, "Permission denied"@) || contains(m, "os error 13"@)
}

/// An I/O, platform or internal error whose message says permission was denied.
pub open spec fn is_permission_denied(e: AppError) -> bool {
    view_is_permission_denied(e@)
}

/// `is_permission_denied` on an error's view.
pub open spec fn view_is_permission_denied(e: ErrorView) -> bool {
    match e {
        ErrorView::Io(m) => says_permission_denied(m),
        ErrorView::Platform(m) => says_permission_denied(m),
        ErrorView::Internal(m) => says_permission_denied(m),
        _ => false,
    }
}

/// Whether an error means that elevation is needed.
pub fn app_error_is_permission_denied(e: &AppError) -> (r: bool)
    ensures
        r == is_permission_denied(*e),
{
    match e {
        AppError::Io(s) | AppError::Platform(s) | AppError::Internal(s) => {
            str_contains(s.as_str(), "Permission denied") || str_contains(s.as_str(), "os error 13")
        },
        _ => false,
    }
}

/// File name of the temporary copy of the rules handed to the elevated helper.
pub open spec fn udev_temp_name(pid: u32) -> Seq<char> {
    "winusb-switcher-lite-udev-"@ + decimal(pid as nat) + ".rules"@
}

/// `udev_temp_name(pid)`.
pub fn udev_temp_file_name(pid: u32) -> (r: String)
    ensures
        r@ == udev_temp_name(pid),
{
    let n = u32_to_string(pid);
    concat_str(concat_str("winusb-switcher-lite-udev-", n.as_str()).as_str(), ".rules")
}


/// The message when the Windows payload left no `JLink.exe` behind.
pub open spec fn windows_missing_exe_message(exe: Seq<char>) -> Seq<char> {
    "Bundled J-Link extracted, but JLink.exe not found at "@ + exe
}

/// The error when the Windows payload left no `JLink.exe` at `exe`.
pub fn windows_missing_exe_error(exe: &str) -> (r: AppError)
    ensures
        r matches AppError::Internal(m) && m@ == windows_missing_exe_message(exe@),
{
    AppError::Internal(concat_str("Bundled J-Link extracted, but JLink.exe not found at ", exe))
}

} // verus!
