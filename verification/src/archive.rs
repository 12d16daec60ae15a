//! Reading the bundled payload zip and planning its extraction: the archive
//! is decoded from its bytes by the `zip` crate, and each entry becomes a
//! directory to create, a symbolic link to make, or a file to write, below the
//! extraction directory; the first problem stops the plan.

use std::io::Read;
use vstd::prelude::*;
use crate::bundled::{header_error, is_link_entry, plan_zip_entry, symlink_target, unsafe_entry_message, check_zip_header, ZipEntryPlan};
use crate::error::{opt_error_view, AppError, ErrorView};
use crate::paths::{entry_components, PathStyle};
use crate::text::{trim, utf8_lossy, views};

verus! {

/// What `zip::ZipArchive::new` over these bytes gives: the number of entries,
/// or the message of the error.
pub uninterp spec fn zip_entry_count(bytes: Seq<u8>) -> Result<nat, Seq<char>>;

/// What `zip::ZipArchive::by_index(i)` over these bytes gives: the entry's
/// name, whether it is a directory, and its Unix mode, or the message of the
/// error.
pub uninterp spec fn zip_entry_meta(bytes: Seq<u8>, i: nat) -> Result<
    (Seq<char>, bool, Option<u32>),
    Seq<char>,
>;

/// What reading the `i`-th entry's content gives: the decompressed bytes, or
/// the error with whether it came from reading the content (rather than from
/// opening the archive or the entry).
pub uninterp spec fn zip_entry_content(bytes: Seq<u8>, i: nat) -> Result<Seq<u8>, (bool, Seq<char>)>;

/// Calls `zip::ZipArchive::new` over the bytes, then `len`. Claimed: the
/// result is `zip_entry_count` of the bytes, the error given by its message;
/// how the archive is decoded is left unstated.
#[verifier::external_body]
fn read_zip_entry_count(bytes: &[u8]) -> (r: Result<usize, String>)
    ensures
        match r {
            Ok(n) => zip_entry_count(bytes@) == Ok::<nat, Seq<char>>(n as nat),
            Err(m) => zip_entry_count(bytes@) == Err::<nat, Seq<char>>(m@),
        },
{
    match zip::ZipArchive::new(std::io::Cursor::new(bytes)) {
        Ok(a) => Ok(a.len()),
        Err(e) => Err(e.to_string()),
    }
}

/// Calls `zip::ZipArchive::new` over the bytes, `by_index(i)`, and the
/// entry's `name`, `is_dir` and `unix_mode`. Claimed: the result is
/// `zip_entry_meta` of the bytes and `i`.
#[verifier::external_body]
fn read_zip_entry_meta(bytes: &[u8], i: usize) -> (r: Result<(String, bool, Option<u32>), String>)
    ensures
        match r {
            Ok(t) => zip_entry_meta(bytes@, i as nat) == Ok::<
                (Seq<char>, bool, Option<u32>),
                Seq<char>,
            >((t.0@, t.1, t.2)),
            Err(m) => zip_entry_meta(bytes@, i as nat) == Err::<
                (Seq<char>, bool, Option<u32>),
                Seq<char>,
            >(m@),
        },
{
    let mut a = match zip::ZipArchive::new(std::io::Cursor::new(bytes)) {
        Ok(a) => a,
        Err(e) => return Err(e.to_string()),
    };
    let meta = match a.by_index(i) {
        Ok(f) => Ok((f.name().to_string(), f.is_dir(), f.unix_mode())),
        Err(e) => Err(e.to_string()),
    };
    meta
}

/// Calls `zip::ZipArchive::new` over the bytes, `by_index(i)`, and
/// `read_to_end` on the entry. Claimed: the result is `zip_entry_content` of
/// the bytes and `i`, an error from `read_to_end` marked `true`.
#[verifier::external_body]
fn read_zip_entry_content(bytes: &[u8], i: usize) -> (r: Result<Vec<u8>, (bool, String)>)
    ensures
        match r {
            Ok(c) => zip_entry_content(bytes@, i as nat) == Ok::<Seq<u8>, (bool, Seq<char>)>(c@),
            Err(e) => zip_entry_content(bytes@, i as nat) == Err::<Seq<u8>, (bool, Seq<char>)>(
                (e.0, e.1@),
            ),
        },
{
    let mut a = match zip::ZipArchive::new(std::io::Cursor::new(bytes)) {
        Ok(a) => a,
        Err(e) => return Err((false, e.to_string())),
    };
    let mut f = match a.by_index(i) {
        Ok(f) => f,
        Err(e) => return Err((false, e.to_string())),
    };
    let mut buf = Vec::new();
    let read = match f.read_to_end(&mut buf) {
        Ok(_) => Ok(buf),
        Err(e) => Err((true, e.to_string())),
    };
    read
}

/// One extraction step, with the components of its path below the
/// extraction directory.
#[derive(Debug, PartialEq, Eq)]
pub enum ExtractStep {
    /// Create the directory.
    CreateDir(Vec<String>),
    /// Make a symbolic link with the given target.
    Symlink(Vec<String>, String),
    /// Write the content to a file.
    WriteFile(Vec<String>, Vec<u8>),
}

/// An extraction step as a value of specifications.
pub enum StepView {
    CreateDir(Seq<Seq<char>>),
    Symlink(Seq<Seq<char>>, Seq<char>),
    WriteFile(Seq<Seq<char>>, Seq<u8>),
}

impl View for ExtractStep {
    type V = StepView;

    open spec fn view(&self) -> StepView {
        match self {
            ExtractStep::CreateDir(c) => StepView::CreateDir(views(c@)),
            ExtractStep::Symlink(c, t) => StepView::Symlink(views(c@), t@),
            ExtractStep::WriteFile(c, b) => StepView::WriteFile(views(c@), b@),
        }
    }
}

/// The views of a sequence of steps.
pub open spec fn step_views(s: Seq<ExtractStep>) -> Seq<StepView> {
    s.map_values(|x: ExtractStep| x@)
}

/// The first bytes of the payload that are checked (at most 64).
pub open spec fn header_of(bytes: Seq<u8>) -> Seq<u8> {
    if bytes.len() < 64 {
        bytes
    } else {
        bytes.take(64)
    }
}

/// The components of the directory that holds the entry at `cs`.
pub open spec fn parent_of(cs: Seq<Seq<char>>) -> Seq<Seq<char>> {
    if cs.len() == 0 {
        cs
    } else {
        cs.drop_last()
    }
}

/// The step for the `i`-th entry, or the error it meets with the step taken
/// before meeting it: the entry's name is refused when it would leave the
/// extraction directory; a directory entry is created; otherwise its content
/// is read and, on Unix for an entry whose mode says so, becomes the target of
/// a symbolic link (decoded and trimmed), else the content of a file. The
/// directory holding a link is created before its content is read, and a
/// file is created empty before its content is read, so a failed read leaves
/// that behind. Errors opening the archive or the entry are internal errors,
/// errors reading the content are I/O errors.
pub open spec fn entry_outcome(style: PathStyle, bytes: Seq<u8>, i: nat) -> Result<
    StepView,
    (Option<StepView>, ErrorView),
> {
    match zip_entry_meta(bytes, i) {
        Err(m) => Err((None, ErrorView::Internal(m))),
        Ok(meta) => {
            let (name, is_dir, mode) = meta;
            match entry_components(style, name) {
                None => Err((None, ErrorView::Internal(unsafe_entry_message(name)))),
                Some(cs) => if is_dir {
                    Ok(StepView::CreateDir(cs))
                } else {
                    let before = if is_link_entry(style, mode) {
                        StepView::CreateDir(parent_of(cs))
                    } else {
                        StepView::WriteFile(cs, Seq::empty())
                    };
                    match zip_entry_content(bytes, i) {
                        Err(e) => if e.0 {
                            Err((Some(before), ErrorView::Io(e.1)))
                        } else {
                            Err((Some(before), ErrorView::Internal(e.1)))
                        },
                        Ok(c) => if is_link_entry(style, mode) {
                            Ok(StepView::Symlink(cs, trim(utf8_lossy(c))))
                        } else {
                            Ok(StepView::WriteFile(cs, c))
                        },
                    }
                },
            }
        },
    }
}

/// The view of a step taken before an error, as a sequence of steps.
pub open spec fn opt_step_seq(s: Option<StepView>) -> Seq<StepView> {
    match s {
        Some(st) => seq![st],
        None => Seq::empty(),
    }
}

/// The steps of the entries `i..n`, in order, up to the first error (with the
/// step taken before it).
pub open spec fn entries_from(style: PathStyle, bytes: Seq<u8>, i: nat, n: nat) -> (
    Seq<StepView>,
    Option<ErrorView>,
)
    decreases n - i,
{
    if i >= n {
        (Seq::empty(), None)
    } else {
        match entry_outcome(style, bytes, i) {
            Ok(st) => {
                let rest = entries_from(style, bytes, i + 1, n);
                (seq![st] + rest.0, rest.1)
            },
            Err(e) => (opt_step_seq(e.0), Some(e.1)),
        }
    }
}

/// The extraction plan of a payload: nothing and the header's problem when
/// its first bytes show one; nothing and an internal error when the archive
/// cannot be opened; else the steps of its entries in order, up to the first
/// entry that fails, with what that entry left behind and its failure.
pub open spec fn extraction_plan(style: PathStyle, zip_path: Seq<char>, bytes: Seq<u8>) -> (
    Seq<StepView>,
    Option<ErrorView>,
) {
    match header_error(header_of(bytes), zip_path) {
        Some(e) => (Seq::empty(), Some(e)),
        None => match zip_entry_count(bytes) {
            Err(m) => (Seq::empty(), Some(ErrorView::Internal(m))),
            Ok(n) => entries_from(style, bytes, 0, n),
        },
    }
}

/// A copy of a string.
fn copy_string(s: &String) -> (r: String)
    ensures
        r@ == s@,
{
    String::from_str(s.as_str())
}

/// The components of the directory holding the entry at `cs`.
fn parent_components(cs: &Vec<String>) -> (r: Vec<String>)
    ensures
        views(r@) == parent_of(views(cs@)),
{
    let n: usize = if cs.len() == 0 {
        0
    } else {
        cs.len() - 1
    };
    let mut r: Vec<String> = Vec::new();
    let mut i: usize = 0;
    while i < n
        invariant
            i <= n,
            n == (if cs.len() == 0 { 0 } else { cs.len() - 1 }),
            views(r@) == views(cs@).take(i as int),
        decreases n - i,
    {
        let c = copy_string(&cs[i]);
        let ghost before = r@;
        r.push(c);
        assert(views(r@) =~= views(before).push(cs@[i as int]@));
        i += 1;
        assert(views(r@) =~= views(cs@).take(i as int));
    }
    assert(views(r@) =~= parent_of(views(cs@)));
    r
}

/// The error of a failed content read, the step taken before it included.
fn content_error(before: ExtractStep, e: (bool, String)) -> (r: (Option<ExtractStep>, AppError))
    ensures
        r.0 == Some(before),
        e.0 ==> r.1 == AppError::Io(e.1),
        !e.0 ==> r.1 == AppError::Internal(e.1),
{
    if e.0 {
        (Some(before), AppError::Io(e.1))
    } else {
        (Some(before), AppError::Internal(e.1))
    }
}

/// The step for the `i`-th entry, or its error with the step taken before it
/// (see `entry_outcome`).
pub fn plan_entry(style: PathStyle, bytes: &[u8], i: usize) -> (r: Result<
    ExtractStep,
    (Option<ExtractStep>, AppError),
>)
    ensures
        match r {
            Ok(st) => entry_outcome(style, bytes@, i as nat) == Ok::<
                StepView,
                (Option<StepView>, ErrorView),
            >(st@),
            Err(e) => entry_outcome(style, bytes@, i as nat) == Err::<
                StepView,
                (Option<StepView>, ErrorView),
            >((opt_step_view(e.0), e.1@)),
        },
{
    let (name, is_dir, mode) = match read_zip_entry_meta(bytes, i) {
        Ok(t) => t,
        Err(m) => return Err((None, AppError::Internal(m))),
    };
    let plan = match plan_zip_entry(style, name.as_str(), is_dir, mode) {
        Ok(p) => p,
        Err(e) => return Err((None, e)),
    };
    match plan {
        ZipEntryPlan::Directory(c) => Ok(ExtractStep::CreateDir(c)),
        ZipEntryPlan::Symlink(c) => {
            let parent = parent_components(&c);
            match read_zip_entry_content(bytes, i) {
                Ok(content) => Ok(ExtractStep::Symlink(c, symlink_target(content.as_slice()))),
                Err(e) => Err(content_error(ExtractStep::CreateDir(parent), e)),
            }
        },
        ZipEntryPlan::File(c) => match read_zip_entry_content(bytes, i) {
            Ok(content) => Ok(ExtractStep::WriteFile(c, content)),
            Err(e) => Err(content_error(ExtractStep::WriteFile(c, Vec::new()), e)),
        },
    }
}

/// The view of an optional step.
pub open spec fn opt_step_view(s: Option<ExtractStep>) -> Option<StepView> {
    match s {
        Some(st) => Some(st@),
        None => None,
    }
}

/// The first `n` bytes.
fn take_bytes(b: &[u8], n: usize) -> (r: Vec<u8>)
    requires
        n <= b.len(),
    ensures
        r@ == b@.take(n as int),
{
    let mut r: Vec<u8> = Vec::new();
    let mut i: usize = 0;
    while i < n
        invariant
            i <= n <= b.len(),
            r@ == b@.take(i as int),
        decreases n - i,
    {
        r.push(b[i]);
        i += 1;
        assert(r@ =~= b@.take(i as int));
    }
    r
}

/// Plan the extraction of the payload `bytes` read from `zip_path` (see
/// `extraction_plan`): the steps to perform in order, and the error that
/// stopped the plan, if any.
pub fn plan_extraction(style: PathStyle, zip_path: &str, bytes: &[u8]) -> (r: (
    Vec<ExtractStep>,
    Option<AppError>,
))
    ensures
        (step_views(r.0@), opt_error_view(r.1)) == extraction_plan(style, zip_path@, bytes@),
{
    let hl: usize = if bytes.len() < 64 {
        bytes.len()
    } else {
        64
    };
    let header = take_bytes(bytes, hl);
    assert(header@ == header_of(bytes@)) by {
        if bytes.len() < 64 {
            assert(bytes@.take(hl as int) =~= bytes@);
        }
    }
    let mut steps: Vec<ExtractStep> = Vec::new();
    match check_zip_header(header.as_slice(), zip_path) {
        Err(e) => {
            assert(step_views(steps@) =~= Seq::<StepView>::empty());
            return (steps, Some(e));
        },
        Ok(()) => {},
    }
    let n = match read_zip_entry_count(bytes) {
        Ok(n) => n,
        Err(m) => {
            assert(step_views(steps@) =~= Seq::<StepView>::empty());
            return (steps, Some(AppError::Internal(m)));
        },
    };
    let ghost all = entries_from(style, bytes@, 0, n as nat);
    let mut i: usize = 0;
    assert(step_views(steps@) + entries_from(style, bytes@, 0, n as nat).0 =~= all.0);
    while i < n
        invariant
            i <= n,
            zip_entry_count(bytes@) == Ok::<nat, Seq<char>>(n as nat),
            header_error(header_of(bytes@), zip_path@) is None,
            all == entries_from(style, bytes@, 0, n as nat),
            all.0 == step_views(steps@) + entries_from(style, bytes@, i as nat, n as nat).0,
            all.1 == entries_from(style, bytes@, i as nat, n as nat).1,
        decreases n - i,
    {
        match plan_entry(style, bytes, i) {
            Ok(st) => {
                let ghost before = step_views(steps@);
                steps.push(st);
                assert(step_views(steps@) =~= before.push(st@));
                let ghost rest = entries_from(style, bytes@, (i + 1) as nat, n as nat);
                assert(entries_from(style, bytes@, i as nat, n as nat).0 == seq![st@] + rest.0);
                assert(all.0 =~= step_views(steps@) + rest.0);
            },
            Err(e) => {
                let (before, err) = e;
                let ghost prefix = step_views(steps@);
                match before {
                    Some(st) => {
                        steps.push(st);
                        assert(step_views(steps@) =~= prefix.push(st@));
                    },
                    None => {},
                }
                assert(all.0 =~= step_views(steps@));
                return (steps, Some(err));
            },
        }
        i += 1;
    }
    assert(all.0 =~= step_views(steps@));
    (steps, None)
}

} // verus!
