//! The SEGGER udev rules steps as state machines: the check made on every
//! start (install the desired rules unless the installed copy already equals
//! them, elevating through a temporary copy when permission is denied), and
//! the elevated helper that, in one authorization, extracts the payload,
//! restores the executable bits and installs the rules.

use vstd::prelude::*;
use crate::bundled::{
    copy_bytes, desired_rules, desired_udev_rules, opt_bytes_view, rules_need_install,
    udev_rules_need_install, udev_temp_file_name, udev_temp_name, view_is_permission_denied,
    app_error_is_permission_denied,
};
use crate::error::{AppError, ErrorView};

verus! {

/// The view of a step's outcome.
pub open spec fn outcome_view(r: Result<(), AppError>) -> Result<(), ErrorView> {
    match r {
        Ok(()) => Ok(()),
        Err(e) => Err(e@),
    }
}

/// Where the udev check stands.
#[derive(Debug, PartialEq, Eq)]
pub enum UdevState {
    /// Waiting for the rules found in the install tree; keeps the embedded
    /// rules and the process id.
    ReadingTree { embedded: Vec<u8>, pid: u32 },
    /// Waiting for the installed rules; keeps the desired rules.
    ReadingInstalled { desired: Vec<u8>, pid: u32 },
    /// Waiting for the plain installation of the desired rules.
    Installing { desired: Vec<u8>, pid: u32 },
    /// Waiting for the temporary copy handed to the elevated helper.
    WritingTemp,
    /// Waiting for the elevated installation.
    Elevating,
    /// Waiting for the temporary copy to be removed; keeps the outcome.
    RemovingTemp(Result<(), AppError>),
    /// Done.
    Done,
}

/// What a step of the udev check found.
#[derive(Debug, PartialEq, Eq)]
pub enum UdevEvent {
    /// The rules file found in the install tree and read, if any.
    TreeRules(Option<Vec<u8>>),
    /// The installed rules file, when it is a file and could be read.
    Installed(Option<Vec<u8>>),
    /// A step's outcome.
    StepDone(Result<(), AppError>),
}

/// What the udev check does next.
#[derive(Debug, PartialEq, Eq)]
pub enum UdevAction {
    /// Find the rules in the install tree and read them.
    ReadTreeRules,
    /// Read the installed rules.
    ReadInstalled,
    /// Install these rules (write them, reload and trigger udev).
    Install(Vec<u8>),
    /// Write these rules to a temporary file of this name.
    WriteTemp(String, Vec<u8>),
    /// Install the temporary file through the elevated helper.
    Elevate,
    /// Remove the temporary file.
    RemoveTemp,
    /// Finish with this outcome.
    Finish(Result<(), AppError>),
}

/// The udev check's state as a value of specifications.
pub enum UdevStateView {
    ReadingTree { embedded: Seq<u8>, pid: u32 },
    ReadingInstalled { desired: Seq<u8>, pid: u32 },
    Installing { desired: Seq<u8>, pid: u32 },
    WritingTemp,
    Elevating,
    RemovingTemp(Result<(), ErrorView>),
    Done,
}

/// A udev check event as a value of specifications.
pub enum UdevEventView {
    TreeRules(Option<Seq<u8>>),
    Installed(Option<Seq<u8>>),
    StepDone(Result<(), ErrorView>),
}

/// A udev check action as a value of specifications.
pub enum UdevActionView {
    ReadTreeRules,
    ReadInstalled,
    Install(Seq<u8>),
    WriteTemp(Seq<char>, Seq<u8>),
    Elevate,
    RemoveTemp,
    Finish(Result<(), ErrorView>),
}

impl View for UdevState {
    type V = UdevStateView;

    open spec fn view(&self) -> UdevStateView {
        match self {
            UdevState::ReadingTree { embedded, pid } => UdevStateView::ReadingTree {
                embedded: embedded@,
                pid: *pid,
            },
            UdevState::ReadingInstalled { desired, pid } => UdevStateView::ReadingInstalled {
                desired: desired@,
                pid: *pid,
            },
            UdevState::Installing { desired, pid } => UdevStateView::Installing {
                desired: desired@,
                pid: *pid,
            },
            UdevState::WritingTemp => UdevStateView::WritingTemp,
            UdevState::Elevating => UdevStateView::Elevating,
            UdevState::RemovingTemp(r) => UdevStateView::RemovingTemp(outcome_view(*r)),
            UdevState::Done => UdevStateView::Done,
        }
    }
}

impl View for UdevEvent {
    type V = UdevEventView;

    open spec fn view(&self) -> UdevEventView {
        match self {
            UdevEvent::TreeRules(t) => UdevEventView::TreeRules(opt_bytes_view(*t)),
            UdevEvent::Installed(c) => UdevEventView::Installed(opt_bytes_view(*c)),
            UdevEvent::StepDone(r) => UdevEventView::StepDone(outcome_view(*r)),
        }
    }
}

impl View for UdevAction {
    type V = UdevActionView;

    open spec fn view(&self) -> UdevActionView {
        match self {
            UdevAction::ReadTreeRules => UdevActionView::ReadTreeRules,
            UdevAction::ReadInstalled => UdevActionView::ReadInstalled,
            UdevAction::Install(b) => UdevActionView::Install(b@),
            UdevAction::WriteTemp(n, b) => UdevActionView::WriteTemp(n@, b@),
            UdevAction::Elevate => UdevActionView::Elevate,
            UdevAction::RemoveTemp => UdevActionView::RemoveTemp,
            UdevAction::Finish(r) => UdevActionView::Finish(outcome_view(*r)),
        }
    }
}

/// The transition of the udev check: `None` for an event the state does not
/// wait for.
pub open spec fn udev_next(s: UdevStateView, e: UdevEventView) -> Option<
    (UdevStateView, UdevActionView),
> {
    match (s, e) {
        (UdevStateView::ReadingTree { embedded, pid }, UdevEventView::TreeRules(t)) => Some(
            (
                UdevStateView::ReadingInstalled { desired: desired_rules(t, embedded), pid },
                UdevActionView::ReadInstalled,
            ),
        ),
        (UdevStateView::ReadingInstalled { desired, pid }, UdevEventView::Installed(c)) => if rules_need_install(c, desired) {
            Some((UdevStateView::Installing { desired, pid }, UdevActionView::Install(desired)))
        } else {
            Some((UdevStateView::Done, UdevActionView::Finish(Ok(()))))
        },
        (UdevStateView::Installing { desired, pid }, UdevEventView::StepDone(r)) => match r {
            Ok(()) => Some((UdevStateView::Done, UdevActionView::Finish(Ok(())))),
            Err(err) => if view_is_permission_denied(err) {
                Some(
                    (
                        UdevStateView::WritingTemp,
                        UdevActionView::WriteTemp(udev_temp_name(pid), desired),
                    ),
                )
            } else {
                Some((UdevStateView::Done, UdevActionView::Finish(Err(err))))
            },
        },
        (UdevStateView::WritingTemp, UdevEventView::StepDone(r)) => match r {
            Ok(()) => Some((UdevStateView::Elevating, UdevActionView::Elevate)),
            Err(err) => Some((UdevStateView::Done, UdevActionView::Finish(Err(err)))),
        },
        (UdevStateView::Elevating, UdevEventView::StepDone(r)) => Some(
            (UdevStateView::RemovingTemp(r), UdevActionView::RemoveTemp),
        ),
        (UdevStateView::RemovingTemp(r), UdevEventView::StepDone(_)) => Some(
            (UdevStateView::Done, UdevActionView::Finish(r)),
        ),
        _ => None,
    }
}

/// The udev check's first state and action: read the rules of the install tree.
pub fn udev_start(embedded: &[u8], pid: u32) -> (r: (UdevState, UdevAction))
    ensures
        r.0@ == (UdevStateView::ReadingTree { embedded: embedded@, pid }),
        r.1@ == UdevActionView::ReadTreeRules,
{
    (UdevState::ReadingTree { embedded: copy_bytes(embedded), pid }, UdevAction::ReadTreeRules)
}

/// One step of the udev check (see `udev_next`); the event must be one the
/// state waits for.
pub fn udev_step(s: UdevState, e: UdevEvent) -> (r: (UdevState, UdevAction))
    requires
        udev_next(s@, e@) is Some,
    ensures
        udev_next(s@, e@) == Some((r.0@, r.1@)),
{
    match (s, e) {
        (UdevState::ReadingTree { embedded, pid }, UdevEvent::TreeRules(t)) => {
            let desired = desired_udev_rules(t, embedded.as_slice());
            (UdevState::ReadingInstalled { desired, pid }, UdevAction::ReadInstalled)
        },
        (UdevState::ReadingInstalled { desired, pid }, UdevEvent::Installed(c)) => {
            if udev_rules_need_install(c, desired.as_slice()) {
                let copy = copy_bytes(desired.as_slice());
                (UdevState::Installing { desired, pid }, UdevAction::Install(copy))
            } else {
                (UdevState::Done, UdevAction::Finish(Ok(())))
            }
        },
        (UdevState::Installing { desired, pid }, UdevEvent::StepDone(r)) => match r {
            Ok(()) => (UdevState::Done, UdevAction::Finish(Ok(()))),
            Err(err) => if app_error_is_permission_denied(&err) {
                (UdevState::WritingTemp, UdevAction::WriteTemp(udev_temp_file_name(pid), desired))
            } else {
                (UdevState::Done, UdevAction::Finish(Err(err)))
            },
        },
        (UdevState::WritingTemp, UdevEvent::StepDone(r)) => match r {
            Ok(()) => (UdevState::Elevating, UdevAction::Elevate),
            Err(err) => (UdevState::Done, UdevAction::Finish(Err(err))),
        },
        (UdevState::Elevating, UdevEvent::StepDone(r)) => (
            UdevState::RemovingTemp(r),
            UdevAction::RemoveTemp,
        ),
        (UdevState::RemovingTemp(r), UdevEvent::StepDone(_)) => (
            UdevState::Done,
            UdevAction::Finish(r),
        ),
        _ => (UdevState::Done, UdevAction::Finish(Ok(()))),
    }
}

/// The udev check installs rules only when the installed copy is missing,
/// unreadable or different from the desired rules; it elevates only after a
/// plain installation was denied permission, and only once the rules were
/// written to the temporary copy.
pub proof fn lemma_udev_step_guards(s: UdevStateView, e: UdevEventView)
    ensures
        udev_next(s, e) matches Some((s2, a)) ==> {
            &&& a is Install ==> s is ReadingInstalled && (e matches UdevEventView::Installed(c)
                && rules_need_install(c, s->ReadingInstalled_desired))
            &&& a is WriteTemp ==> s is Installing && (e matches UdevEventView::StepDone(r) && (
            r matches Err(err) && view_is_permission_denied(err)))
            &&& a is Elevate ==> s is WritingTemp && (e matches UdevEventView::StepDone(r) && r is Ok)
        },
{
}


/// Where the elevated helper stands.
#[derive(Debug, PartialEq, Eq)]
pub enum HelperState {
    /// Waiting for the extraction; keeps the embedded rules.
    Extracting { embedded: Vec<u8> },
    /// Waiting for the executable fix-ups.
    FixingUp { embedded: Vec<u8> },
    /// Waiting for the rules found in the install tree.
    ReadingTree { embedded: Vec<u8> },
    /// Waiting for the installation of the rules.
    Installing,
    /// Done.
    Done,
}

/// What a step of the elevated helper found.
#[derive(Debug, PartialEq, Eq)]
pub enum HelperEvent {
    /// A step's outcome.
    StepDone(Result<(), AppError>),
    /// The rules file found in the install tree and read, if any.
    TreeRules(Option<Vec<u8>>),
}

/// What the elevated helper does next.
#[derive(Debug, PartialEq, Eq)]
pub enum HelperAction {
    /// Extract the payload.
    Extract,
    /// Restore the executable bits of the SEGGER tools.
    PostExtractFixups,
    /// Find the rules in the install tree and read them.
    ReadTreeRules,
    /// Install these rules.
    InstallRules(Vec<u8>),
    /// Exit the helper process with this code.
    Exit(i32),
}

/// The helper's state as a value of specifications.
pub enum HelperStateView {
    Extracting { embedded: Seq<u8> },
    FixingUp { embedded: Seq<u8> },
    ReadingTree { embedded: Seq<u8> },
    Installing,
    Done,
}

/// A helper event as a value of specifications.
pub enum HelperEventView {
    StepDone(Result<(), ErrorView>),
    TreeRules(Option<Seq<u8>>),
}

/// A helper action as a value of specifications.
pub enum HelperActionView {
    Extract,
    PostExtractFixups,
    ReadTreeRules,
    InstallRules(Seq<u8>),
    Exit(i32),
}

impl View for HelperState {
    type V = HelperStateView;

    open spec fn view(&self) -> HelperStateView {
        match self {
            HelperState::Extracting { embedded } => HelperStateView::Extracting {
                embedded: embedded@,
            },
            HelperState::FixingUp { embedded } => HelperStateView::FixingUp { embedded: embedded@ },
            HelperState::ReadingTree { embedded } => HelperStateView::ReadingTree {
                embedded: embedded@,
            },
            HelperState::Installing => HelperStateView::Installing,
            HelperState::Done => HelperStateView::Done,
        }
    }
}

impl View for HelperEvent {
    type V = HelperEventView;

    open spec fn view(&self) -> HelperEventView {
        match self {
            HelperEvent::StepDone(r) => HelperEventView::StepDone(outcome_view(*r)),
            HelperEvent::TreeRules(t) => HelperEventView::TreeRules(opt_bytes_view(*t)),
        }
    }
}

impl View for HelperAction {
    type V = HelperActionView;

    open spec fn view(&self) -> HelperActionView {
        match self {
            HelperAction::Extract => HelperActionView::Extract,
            HelperAction::PostExtractFixups => HelperActionView::PostExtractFixups,
            HelperAction::ReadTreeRules => HelperActionView::ReadTreeRules,
            HelperAction::InstallRules(b) => HelperActionView::InstallRules(b@),
            HelperAction::Exit(c) => HelperActionView::Exit(*c),
        }
    }
}

/// The transition of the elevated helper: extract; on success fix up the
/// executables and install the desired rules (the tree's, else the embedded
/// ones), then exit with 0 whatever those two give, since the exit code
/// reports the extraction the bootstrap waits for (a rules installation that
/// failed is tried again by the udev check that follows); a failed
/// extraction exits with 1.
pub open spec fn helper_next(s: HelperStateView, e: HelperEventView) -> Option<
    (HelperStateView, HelperActionView),
> {
    match (s, e) {
        (HelperStateView::Extracting { embedded }, HelperEventView::StepDone(r)) => match r {
            Ok(()) => Some(
                (HelperStateView::FixingUp { embedded }, HelperActionView::PostExtractFixups),
            ),
            Err(_) => Some((HelperStateView::Done, HelperActionView::Exit(1))),
        },
        (HelperStateView::FixingUp { embedded }, HelperEventView::StepDone(_)) => Some(
            (HelperStateView::ReadingTree { embedded }, HelperActionView::ReadTreeRules),
        ),
        (HelperStateView::ReadingTree { embedded }, HelperEventView::TreeRules(t)) => Some(
            (HelperStateView::Installing, HelperActionView::InstallRules(desired_rules(t, embedded))),
        ),
        (HelperStateView::Installing, HelperEventView::StepDone(_)) => Some(
            (HelperStateView::Done, HelperActionView::Exit(0)),
        ),
        _ => None,
    }
}

/// The helper's first state and action: extract.
pub fn helper_start(embedded: &[u8]) -> (r: (HelperState, HelperAction))
    ensures
        r.0@ == (HelperStateView::Extracting { embedded: embedded@ }),
        r.1@ == HelperActionView::Extract,
{
    (HelperState::Extracting { embedded: copy_bytes(embedded) }, HelperAction::Extract)
}

/// One step of the elevated helper (see `helper_next`); the event must be one
/// the state waits for.
pub fn helper_step(s: HelperState, e: HelperEvent) -> (r: (HelperState, HelperAction))
    requires
        helper_next(s@, e@) is Some,
    ensures
        helper_next(s@, e@) == Some((r.0@, r.1@)),
{
    match (s, e) {
        (HelperState::Extracting { embedded }, HelperEvent::StepDone(r)) => match r {
            Ok(()) => (HelperState::FixingUp { embedded }, HelperAction::PostExtractFixups),
            Err(_) => (HelperState::Done, HelperAction::Exit(1)),
        },
        (HelperState::FixingUp { embedded }, HelperEvent::StepDone(_)) => (
            HelperState::ReadingTree { embedded },
            HelperAction::ReadTreeRules,
        ),
        (HelperState::ReadingTree { embedded }, HelperEvent::TreeRules(t)) => {
            let desired = desired_udev_rules(t, embedded.as_slice());
            (HelperState::Installing, HelperAction::InstallRules(desired))
        },
        (HelperState::Installing, HelperEvent::StepDone(_)) => (
            HelperState::Done,
            HelperAction::Exit(0),
        ),
        _ => (HelperState::Done, HelperAction::Exit(1)),
    }
}

/// One authorization when the install root is not writable: the elevated
/// helper installs exactly the rules that the udev check on the next start
/// desires (for the same install tree and embedded rules), so once they are
/// installed that check finishes without installing anything and without
/// elevating.
pub proof fn lemma_single_prompt(tree: Option<Seq<u8>>, embedded: Seq<u8>, pid: u32)
    ensures
        helper_next(HelperStateView::ReadingTree { embedded }, HelperEventView::TreeRules(tree))
            == Some(
            (
                HelperStateView::Installing,
                HelperActionView::InstallRules(desired_rules(tree, embedded)),
            ),
        ),
        udev_next(UdevStateView::ReadingTree { embedded, pid }, UdevEventView::TreeRules(tree))
            == Some(
            (
                UdevStateView::ReadingInstalled { desired: desired_rules(tree, embedded), pid },
                UdevActionView::ReadInstalled,
            ),
        ),
        udev_next(
            UdevStateView::ReadingInstalled { desired: desired_rules(tree, embedded), pid },
            UdevEventView::Installed(Some(desired_rules(tree, embedded))),
        ) == Some((UdevStateView::Done, UdevActionView::Finish(Ok(())))),
{
}

/// The rules are (re)installed exactly when no installed copy could be read
/// or the installed copy differs, as a whole, from the desired rules: the
/// udev check installs the desired rules then, and finishes without touching
/// anything when the installed copy already equals them.
pub proof fn lemma_udev_reinstalls_any_difference(
    installed: Option<Seq<u8>>,
    desired: Seq<u8>,
    pid: u32,
)
    ensures
        rules_need_install(installed, desired) <==> (installed is None || installed->0 != desired),
        (installed is None || installed->0 != desired) ==> udev_next(
            UdevStateView::ReadingInstalled { desired, pid },
            UdevEventView::Installed(installed),
        ) == Some(
            (UdevStateView::Installing { desired, pid }, UdevActionView::Install(desired)),
        ),
        installed == Some(desired) ==> udev_next(
            UdevStateView::ReadingInstalled { desired, pid },
            UdevEventView::Installed(installed),
        ) == Some((UdevStateView::Done, UdevActionView::Finish(Ok(())))),
{
}

/// The helper's exit code reports the extraction alone: a run whose
/// extraction succeeded exits with 0 whatever the fix-ups, the rules found and
/// the rules installation give, and a run whose extraction failed exits with
/// 1 at once.
pub proof fn lemma_helper_exit_reports_extraction(
    embedded: Seq<u8>,
    fixups: Result<(), ErrorView>,
    tree: Option<Seq<u8>>,
    install: Result<(), ErrorView>,
    extract_error: ErrorView,
)
    ensures
        helper_next(HelperStateView::Extracting { embedded }, HelperEventView::StepDone(Ok(())))
            matches Some((s1, _)) && (helper_next(s1, HelperEventView::StepDone(fixups)) matches Some(
            (s2, _),
        ) && (helper_next(s2, HelperEventView::TreeRules(tree)) matches Some((s3, _))
            && helper_next(s3, HelperEventView::StepDone(install)) == Some(
            (HelperStateView::Done, HelperActionView::Exit(0)),
        ))),
        helper_next(
            HelperStateView::Extracting { embedded },
            HelperEventView::StepDone(Err(extract_error)),
        ) == Some((HelperStateView::Done, HelperActionView::Exit(1))),
{
}

/// How the udev check answers each step's outcome: the desired rules are the
/// tree's when it has a non-empty copy, else the embedded ones; a plain installation that
/// succeeds finishes with success; one denied permission writes the desired
/// rules to the temporary copy named after the process, any other failure is
/// the check's error; a failed temporary copy is the check's error, a written
/// one is installed with elevation; the temporary copy is removed whatever the
/// elevation gave, and the check finishes with what the elevation gave.
pub proof fn lemma_udev_step_outcomes(
    embedded: Seq<u8>,
    tree: Seq<u8>,
    desired: Seq<u8>,
    pid: u32,
    err: ErrorView,
    r: Result<(), ErrorView>,
    removal: Result<(), ErrorView>,
)
    ensures
        tree.len() > 0 ==> udev_next(
            UdevStateView::ReadingTree { embedded, pid },
            UdevEventView::TreeRules(Some(tree)),
        ) == Some(
            (UdevStateView::ReadingInstalled { desired: tree, pid }, UdevActionView::ReadInstalled),
        ),
        tree.len() == 0 ==> udev_next(
            UdevStateView::ReadingTree { embedded, pid },
            UdevEventView::TreeRules(Some(tree)),
        ) == Some(
            (
                UdevStateView::ReadingInstalled { desired: embedded, pid },
                UdevActionView::ReadInstalled,
            ),
        ),
        udev_next(UdevStateView::ReadingTree { embedded, pid }, UdevEventView::TreeRules(None))
            == Some(
            (
                UdevStateView::ReadingInstalled { desired: embedded, pid },
                UdevActionView::ReadInstalled,
            ),
        ),
        udev_next(UdevStateView::Installing { desired, pid }, UdevEventView::StepDone(Ok(())))
            == Some((UdevStateView::Done, UdevActionView::Finish(Ok(())))),
        view_is_permission_denied(err) ==> udev_next(
            UdevStateView::Installing { desired, pid },
            UdevEventView::StepDone(Err(err)),
        ) == Some(
            (UdevStateView::WritingTemp, UdevActionView::WriteTemp(udev_temp_name(pid), desired)),
        ),
        !view_is_permission_denied(err) ==> udev_next(
            UdevStateView::Installing { desired, pid },
            UdevEventView::StepDone(Err(err)),
        ) == Some((UdevStateView::Done, UdevActionView::Finish(Err(err)))),
        udev_next(UdevStateView::WritingTemp, UdevEventView::StepDone(Err(err))) == Some(
            (UdevStateView::Done, UdevActionView::Finish(Err(err))),
        ),
        udev_next(UdevStateView::WritingTemp, UdevEventView::StepDone(Ok(()))) == Some(
            (UdevStateView::Elevating, UdevActionView::Elevate),
        ),
        ({
            let after = udev_next(UdevStateView::Elevating, UdevEventView::StepDone(r));
            &&& after matches Some((s2, a2)) && a2 is RemoveTemp && udev_next(
                s2,
                UdevEventView::StepDone(removal),
            ) == Some((UdevStateView::Done, UdevActionView::Finish(r)))
        }),
{
}

} // verus!
