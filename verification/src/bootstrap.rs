//! The bundled J-Link bootstrap as a state machine: from what the last step
//! found (an event), the next state and the next thing to do (an action). The
//! caller performs each action and reports its outcome; the machine decides.
//!
//! On both platforms the executable is looked for first and the payload is
//! extracted only when it is missing. On Linux, an install root that the user
//! cannot write is extracted through one elevated helper; otherwise the tree
//! is extracted, its executables are fixed up and its udev rules installed
//! (with elevation when a plain install fails). The udev rules are then
//! checked on every run, found executable or not, before the environment is
//! set.

use vstd::prelude::*;
use crate::error::AppError;

verus! {

/// Which platform's bootstrap runs.
#[derive(Clone, Copy, Debug, PartialEq, Eq, Structural)]
pub enum BootstrapOs {
    Windows,
    Linux,
}

/// Where the bootstrap stands.
#[derive(Debug, PartialEq, Eq)]
pub enum BootstrapState {
    /// Waiting for the executable probe; `extracted` once extraction ran.
    Probing { extracted: bool },
    /// Waiting to learn whether the install root is writable.
    CheckingWritable,
    /// Waiting for the elevated extraction.
    ElevatedExtracting,
    /// Waiting for the extraction.
    Extracting,
    /// Waiting for the executable fix-ups.
    FixingUp,
    /// Waiting for the search for udev rules in the extracted tree.
    FindingRules,
    /// Waiting for the installation of the rules at the given path.
    InstallingRules(String),
    /// Waiting for the elevated installation of the rules at the given path.
    ElevatingRules(String),
    /// Waiting for the udev check; the install directory is kept.
    EnsuringUdev(String),
    /// Waiting for the environment update for the install directory.
    ApplyingEnv(String),
    /// Done.
    Finished,
}

/// What a step found.
#[derive(Debug, PartialEq, Eq)]
pub enum BootstrapEvent {
    /// The executable probe: the install directory of the executable found.
    ExeProbed(Option<String>),
    /// Whether the install root is writable by the current user.
    Writable(bool),
    /// A step's outcome.
    StepDone(Result<(), AppError>),
    /// The udev rules file found in the extracted tree.
    RulesFound(Option<String>),
}

/// What to do next.
#[derive(Debug, PartialEq, Eq)]
pub enum BootstrapAction {
    /// Look for the J-Link executable.
    ProbeExe,
    /// Find out whether the install root is writable.
    CheckWritable,
    /// Extract through the elevated helper.
    ExtractElevated,
    /// Extract as the current user.
    Extract,
    /// Restore the executable bits of the SEGGER tools.
    PostExtractFixups,
    /// Look for udev rules in the extracted tree.
    FindUdevRules,
    /// Install the udev rules at the path.
    InstallUdevRules(String),
    /// Install the udev rules at the path with elevation.
    ElevateUdevRules(String),
    /// Make sure the installed udev rules are current.
    EnsureUdev,
    /// Put the install directory on the search paths.
    ApplyEnv(String),
    /// Fail: extraction left no executable behind.
    FailMissingExe,
    /// Finish with the install directory or an error.
    Finish(Result<String, AppError>),
}

/// The state after the executable was found in `dir`.
pub open spec fn found_state(os: BootstrapOs, dir: String) -> (BootstrapState, BootstrapAction) {
    match os {
        BootstrapOs::Linux => (BootstrapState::EnsuringUdev(dir), BootstrapAction::EnsureUdev),
        BootstrapOs::Windows => (BootstrapState::ApplyingEnv(dir), BootstrapAction::ApplyEnv(dir)),
    }
}

/// The transition of the bootstrap: `None` for an event the state does not wait for.
pub open spec fn bootstrap_next(os: BootstrapOs, s: BootstrapState, e: BootstrapEvent) -> Option<
    (BootstrapState, BootstrapAction),
> {
    match (s, e) {
        (BootstrapState::Probing { extracted }, BootstrapEvent::ExeProbed(found)) => match found {
            Some(dir) => Some(found_state(os, dir)),
            None => if extracted {
                Some((BootstrapState::Finished, BootstrapAction::FailMissingExe))
            } else if os == BootstrapOs::Linux {
                Some((BootstrapState::CheckingWritable, BootstrapAction::CheckWritable))
            } else {
                Some((BootstrapState::Extracting, BootstrapAction::Extract))
            },
        },
        (BootstrapState::CheckingWritable, BootstrapEvent::Writable(w)) => if w {
            Some((BootstrapState::Extracting, BootstrapAction::Extract))
        } else {
            Some((BootstrapState::ElevatedExtracting, BootstrapAction::ExtractElevated))
        },
        (BootstrapState::ElevatedExtracting, BootstrapEvent::StepDone(r)) => match r {
            Ok(()) => Some(
                (BootstrapState::Probing { extracted: true }, BootstrapAction::ProbeExe),
            ),
            Err(err) => Some((BootstrapState::Finished, BootstrapAction::Finish(Err(err)))),
        },
        (BootstrapState::Extracting, BootstrapEvent::StepDone(r)) => match r {
            Ok(()) => if os == BootstrapOs::Linux {
                Some((BootstrapState::FixingUp, BootstrapAction::PostExtractFixups))
            } else {
                Some((BootstrapState::Probing { extracted: true }, BootstrapAction::ProbeExe))
            },
            Err(err) => Some((BootstrapState::Finished, BootstrapAction::Finish(Err(err)))),
        },
        (BootstrapState::FixingUp, BootstrapEvent::StepDone(_)) => Some(
            (BootstrapState::FindingRules, BootstrapAction::FindUdevRules),
        ),
        (BootstrapState::FindingRules, BootstrapEvent::RulesFound(found)) => match found {
            Some(p) => Some((BootstrapState::InstallingRules(p), BootstrapAction::InstallUdevRules(p))),
            None => Some((BootstrapState::Probing { extracted: true }, BootstrapAction::ProbeExe)),
        },
        (BootstrapState::InstallingRules(p), BootstrapEvent::StepDone(r)) => match r {
            Ok(()) => Some(
                (BootstrapState::Probing { extracted: true }, BootstrapAction::ProbeExe),
            ),
            Err(_) => Some((BootstrapState::ElevatingRules(p), BootstrapAction::ElevateUdevRules(p))),
        },
        (BootstrapState::ElevatingRules(_), BootstrapEvent::StepDone(r)) => match r {
            Ok(()) => Some(
                (BootstrapState::Probing { extracted: true }, BootstrapAction::ProbeExe),
            ),
            Err(err) => Some((BootstrapState::Finished, BootstrapAction::Finish(Err(err)))),
        },
        (BootstrapState::EnsuringUdev(dir), BootstrapEvent::StepDone(_)) => Some(
            (BootstrapState::ApplyingEnv(dir), BootstrapAction::ApplyEnv(dir)),
        ),
        (BootstrapState::ApplyingEnv(dir), BootstrapEvent::StepDone(_)) => Some(
            (BootstrapState::Finished, BootstrapAction::Finish(Ok(dir))),
        ),
        _ => None,
    }
}

/// The state a bootstrap starts in, with its first action: probe for the executable.
pub fn bootstrap_start() -> (r: (BootstrapState, BootstrapAction))
    ensures
        r == (BootstrapState::Probing { extracted: false }, BootstrapAction::ProbeExe),
{
    (BootstrapState::Probing { extracted: false }, BootstrapAction::ProbeExe)
}

/// One step of the bootstrap (see `bootstrap_next`); the event must be one the
/// state waits for.
pub fn bootstrap_step(os: BootstrapOs, s: BootstrapState, e: BootstrapEvent) -> (r: (
    BootstrapState,
    BootstrapAction,
))
    requires
        bootstrap_next(os, s, e) is Some,
    ensures
        bootstrap_next(os, s, e) == Some(r),
{
    match (s, e) {
        (BootstrapState::Probing { extracted }, BootstrapEvent::ExeProbed(found)) => match found {
            Some(dir) => match os {
                BootstrapOs::Linux => (BootstrapState::EnsuringUdev(dir), BootstrapAction::EnsureUdev),
                BootstrapOs::Windows => {
                    let d2 = dir.clone();
                    (BootstrapState::ApplyingEnv(dir), BootstrapAction::ApplyEnv(d2))
                },
            },
            None => if extracted {
                (BootstrapState::Finished, BootstrapAction::FailMissingExe)
            } else if os == BootstrapOs::Linux {
                (BootstrapState::CheckingWritable, BootstrapAction::CheckWritable)
            } else {
                (BootstrapState::Extracting, BootstrapAction::Extract)
            },
        },
        (BootstrapState::CheckingWritable, BootstrapEvent::Writable(w)) => if w {
            (BootstrapState::Extracting, BootstrapAction::Extract)
        } else {
            (BootstrapState::ElevatedExtracting, BootstrapAction::ExtractElevated)
        },
        (BootstrapState::ElevatedExtracting, BootstrapEvent::StepDone(r)) => match r {
            Ok(()) => (BootstrapState::Probing { extracted: true }, BootstrapAction::ProbeExe),
            Err(err) => (BootstrapState::Finished, BootstrapAction::Finish(Err(err))),
        },
        (BootstrapState::Extracting, BootstrapEvent::StepDone(r)) => match r {
            Ok(()) => if os == BootstrapOs::Linux {
                (BootstrapState::FixingUp, BootstrapAction::PostExtractFixups)
            } else {
                (BootstrapState::Probing { extracted: true }, BootstrapAction::ProbeExe)
            },
            Err(err) => (BootstrapState::Finished, BootstrapAction::Finish(Err(err))),
        },
        (BootstrapState::FixingUp, BootstrapEvent::StepDone(_)) => (
            BootstrapState::FindingRules,
            BootstrapAction::FindUdevRules,
        ),
        (BootstrapState::FindingRules, BootstrapEvent::RulesFound(found)) => match found {
            Some(p) => {
                let p2 = p.clone();
                (BootstrapState::InstallingRules(p), BootstrapAction::InstallUdevRules(p2))
            },
            None => (BootstrapState::Probing { extracted: true }, BootstrapAction::ProbeExe),
        },
        (BootstrapState::InstallingRules(p), BootstrapEvent::StepDone(r)) => match r {
            Ok(()) => (BootstrapState::Probing { extracted: true }, BootstrapAction::ProbeExe),
            Err(_) => {
                let p2 = p.clone();
                (BootstrapState::ElevatingRules(p), BootstrapAction::ElevateUdevRules(p2))
            },
        },
        (BootstrapState::ElevatingRules(_), BootstrapEvent::StepDone(r)) => match r {
            Ok(()) => (BootstrapState::Probing { extracted: true }, BootstrapAction::ProbeExe),
            Err(err) => (BootstrapState::Finished, BootstrapAction::Finish(Err(err))),
        },
        (BootstrapState::EnsuringUdev(dir), BootstrapEvent::StepDone(_)) => {
            let d2 = dir.clone();
            (BootstrapState::ApplyingEnv(dir), BootstrapAction::ApplyEnv(d2))
        },
        (BootstrapState::ApplyingEnv(dir), BootstrapEvent::StepDone(_)) => (
            BootstrapState::Finished,
            BootstrapAction::Finish(Ok(dir)),
        ),
        _ => (BootstrapState::Finished, BootstrapAction::FailMissingExe),
    }
}


/// The states and actions a bootstrap goes through from `s` on the events, in
/// order, as (state after the step, action of the step); it stops at the first
/// event the state does not wait for.
pub open spec fn bootstrap_trace(os: BootstrapOs, s: BootstrapState, events: Seq<BootstrapEvent>) -> Seq<
    (BootstrapState, BootstrapAction),
>
    decreases events.len(),
{
    if events.len() == 0 {
        Seq::empty()
    } else {
        match bootstrap_next(os, s, events[0]) {
            Some(step) => seq![step] + bootstrap_trace(os, step.0, events.drop_first()),
            None => Seq::empty(),
        }
    }
}

/// The state a trace from `s` is in before its `k`-th step.
pub open spec fn state_before(
    s: BootstrapState,
    trace: Seq<(BootstrapState, BootstrapAction)>,
    k: int,
) -> BootstrapState {
    if k == 0 {
        s
    } else {
        trace[k - 1].0
    }
}

/// The initial state.
pub open spec fn initial_state() -> BootstrapState {
    BootstrapState::Probing { extracted: false }
}

/// An action that extracts the payload.
pub open spec fn is_extraction(a: BootstrapAction) -> bool {
    a is Extract || a is ExtractElevated
}

/// A state from which the payload may still be extracted.
pub open spec fn may_extract(s: BootstrapState) -> bool {
    s == (BootstrapState::Probing { extracted: false }) || s is CheckingWritable
}

/// Each step of a trace is a transition from the state before it.
pub proof fn lemma_trace_steps(os: BootstrapOs, s: BootstrapState, events: Seq<BootstrapEvent>)
    ensures
        bootstrap_trace(os, s, events).len() <= events.len(),
        forall|k: int|
            0 <= k < bootstrap_trace(os, s, events).len() ==> bootstrap_next(
                os,
                state_before(s, bootstrap_trace(os, s, events), k),
                events[k],
            ) == Some(#[trigger] bootstrap_trace(os, s, events)[k]),
    decreases events.len(),
{
    if events.len() > 0 {
        if let Some(step) = bootstrap_next(os, s, events[0]) {
            let rest = events.drop_first();
            lemma_trace_steps(os, step.0, rest);
            let t = bootstrap_trace(os, s, events);
            let tr = bootstrap_trace(os, step.0, rest);
            assert forall|k: int| 0 <= k < t.len() implies bootstrap_next(
                os,
                state_before(s, t, k),
                events[k],
            ) == Some(#[trigger] t[k]) by {
                if k > 0 {
                    assert(t[k] == tr[k - 1]);
                    assert(events[k] == rest[k - 1]);
                    if k > 1 {
                        assert(t[k - 1] == tr[k - 2]);
                    }
                    assert(state_before(s, t, k) == state_before(step.0, tr, k - 1));
                }
            }
        }
    }
}

/// One step: an extraction leaves the extracting states behind, and no step
/// from a state past them extracts or goes back.
pub proof fn lemma_step_extraction(os: BootstrapOs, s: BootstrapState, e: BootstrapEvent)
    ensures
        bootstrap_next(os, s, e) matches Some((s2, a)) ==> {
            &&& is_extraction(a) ==> !may_extract(s2)
            &&& !may_extract(s) ==> !may_extract(s2) && !is_extraction(a)
        },
{
}

/// No extraction happens from a state past extraction.
proof fn lemma_no_extraction_after(os: BootstrapOs, s: BootstrapState, events: Seq<BootstrapEvent>)
    requires
        !may_extract(s),
    ensures
        forall|i: int|
            0 <= i < bootstrap_trace(os, s, events).len() ==> !is_extraction(
                (#[trigger] bootstrap_trace(os, s, events)[i]).1,
            ),
    decreases events.len(),
{
    if events.len() > 0 {
        if let Some(step) = bootstrap_next(os, s, events[0]) {
            lemma_step_extraction(os, s, events[0]);
            lemma_no_extraction_after(os, step.0, events.drop_first());
            let t = bootstrap_trace(os, s, events);
            assert forall|i: int| 0 <= i < t.len() implies !is_extraction((#[trigger] t[i]).1) by {
                if i > 0 {
                    assert(t[i] == bootstrap_trace(os, step.0, events.drop_first())[i - 1]);
                }
            }
        }
    }
}

proof fn lemma_at_most_one_extraction_from(os: BootstrapOs, s: BootstrapState, events: Seq<BootstrapEvent>)
    ensures
        forall|i: int, j: int|
            0 <= i < j < bootstrap_trace(os, s, events).len() ==> !(is_extraction(
                (#[trigger] bootstrap_trace(os, s, events)[i]).1,
            ) && is_extraction((#[trigger] bootstrap_trace(os, s, events)[j]).1)),
    decreases events.len(),
{
    if events.len() > 0 {
        if let Some(step) = bootstrap_next(os, s, events[0]) {
            let rest = events.drop_first();
            let t = bootstrap_trace(os, s, events);
            let tr = bootstrap_trace(os, step.0, rest);
            lemma_step_extraction(os, s, events[0]);
            lemma_at_most_one_extraction_from(os, step.0, rest);
            if !may_extract(step.0) {
                lemma_no_extraction_after(os, step.0, rest);
            }
            assert forall|i: int, j: int| 0 <= i < j < t.len() implies !(is_extraction(
                (#[trigger] t[i]).1,
            ) && is_extraction((#[trigger] t[j]).1)) by {
                assert(t[j] == tr[j - 1]);
                if i > 0 {
                    assert(t[i] == tr[i - 1]);
                }
            }
        }
    }
}

/// The bootstrap extracts the payload at most once, whatever the steps report.
pub proof fn lemma_bootstrap_extracts_at_most_once(os: BootstrapOs, events: Seq<BootstrapEvent>)
    ensures
        forall|i: int, j: int|
            0 <= i < j < bootstrap_trace(os, initial_state(), events).len() ==> !(is_extraction(
                (#[trigger] bootstrap_trace(os, initial_state(), events)[i]).1,
            ) && is_extraction((#[trigger] bootstrap_trace(os, initial_state(), events)[j]).1)),
{
    lemma_at_most_one_extraction_from(os, initial_state(), events);
}

/// The bootstrap succeeds only right after putting that install directory on
/// the search paths, and on Linux only after the udev rules were checked just
/// before that, whether or not the payload was extracted in this run.
pub proof fn lemma_bootstrap_success_path(
    os: BootstrapOs,
    events: Seq<BootstrapEvent>,
    k: int,
    dir: String,
)
    requires
        0 <= k < bootstrap_trace(os, initial_state(), events).len(),
        bootstrap_trace(os, initial_state(), events)[k].1 == BootstrapAction::Finish(Ok(dir)),
    ensures
        k >= 1,
        bootstrap_trace(os, initial_state(), events)[k - 1].1 == BootstrapAction::ApplyEnv(dir),
        os == BootstrapOs::Linux ==> k >= 2 && bootstrap_trace(os, initial_state(), events)[k
            - 2].1 == BootstrapAction::EnsureUdev,
{
    let t = bootstrap_trace(os, initial_state(), events);
    lemma_trace_steps(os, initial_state(), events);
    assert(bootstrap_next(os, state_before(initial_state(), t, k), events[k]) == Some(t[k]));
    assert(k >= 1);
    assert(t[k - 1].0 == BootstrapState::ApplyingEnv(dir));
    assert(bootstrap_next(os, state_before(initial_state(), t, k - 1), events[k - 1]) == Some(
        t[k - 1],
    ));
    if os == BootstrapOs::Linux {
        assert(k - 1 >= 1);
        assert(t[k - 2].0 == BootstrapState::EnsuringUdev(dir));
        assert(bootstrap_next(os, state_before(initial_state(), t, k - 2), events[k - 2]) == Some(
            t[k - 2],
        ));
    }
}

/// Elevated extraction is chosen only right after the install root was found
/// not writable.
pub proof fn lemma_bootstrap_elevates_only_when_not_writable(
    os: BootstrapOs,
    events: Seq<BootstrapEvent>,
    k: int,
)
    requires
        0 <= k < bootstrap_trace(os, initial_state(), events).len(),
        bootstrap_trace(os, initial_state(), events)[k].1 == BootstrapAction::ExtractElevated,
    ensures
        os == BootstrapOs::Linux,
        events[k] == BootstrapEvent::Writable(false),
        k >= 1,
        bootstrap_trace(os, initial_state(), events)[k - 1].1 == BootstrapAction::CheckWritable,
{
    let t = bootstrap_trace(os, initial_state(), events);
    lemma_trace_steps(os, initial_state(), events);
    assert(bootstrap_next(os, state_before(initial_state(), t, k), events[k]) == Some(t[k]));
    assert(k >= 1);
    assert(bootstrap_next(os, state_before(initial_state(), t, k - 1), events[k - 1]) == Some(
        t[k - 1],
    ));
}


/// The payload is extracted only when the first probe found no executable:
/// on Windows right at that probe, on Linux right after it and the
/// writability check.
pub proof fn lemma_bootstrap_extracts_only_when_missing(
    os: BootstrapOs,
    events: Seq<BootstrapEvent>,
    k: int,
)
    requires
        0 <= k < bootstrap_trace(os, initial_state(), events).len(),
        is_extraction(bootstrap_trace(os, initial_state(), events)[k].1),
    ensures
        os == BootstrapOs::Windows ==> k == 0 && events[0] == BootstrapEvent::ExeProbed(None),
        os == BootstrapOs::Linux ==> k == 1 && events[0] == BootstrapEvent::ExeProbed(None)
            && events[1] is Writable,
{
    let t = bootstrap_trace(os, initial_state(), events);
    lemma_trace_steps(os, initial_state(), events);
    lemma_at_most_one_extraction_from(os, initial_state(), events);
    assert(bootstrap_next(os, state_before(initial_state(), t, k), events[k]) == Some(t[k]));
    if k >= 1 {
        assert(bootstrap_next(os, state_before(initial_state(), t, k - 1), events[k - 1]) == Some(
            t[k - 1],
        ));
        if k >= 2 {
            lemma_no_extracting_state_after_first_step(os, events, k - 1);
        }
    }
}

/// Only the first step can leave the bootstrap in a state from which it may
/// still extract (waiting for the writability check on Linux).
proof fn lemma_no_extracting_state_after_first_step(os: BootstrapOs, events: Seq<BootstrapEvent>, k: int)
    requires
        1 <= k < bootstrap_trace(os, initial_state(), events).len(),
    ensures
        !may_extract(bootstrap_trace(os, initial_state(), events)[k].0),
    decreases k,
{
    let t = bootstrap_trace(os, initial_state(), events);
    lemma_trace_steps(os, initial_state(), events);
    assert(bootstrap_next(os, state_before(initial_state(), t, k), events[k]) == Some(t[k]));
    assert(bootstrap_next(os, state_before(initial_state(), t, 0), events[0]) == Some(t[0]));
    if k >= 2 {
        lemma_no_extracting_state_after_first_step(os, events, k - 1);
    }
    lemma_step_extraction(os, state_before(initial_state(), t, k), events[k]);
    if k >= 1 {
        assert(bootstrap_next(os, state_before(initial_state(), t, k - 1), events[k - 1]) == Some(
            t[k - 1],
        ));
    }
}


/// An action that may ask for authorization to install udev rules.
pub open spec fn installs_rules(a: BootstrapAction) -> bool {
    a is InstallUdevRules || a is ElevateUdevRules
}

/// A state on the path after an elevated extraction.
pub open spec fn after_elevated_extraction(s: BootstrapState) -> bool {
    ||| s is ElevatedExtracting
    ||| s == (BootstrapState::Probing { extracted: true })
    ||| s is EnsuringUdev
    ||| s is ApplyingEnv
    ||| s is Finished
}

/// One step: an elevated extraction enters that path, and no step on it
/// extracts or installs rules.
pub proof fn lemma_step_after_elevated(os: BootstrapOs, s: BootstrapState, e: BootstrapEvent)
    ensures
        bootstrap_next(os, s, e) matches Some((s2, a)) ==> {
            &&& a is ExtractElevated ==> after_elevated_extraction(s2)
            &&& after_elevated_extraction(s) ==> after_elevated_extraction(s2) && !installs_rules(a)
                && !is_extraction(a)
        },
{
}

proof fn lemma_no_rules_after_elevated(os: BootstrapOs, s: BootstrapState, events: Seq<BootstrapEvent>)
    requires
        after_elevated_extraction(s),
    ensures
        forall|i: int|
            0 <= i < bootstrap_trace(os, s, events).len() ==> !installs_rules(
                (#[trigger] bootstrap_trace(os, s, events)[i]).1,
            ) && !is_extraction(bootstrap_trace(os, s, events)[i].1),
    decreases events.len(),
{
    if events.len() > 0 {
        if let Some(step) = bootstrap_next(os, s, events[0]) {
            lemma_step_after_elevated(os, s, events[0]);
            lemma_no_rules_after_elevated(os, step.0, events.drop_first());
            let t = bootstrap_trace(os, s, events);
            assert forall|i: int| 0 <= i < t.len() implies !installs_rules((#[trigger] t[i]).1)
                && !is_extraction(t[i].1) by {
                if i > 0 {
                    assert(t[i] == bootstrap_trace(os, step.0, events.drop_first())[i - 1]);
                }
            }
        }
    }
}

proof fn lemma_nothing_after_elevated(
    os: BootstrapOs,
    s: BootstrapState,
    events: Seq<BootstrapEvent>,
    k: int,
)
    requires
        0 <= k < bootstrap_trace(os, s, events).len(),
        bootstrap_trace(os, s, events)[k].1 == BootstrapAction::ExtractElevated,
    ensures
        forall|j: int|
            k < j < bootstrap_trace(os, s, events).len() ==> !installs_rules(
                (#[trigger] bootstrap_trace(os, s, events)[j]).1,
            ) && !is_extraction(bootstrap_trace(os, s, events)[j].1),
    decreases events.len(),
{
    let step = bootstrap_next(os, s, events[0])->0;
    let rest = events.drop_first();
    let t = bootstrap_trace(os, s, events);
    let tr = bootstrap_trace(os, step.0, rest);
    assert(t == seq![step] + tr);
    if k == 0 {
        lemma_step_after_elevated(os, s, events[0]);
        lemma_no_rules_after_elevated(os, step.0, rest);
    } else {
        assert(t[k] == tr[k - 1]);
        lemma_nothing_after_elevated(os, step.0, rest, k - 1);
    }
    assert forall|j: int| k < j < t.len() implies !installs_rules((#[trigger] t[j]).1)
        && !is_extraction(t[j].1) by {
        assert(t[j] == tr[j - 1]);
    }
}

/// When the install root is not writable, the bootstrap itself asks for
/// authorization once: apart from the elevated extraction (the second step,
/// after the writability check), it runs no other extraction and installs no
/// udev rules; the rules come from the elevated helper (see
/// `udev::lemma_single_prompt`).
pub proof fn lemma_bootstrap_elevated_run_prompts_once(
    os: BootstrapOs,
    events: Seq<BootstrapEvent>,
    k: int,
)
    requires
        0 <= k < bootstrap_trace(os, initial_state(), events).len(),
        bootstrap_trace(os, initial_state(), events)[k].1 == BootstrapAction::ExtractElevated,
    ensures
        k == 1,
        bootstrap_trace(os, initial_state(), events)[0].1 == BootstrapAction::CheckWritable,
        forall|j: int|
            0 <= j < bootstrap_trace(os, initial_state(), events).len() && j != k ==> !installs_rules(
                (#[trigger] bootstrap_trace(os, initial_state(), events)[j]).1,
            ) && !is_extraction(bootstrap_trace(os, initial_state(), events)[j].1),
{
    lemma_bootstrap_extracts_only_when_missing(os, events, k);
    lemma_bootstrap_elevates_only_when_not_writable(os, events, k);
    lemma_nothing_after_elevated(os, initial_state(), events, k);
}

/// A trace goes on from its `k`-th step exactly as the transition on the
/// next event says, and stops there when that event is not waited for.
proof fn lemma_trace_next(os: BootstrapOs, s: BootstrapState, events: Seq<BootstrapEvent>, k: int)
    requires
        0 <= k < bootstrap_trace(os, s, events).len(),
        k + 1 < events.len(),
    ensures
        bootstrap_next(os, bootstrap_trace(os, s, events)[k].0, events[k + 1]) matches Some(step)
            ==> k + 1 < bootstrap_trace(os, s, events).len() && bootstrap_trace(os, s, events)[k
            + 1] == step,
        bootstrap_next(os, bootstrap_trace(os, s, events)[k].0, events[k + 1]) is None
            ==> bootstrap_trace(os, s, events).len() == k + 1,
    decreases k,
{
    let step0 = bootstrap_next(os, s, events[0])->0;
    let rest = events.drop_first();
    let t = bootstrap_trace(os, s, events);
    let tr = bootstrap_trace(os, step0.0, rest);
    assert(t == seq![step0] + tr);
    if k == 0 {
        assert(rest[0] == events[1]);
        if rest.len() > 0 {
            assert(tr == match bootstrap_next(os, step0.0, rest[0]) {
                Some(st) => seq![st] + bootstrap_trace(os, st.0, rest.drop_first()),
                None => Seq::empty(),
            });
        }
    } else {
        assert(t[k] == tr[k - 1]);
        assert(events[k + 1] == rest[k]);
        lemma_trace_next(os, step0.0, rest, k - 1);
        if k + 1 < t.len() {
            assert(t[k + 1] == tr[k]);
        }
    }
}

/// A failed elevated udev rules installation ends the bootstrap with its
/// error, and a finished bootstrap takes no further event.
pub proof fn lemma_bootstrap_step_failed_rules_elevation(
    os: BootstrapOs,
    p: String,
    e: AppError,
    next: BootstrapEvent,
)
    ensures
        bootstrap_next(os, BootstrapState::ElevatingRules(p), BootstrapEvent::StepDone(Err(e)))
            == Some((BootstrapState::Finished, BootstrapAction::Finish(Err(e)))),
        bootstrap_next(os, BootstrapState::Finished, next) is None,
{
}

/// A dismissed or failed elevated udev rules installation is the bootstrap's
/// error: right after asking for it, a failure ends the bootstrap with that
/// error, and nothing follows.
pub proof fn lemma_bootstrap_failed_rules_elevation_is_error(
    os: BootstrapOs,
    events: Seq<BootstrapEvent>,
    k: int,
    e: AppError,
)
    requires
        0 <= k < bootstrap_trace(os, initial_state(), events).len(),
        bootstrap_trace(os, initial_state(), events)[k].1 is ElevateUdevRules,
        k + 1 < events.len(),
        events[k + 1] == BootstrapEvent::StepDone(Err(e)),
    ensures
        bootstrap_trace(os, initial_state(), events).len() == k + 2,
        bootstrap_trace(os, initial_state(), events)[k + 1].1 == BootstrapAction::Finish(Err(e)),
{
    let t = bootstrap_trace(os, initial_state(), events);
    lemma_trace_steps(os, initial_state(), events);
    assert(bootstrap_next(os, state_before(initial_state(), t, k), events[k]) == Some(t[k]));
    assert(t[k].0 is ElevatingRules);
    lemma_bootstrap_step_failed_rules_elevation(os, t[k].0->ElevatingRules_0, e, events[k]);
    lemma_trace_next(os, initial_state(), events, k);
    if k + 2 < events.len() {
        lemma_trace_next(os, initial_state(), events, k + 1);
    } else {
        lemma_trace_steps(os, initial_state(), events);
    }
}

/// Where the found executable leads: on Windows straight to putting its
/// directory on the search paths, on Linux to the udev check first, whether
/// or not the payload was extracted in this run.
pub proof fn lemma_bootstrap_found_exe(os: BootstrapOs, extracted: bool, dir: String)
    ensures
        os == BootstrapOs::Windows ==> bootstrap_next(
            os,
            BootstrapState::Probing { extracted },
            BootstrapEvent::ExeProbed(Some(dir)),
        ) == Some((BootstrapState::ApplyingEnv(dir), BootstrapAction::ApplyEnv(dir))),
        os == BootstrapOs::Linux ==> bootstrap_next(
            os,
            BootstrapState::Probing { extracted },
            BootstrapEvent::ExeProbed(Some(dir)),
        ) == Some((BootstrapState::EnsuringUdev(dir), BootstrapAction::EnsureUdev)),
{
}

/// An action of the Linux install alone (writability, elevation, fix-ups and
/// udev rules).
pub open spec fn is_linux_only(a: BootstrapAction) -> bool {
    ||| a is CheckWritable
    ||| a is ExtractElevated
    ||| a is PostExtractFixups
    ||| a is FindUdevRules
    ||| a is InstallUdevRules
    ||| a is ElevateUdevRules
    ||| a is EnsureUdev
}

/// A state that a Windows bootstrap can be in.
pub open spec fn windows_state(s: BootstrapState) -> bool {
    ||| s is Probing
    ||| s is Extracting
    ||| s is ApplyingEnv
    ||| s is Finished
}

proof fn lemma_windows_trace(s: BootstrapState, events: Seq<BootstrapEvent>)
    requires
        windows_state(s),
    ensures
        forall|i: int|
            0 <= i < bootstrap_trace(BootstrapOs::Windows, s, events).len() ==> !is_linux_only(
                (#[trigger] bootstrap_trace(BootstrapOs::Windows, s, events)[i]).1,
            ),
    decreases events.len(),
{
    let os = BootstrapOs::Windows;
    if events.len() > 0 {
        if let Some(step) = bootstrap_next(os, s, events[0]) {
            assert(windows_state(step.0) && !is_linux_only(step.1));
            lemma_windows_trace(step.0, events.drop_first());
            let t = bootstrap_trace(os, s, events);
            assert forall|i: int| 0 <= i < t.len() implies !is_linux_only((#[trigger] t[i]).1) by {
                if i > 0 {
                    assert(t[i] == bootstrap_trace(os, step.0, events.drop_first())[i - 1]);
                }
            }
        }
    }
}

/// A Windows bootstrap never asks for a step of the Linux install: no
/// writability check, elevation, fix-ups or udev rules, whatever the steps
/// report.
pub proof fn lemma_bootstrap_windows_has_no_linux_steps(events: Seq<BootstrapEvent>)
    ensures
        forall|i: int|
            0 <= i < bootstrap_trace(BootstrapOs::Windows, initial_state(), events).len()
                ==> !is_linux_only(
                (#[trigger] bootstrap_trace(BootstrapOs::Windows, initial_state(), events)[i]).1,
            ),
{
    lemma_windows_trace(initial_state(), events);
}

/// How the bootstrap answers each step's outcome: a failed extraction (plain
/// or elevated) is its error; a plain udev rules installation that fails is
/// retried with elevation for the same file; a successful extraction, rules
/// installation or elevation goes back to probing; no rules in the tree skips
/// to probing; an extraction that leaves no executable is a failure; on Linux
/// a writable root is extracted as the user and one that is not through the
/// elevated helper; the udev check is followed by the environment update for
/// the same directory, and that by success with it.
pub proof fn lemma_bootstrap_step_outcomes(
    os: BootstrapOs,
    e: AppError,
    p: String,
    dir: String,
    r: Result<(), AppError>,
)
    ensures
        bootstrap_next(os, BootstrapState::Extracting, BootstrapEvent::StepDone(Err(e))) == Some(
            (BootstrapState::Finished, BootstrapAction::Finish(Err(e))),
        ),
        bootstrap_next(os, BootstrapState::ElevatedExtracting, BootstrapEvent::StepDone(Err(e)))
            == Some((BootstrapState::Finished, BootstrapAction::Finish(Err(e)))),
        bootstrap_next(os, BootstrapState::ElevatedExtracting, BootstrapEvent::StepDone(Ok(())))
            == Some((BootstrapState::Probing { extracted: true }, BootstrapAction::ProbeExe)),
        bootstrap_next(os, BootstrapState::InstallingRules(p), BootstrapEvent::StepDone(Err(e)))
            == Some((BootstrapState::ElevatingRules(p), BootstrapAction::ElevateUdevRules(p))),
        bootstrap_next(os, BootstrapState::InstallingRules(p), BootstrapEvent::StepDone(Ok(())))
            == Some((BootstrapState::Probing { extracted: true }, BootstrapAction::ProbeExe)),
        bootstrap_next(os, BootstrapState::ElevatingRules(p), BootstrapEvent::StepDone(Ok(())))
            == Some((BootstrapState::Probing { extracted: true }, BootstrapAction::ProbeExe)),
        bootstrap_next(os, BootstrapState::FindingRules, BootstrapEvent::RulesFound(None)) == Some(
            (BootstrapState::Probing { extracted: true }, BootstrapAction::ProbeExe),
        ),
        bootstrap_next(os, BootstrapState::FindingRules, BootstrapEvent::RulesFound(Some(p)))
            == Some((BootstrapState::InstallingRules(p), BootstrapAction::InstallUdevRules(p))),
        bootstrap_next(
            os,
            BootstrapState::Probing { extracted: true },
            BootstrapEvent::ExeProbed(None),
        ) == Some((BootstrapState::Finished, BootstrapAction::FailMissingExe)),
        os == BootstrapOs::Windows ==> bootstrap_next(
            os,
            BootstrapState::Probing { extracted: false },
            BootstrapEvent::ExeProbed(None),
        ) == Some((BootstrapState::Extracting, BootstrapAction::Extract)),
        os == BootstrapOs::Windows ==> bootstrap_next(
            os,
            BootstrapState::Extracting,
            BootstrapEvent::StepDone(Ok(())),
        ) == Some((BootstrapState::Probing { extracted: true }, BootstrapAction::ProbeExe)),
        os == BootstrapOs::Linux ==> bootstrap_next(
            os,
            BootstrapState::Probing { extracted: false },
            BootstrapEvent::ExeProbed(None),
        ) == Some((BootstrapState::CheckingWritable, BootstrapAction::CheckWritable)),
        os == BootstrapOs::Linux ==> bootstrap_next(
            os,
            BootstrapState::Extracting,
            BootstrapEvent::StepDone(Ok(())),
        ) == Some((BootstrapState::FixingUp, BootstrapAction::PostExtractFixups)),
        os == BootstrapOs::Linux ==> bootstrap_next(
            os,
            BootstrapState::FixingUp,
            BootstrapEvent::StepDone(r),
        ) == Some((BootstrapState::FindingRules, BootstrapAction::FindUdevRules)),
        bootstrap_next(os, BootstrapState::CheckingWritable, BootstrapEvent::Writable(true))
            == Some((BootstrapState::Extracting, BootstrapAction::Extract)),
        bootstrap_next(os, BootstrapState::CheckingWritable, BootstrapEvent::Writable(false))
            == Some((BootstrapState::ElevatedExtracting, BootstrapAction::ExtractElevated)),
        bootstrap_next(os, BootstrapState::EnsuringUdev(dir), BootstrapEvent::StepDone(r)) == Some(
            (BootstrapState::ApplyingEnv(dir), BootstrapAction::ApplyEnv(dir)),
        ),
        bootstrap_next(os, BootstrapState::ApplyingEnv(dir), BootstrapEvent::StepDone(r)) == Some(
            (BootstrapState::Finished, BootstrapAction::Finish(Ok(dir))),
        ),
{
}

} // verus!
