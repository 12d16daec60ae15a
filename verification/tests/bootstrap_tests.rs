use winusb_switcher_lite::bootstrap::{
    bootstrap_start, bootstrap_step, BootstrapAction, BootstrapEvent, BootstrapOs, BootstrapState,
};
use winusb_switcher_lite::error::AppError;

fn drive(os: BootstrapOs, events: Vec<BootstrapEvent>) -> Vec<BootstrapAction> {
    let (mut state, action) = bootstrap_start();
    let mut actions = vec![action];
    for e in events {
        let (s, a) = bootstrap_step(os, state, e);
        state = s;
        actions.push(a);
    }
    actions
}

#[test]
fn linux_fresh_install_with_rules_elevation() {
    let acts = drive(
        BootstrapOs::Linux,
        vec![
            BootstrapEvent::ExeProbed(None),
            BootstrapEvent::Writable(true),
            BootstrapEvent::StepDone(Ok(())),
            BootstrapEvent::StepDone(Err(AppError::Io("chmod".to_string()))),
            BootstrapEvent::RulesFound(Some("/opt/SEGGER/99-jlink.rules".to_string())),
            BootstrapEvent::StepDone(Err(AppError::Io("Permission denied".to_string()))),
            BootstrapEvent::StepDone(Ok(())),
            BootstrapEvent::ExeProbed(Some("/opt/SEGGER".to_string())),
            BootstrapEvent::StepDone(Ok(())),
            BootstrapEvent::StepDone(Ok(())),
        ],
    );
    assert_eq!(
        acts,
        vec![
            BootstrapAction::ProbeExe,
            BootstrapAction::CheckWritable,
            BootstrapAction::Extract,
            BootstrapAction::PostExtractFixups,
            BootstrapAction::FindUdevRules,
            BootstrapAction::InstallUdevRules("/opt/SEGGER/99-jlink.rules".to_string()),
            BootstrapAction::ElevateUdevRules("/opt/SEGGER/99-jlink.rules".to_string()),
            BootstrapAction::ProbeExe,
            BootstrapAction::EnsureUdev,
            BootstrapAction::ApplyEnv("/opt/SEGGER".to_string()),
            BootstrapAction::Finish(Ok("/opt/SEGGER".to_string())),
        ]
    );
}

#[test]
fn linux_existing_install_still_checks_udev() {
    let acts = drive(
        BootstrapOs::Linux,
        vec![
            BootstrapEvent::ExeProbed(Some("/opt/SEGGER/JLink_V930a".to_string())),
            BootstrapEvent::StepDone(Err(AppError::Platform("udevadm".to_string()))),
            BootstrapEvent::StepDone(Ok(())),
        ],
    );
    assert_eq!(
        acts,
        vec![
            BootstrapAction::ProbeExe,
            BootstrapAction::EnsureUdev,
            BootstrapAction::ApplyEnv("/opt/SEGGER/JLink_V930a".to_string()),
            BootstrapAction::Finish(Ok("/opt/SEGGER/JLink_V930a".to_string())),
        ]
    );
}

#[test]
fn linux_not_writable_uses_elevated_extraction() {
    let acts = drive(
        BootstrapOs::Linux,
        vec![
            BootstrapEvent::ExeProbed(None),
            BootstrapEvent::Writable(false),
            BootstrapEvent::StepDone(Ok(())),
            BootstrapEvent::ExeProbed(None),
        ],
    );
    assert_eq!(
        acts,
        vec![
            BootstrapAction::ProbeExe,
            BootstrapAction::CheckWritable,
            BootstrapAction::ExtractElevated,
            BootstrapAction::ProbeExe,
            BootstrapAction::FailMissingExe,
        ]
    );
}

#[test]
fn linux_failed_extraction_finishes_with_error() {
    let acts = drive(
        BootstrapOs::Linux,
        vec![
            BootstrapEvent::ExeProbed(None),
            BootstrapEvent::Writable(false),
            BootstrapEvent::StepDone(Err(AppError::Platform("Authorization failed".to_string()))),
        ],
    );
    assert_eq!(
        acts.last(),
        Some(&BootstrapAction::Finish(Err(AppError::Platform("Authorization failed".to_string()))))
    );
}

#[test]
fn linux_no_rules_found_goes_back_to_probe() {
    let (s, a) = bootstrap_step(BootstrapOs::Linux, BootstrapState::FindingRules, BootstrapEvent::RulesFound(None));
    assert_eq!(s, BootstrapState::Probing { extracted: true });
    assert_eq!(a, BootstrapAction::ProbeExe);
}

#[test]
fn windows_extracts_then_applies_env() {
    let acts = drive(
        BootstrapOs::Windows,
        vec![
            BootstrapEvent::ExeProbed(None),
            BootstrapEvent::StepDone(Ok(())),
            BootstrapEvent::ExeProbed(Some("C:\\S\\JLink_V930a".to_string())),
            BootstrapEvent::StepDone(Ok(())),
        ],
    );
    assert_eq!(
        acts,
        vec![
            BootstrapAction::ProbeExe,
            BootstrapAction::Extract,
            BootstrapAction::ProbeExe,
            BootstrapAction::ApplyEnv("C:\\S\\JLink_V930a".to_string()),
            BootstrapAction::Finish(Ok("C:\\S\\JLink_V930a".to_string())),
        ]
    );
}

#[test]
fn windows_missing_exe_after_extraction() {
    let acts = drive(
        BootstrapOs::Windows,
        vec![BootstrapEvent::ExeProbed(None), BootstrapEvent::StepDone(Ok(())), BootstrapEvent::ExeProbed(None)],
    );
    assert_eq!(acts.last(), Some(&BootstrapAction::FailMissingExe));
}
