use winusb_switcher_lite::error::AppError;
use winusb_switcher_lite::udev::{
    helper_start, helper_step, udev_start, udev_step, HelperAction, HelperEvent, UdevAction, UdevEvent,
    UdevState,
};

#[test]
fn udev_check_skips_identical_rules() {
    let (s, a) = udev_start(b"EMBEDDED", 42);
    assert_eq!(a, UdevAction::ReadTreeRules);
    let (s, a) = udev_step(s, UdevEvent::TreeRules(Some(b"TREE".to_vec())));
    assert_eq!(a, UdevAction::ReadInstalled);
    let (s, a) = udev_step(s, UdevEvent::Installed(Some(b"TREE".to_vec())));
    assert_eq!(a, UdevAction::Finish(Ok(())));
    assert_eq!(s, UdevState::Done);
}

#[test]
fn udev_check_installs_embedded_when_tree_has_none() {
    let (s, _) = udev_start(b"EMBEDDED", 42);
    let (s, _) = udev_step(s, UdevEvent::TreeRules(None));
    let (s, a) = udev_step(s, UdevEvent::Installed(Some(b"OLD".to_vec())));
    assert_eq!(a, UdevAction::Install(b"EMBEDDED".to_vec()));
    let (s, a) = udev_step(s, UdevEvent::StepDone(Ok(())));
    assert_eq!(a, UdevAction::Finish(Ok(())));
    assert_eq!(s, UdevState::Done);
}

#[test]
fn udev_check_elevates_after_permission_denied() {
    let (s, _) = udev_start(b"EMBEDDED", 42);
    let (s, _) = udev_step(s, UdevEvent::TreeRules(Some(b"TREE".to_vec())));
    let (s, a) = udev_step(s, UdevEvent::Installed(None));
    assert_eq!(a, UdevAction::Install(b"TREE".to_vec()));
    let denied = AppError::Io("Permission denied (os error 13)".to_string());
    let (s, a) = udev_step(s, UdevEvent::StepDone(Err(denied)));
    assert_eq!(a, UdevAction::WriteTemp("winusb-switcher-lite-udev-42.rules".to_string(), b"TREE".to_vec()));
    let (s, a) = udev_step(s, UdevEvent::StepDone(Ok(())));
    assert_eq!(a, UdevAction::Elevate);
    let failed = || AppError::Platform("pkexec failed".to_string());
    let (s, a) = udev_step(s, UdevEvent::StepDone(Err(failed())));
    assert_eq!(a, UdevAction::RemoveTemp);
    let (s, a) = udev_step(s, UdevEvent::StepDone(Ok(())));
    assert_eq!(a, UdevAction::Finish(Err(failed())));
    assert_eq!(s, UdevState::Done);
}

#[test]
fn udev_check_reports_other_install_errors() {
    let (s, _) = udev_start(b"E", 1);
    let (s, _) = udev_step(s, UdevEvent::TreeRules(None));
    let (s, _) = udev_step(s, UdevEvent::Installed(None));
    let other = || AppError::Io("No space left on device".to_string());
    let (_, a) = udev_step(s, UdevEvent::StepDone(Err(other())));
    assert_eq!(a, UdevAction::Finish(Err(other())));
}

#[test]
fn helper_extracts_fixes_and_installs() {
    let (s, a) = helper_start(b"EMBEDDED");
    assert_eq!(a, HelperAction::Extract);
    let (s, a) = helper_step(s, HelperEvent::StepDone(Ok(())));
    assert_eq!(a, HelperAction::PostExtractFixups);
    let (s, a) = helper_step(s, HelperEvent::StepDone(Err(AppError::Platform("chmod".to_string()))));
    assert_eq!(a, HelperAction::ReadTreeRules);
    let (s, a) = helper_step(s, HelperEvent::TreeRules(Some(b"TREE".to_vec())));
    assert_eq!(a, HelperAction::InstallRules(b"TREE".to_vec()));
    let (_, a) = helper_step(s, HelperEvent::StepDone(Ok(())));
    assert_eq!(a, HelperAction::Exit(0));
}

#[test]
fn helper_exits_one_when_extraction_fails() {
    let (s, _) = helper_start(b"EMBEDDED");
    let (_, a) = helper_step(s, HelperEvent::StepDone(Err(AppError::Io("disk".to_string()))));
    assert_eq!(a, HelperAction::Exit(1));
}

#[test]
fn helper_rules_satisfy_next_udev_check() {
    let (s, _) = helper_start(b"EMBEDDED");
    let (s, _) = helper_step(s, HelperEvent::StepDone(Ok(())));
    let (s, _) = helper_step(s, HelperEvent::StepDone(Ok(())));
    let (_, a) = helper_step(s, HelperEvent::TreeRules(None));
    let installed = match a {
        HelperAction::InstallRules(b) => b,
        other => panic!("unexpected {:?}", other),
    };
    let (s, _) = udev_start(b"EMBEDDED", 7);
    let (s, _) = udev_step(s, UdevEvent::TreeRules(None));
    let (_, a) = udev_step(s, UdevEvent::Installed(Some(installed)));
    assert_eq!(a, UdevAction::Finish(Ok(())));
}
