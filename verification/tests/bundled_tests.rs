use winusb_switcher_lite::bundled::{
    app_error_is_permission_denied, bundled_zip_candidates, bundled_zip_path, check_zip_header,
    desired_udev_rules, is_jlink_rules_file_name, linux_executable_paths, linux_install_root_str,
    linux_jlink_exe_candidates, linux_missing_exe_error, linux_post_extract_fixups,
    linux_resolve_jlink_exe, linux_segger_install_dirs, linux_udev_bases,
    linux_udev_rules_candidates, pick_first, pkexec_chmod_args, plan_zip_entry, symlink_target,
    udev_rules_need_install, udev_temp_file_name, windows_missing_exe_error, BundledArch,
    ChmodOutcome, ZipEntryPlan,
};
use winusb_switcher_lite::error::AppError;
use winusb_switcher_lite::paths::PathStyle;

fn strings(v: &[&str]) -> Vec<String> {
    v.iter().map(|s| s.to_string()).collect()
}

#[test]
fn arch_names_round_trip() {
    assert_eq!(BundledArch::from_rust_arch("x86_64"), Some(BundledArch::X86_64));
    assert_eq!(BundledArch::from_rust_arch("aarch64"), Some(BundledArch::Aarch64));
    assert_eq!(BundledArch::from_rust_arch("x86"), Some(BundledArch::X86));
    assert_eq!(BundledArch::from_rust_arch("arm"), Some(BundledArch::Arm));
    assert_eq!(BundledArch::from_rust_arch("riscv64"), None);
    assert_eq!(BundledArch::from_rust_arch("X86_64"), None);
    assert_eq!(BundledArch::X86_64.as_dir_name(), "x86_64");
    assert_eq!(BundledArch::Aarch64.as_dir_name(), "aarch64");
    assert_eq!(BundledArch::X86.as_dir_name(), "x86");
    assert_eq!(BundledArch::Arm.as_dir_name(), "arm");
}

#[test]
fn zip_candidates_for_linux_x86_64() {
    let c = bundled_zip_candidates("linux", BundledArch::X86_64);
    assert_eq!(c.len(), 2);
    assert_eq!(c[0], strings(&["resources", "jlink", "linux", "x86_64", "JLink_V930a.zip"]));
    assert_eq!(c[1], strings(&["jlink", "linux", "x86_64", "JLink_V930a.zip"]));
}

#[test]
fn zip_path_picks_first_file() {
    assert_eq!(bundled_zip_path(&vec![false, true], "/res"), Ok(1));
    assert_eq!(bundled_zip_path(&vec![true, true], "/res"), Ok(0));
    assert_eq!(
        bundled_zip_path(&vec![false, false], "/res"),
        Err(AppError::Internal("Bundled J-Link zip not found in resources (looked under /res)".to_string()))
    );
}

#[test]
fn header_detects_lfs_pointer() {
    let h = b"version https://git-lfs.github.com/spec/v1\noid sha256:abc\n";
    assert_eq!(
        check_zip_header(h, "/x.zip"),
        Err(AppError::Platform(
            "Bundled J-Link payload is missing (Git LFS pointer file detected).\nIf you cloned the repo, install Git LFS and run:\n\ngit lfs install\ngit lfs pull\n\nThen rebuild the app.".to_string()
        ))
    );
}

#[test]
fn header_checks_zip_magic() {
    assert_eq!(check_zip_header(b"PK\x03\x04rest", "/x.zip"), Ok(()));
    assert_eq!(
        check_zip_header(b"<html>", "/x.zip"),
        Err(AppError::Internal("Bundled J-Link zip is invalid or incomplete: /x.zip".to_string()))
    );
    assert_eq!(check_zip_header(b"P", "/x.zip"), Ok(()));
    assert_eq!(check_zip_header(b"", "/x.zip"), Ok(()));
    assert_eq!(check_zip_header(b"version https://git-lfs", "/x.zip").is_err(), true);
}

#[test]
fn plan_entries() {
    assert_eq!(
        plan_zip_entry(PathStyle::Unix, "JLink_V930a/", true, None),
        Ok(ZipEntryPlan::Directory(strings(&["JLink_V930a"])))
    );
    assert_eq!(
        plan_zip_entry(PathStyle::Unix, "JLink_V930a/libjlinkarm.so", false, Some(0o120777)),
        Ok(ZipEntryPlan::Symlink(strings(&["JLink_V930a", "libjlinkarm.so"])))
    );
    assert_eq!(
        plan_zip_entry(PathStyle::Windows, "JLink_V930a/libjlinkarm.so", false, Some(0o120777)),
        Ok(ZipEntryPlan::File(strings(&["JLink_V930a", "libjlinkarm.so"])))
    );
    assert_eq!(
        plan_zip_entry(PathStyle::Unix, "JLinkExe", false, Some(0o100755)),
        Ok(ZipEntryPlan::File(strings(&["JLinkExe"])))
    );
    assert_eq!(
        plan_zip_entry(PathStyle::Unix, "JLinkExe", false, None),
        Ok(ZipEntryPlan::File(strings(&["JLinkExe"])))
    );
    assert_eq!(
        plan_zip_entry(PathStyle::Unix, "../x", false, None),
        Err(AppError::Internal("Unsafe zip entry path: ../x".to_string()))
    );
}

#[test]
fn symlink_target_is_trimmed_text() {
    assert_eq!(symlink_target(b"  libjlinkarm.so.8\n"), "libjlinkarm.so.8");
    assert_eq!(symlink_target(b"a\xffb"), "a\u{fffd}b");
    assert_eq!(symlink_target(b""), "");
}

#[test]
fn linux_exe_layout() {
    let root = linux_install_root_str();
    assert_eq!(root, "/opt/SEGGER");
    assert_eq!(
        linux_jlink_exe_candidates(root),
        strings(&["/opt/SEGGER/JLinkExe", "/opt/SEGGER/JLink_V930a/JLinkExe"])
    );
    assert_eq!(
        linux_resolve_jlink_exe(root, &vec![false, true]),
        Some(("/opt/SEGGER/JLink_V930a/JLinkExe".to_string(), "/opt/SEGGER/JLink_V930a".to_string()))
    );
    assert_eq!(
        linux_resolve_jlink_exe(root, &vec![true, true]),
        Some(("/opt/SEGGER/JLinkExe".to_string(), "/opt/SEGGER".to_string()))
    );
    assert_eq!(linux_resolve_jlink_exe(root, &vec![false, false]), None);
    assert_eq!(
        linux_missing_exe_error(root),
        AppError::Internal(
            "Bundled J-Link extracted under /opt/SEGGER, but JLinkExe not found (expected /opt/SEGGER/JLinkExe or /opt/SEGGER/JLink_V930a/JLinkExe)".to_string()
        )
    );
}

#[test]
fn windows_missing_exe_message() {
    assert_eq!(
        windows_missing_exe_error("C:\\S\\JLink.exe"),
        AppError::Internal("Bundled J-Link extracted, but JLink.exe not found at C:\\S\\JLink.exe".to_string())
    );
}

#[test]
fn install_dirs_and_executables() {
    assert_eq!(linux_segger_install_dirs("/opt/SEGGER", false), strings(&["/opt/SEGGER"]));
    let dirs = linux_segger_install_dirs("/opt/SEGGER", true);
    assert_eq!(dirs, strings(&["/opt/SEGGER", "/opt/SEGGER/JLink_V930a"]));
    let exes = linux_executable_paths(&dirs);
    assert_eq!(exes.len(), 16);
    assert_eq!(exes[0], "/opt/SEGGER/JLinkExe");
    assert_eq!(exes[7], "/opt/SEGGER/JLinkRegistrationExe");
    assert_eq!(exes[8], "/opt/SEGGER/JLink_V930a/JLinkExe");
    assert_eq!(exes[13], "/opt/SEGGER/JLink_V930a/JFlashLiteExe");
}

#[test]
fn fixups_batch_failed_paths() {
    let paths = strings(&["/a", "/b", "/c", "/d"]);
    let outcomes = vec![ChmodOutcome::Failed, ChmodOutcome::Done, ChmodOutcome::NotAFile, ChmodOutcome::Failed];
    let failed = linux_post_extract_fixups(&paths, &outcomes);
    assert_eq!(failed, strings(&["/a", "/d"]));
    assert_eq!(pkexec_chmod_args(&failed), Some(strings(&["chmod", "+x", "/a", "/d"])));
    assert_eq!(pkexec_chmod_args(&Vec::new()), None);
    assert_eq!(
        linux_post_extract_fixups(&strings(&["/x"]), &vec![ChmodOutcome::Done]),
        Vec::<String>::new()
    );
}

#[test]
fn udev_rule_places_in_order() {
    let c = linux_udev_rules_candidates("/opt/SEGGER");
    assert_eq!(c.len(), 12);
    assert_eq!(c[0], "/opt/SEGGER/JLink_V930a/99-jlink.rules");
    assert_eq!(c[1], "/opt/SEGGER/JLink_V930a/ETC/udev/rules.d/99-jlink.rules");
    assert_eq!(c[2], "/opt/SEGGER/JLink_V930a/etc/udev/rules.d/99-jlink.rules");
    assert_eq!(c[3], "/opt/SEGGER/99-jlink.rules");
    assert_eq!(c[5], "/opt/SEGGER/etc/udev/rules.d/99-jlink.rules");
    assert_eq!(c[6], "/opt/SEGGER/JLink_V930a/70-jlink.rules");
    assert_eq!(c[11], "/opt/SEGGER/etc/udev/rules.d/70-jlink.rules");
    assert_eq!(linux_udev_bases("/opt/SEGGER"), strings(&["/opt/SEGGER/JLink_V930a", "/opt/SEGGER"]));
    assert_eq!(pick_first(&vec![false, false, true, true]), Some(2));
    assert_eq!(pick_first(&vec![]), None);
}

#[test]
fn rules_file_names() {
    assert!(is_jlink_rules_file_name("99-jlink.rules"));
    assert!(is_jlink_rules_file_name("99-JLink.RULES"));
    assert!(is_jlink_rules_file_name("segger_jlink_udev.rules"));
    assert!(!is_jlink_rules_file_name("jlink.rules.bak"));
    assert!(!is_jlink_rules_file_name("99-segger.rules"));
    assert!(is_jlink_rules_file_name("99-JLIN\u{212A}.rules"));
}

#[test]
fn desired_rules_prefer_tree_copy() {
    let embedded = b"EMBEDDED".to_vec();
    assert_eq!(desired_udev_rules(Some(b"TREE".to_vec()), &embedded), b"TREE".to_vec());
    assert_eq!(desired_udev_rules(Some(Vec::new()), &embedded), embedded);
    assert_eq!(desired_udev_rules(None, &embedded), embedded);
}

#[test]
fn rules_install_needed_unless_identical() {
    assert!(!udev_rules_need_install(Some(b"same".to_vec()), b"same"));
    assert!(udev_rules_need_install(Some(b"old".to_vec()), b"new"));
    assert!(udev_rules_need_install(None, b"new"));
    assert!(udev_rules_need_install(Some(Vec::new()), b"x"));
}

#[test]
fn permission_denied_errors() {
    assert!(app_error_is_permission_denied(&AppError::Io("Permission denied (os error 13)".to_string())));
    assert!(app_error_is_permission_denied(&AppError::Platform("failed: os error 13".to_string())));
    assert!(app_error_is_permission_denied(&AppError::Internal("Permission denied".to_string())));
    assert!(!app_error_is_permission_denied(&AppError::Io("No such file".to_string())));
    assert!(!app_error_is_permission_denied(&AppError::JLinkFailed("Permission denied".to_string())));
    assert!(!app_error_is_permission_denied(&AppError::JLinkNotFound("os error 13".to_string())));
}

#[test]
fn temp_rules_file_name() {
    assert_eq!(udev_temp_file_name(4242), "winusb-switcher-lite-udev-4242.rules");
    assert_eq!(udev_temp_file_name(0), "winusb-switcher-lite-udev-0.rules");
}
