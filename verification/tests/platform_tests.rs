use winusb_switcher_lite::platform::{
    config, find_jlink_in_search_dirs, ld_subdirs_for_arch, path_env_key, prepended_ld_library_path,
    prepended_process_path, segger_ld_library_path, JLinkLocation, SearchDirProbe, TargetOs,
};

fn strings(v: &[&str]) -> Vec<String> {
    v.iter().map(|s| s.to_string()).collect()
}

#[test]
fn config_per_os() {
    let w = config(TargetOs::Windows);
    assert_eq!((w.jlink_bin, w.jlink_executable), ("JLink", "JLink.exe"));
    let m = config(TargetOs::MacOs);
    assert_eq!((m.jlink_bin, m.jlink_executable), ("JLinkExe", "JLinkExe"));
    let l = config(TargetOs::Linux);
    assert_eq!((l.jlink_bin, l.jlink_executable), ("JLinkExe", "JLinkExe"));
}

#[test]
fn path_key_is_first_case_insensitive_match() {
    assert_eq!(path_env_key(&strings(&["HOME", "Path", "PATH"])), "Path");
    assert_eq!(path_env_key(&strings(&["HOME", "USER"])), "PATH");
    assert_eq!(path_env_key(&Vec::new()), "PATH");
    assert_eq!(path_env_key(&strings(&["PATHEXT", "path"])), "path");
}

#[test]
fn process_path_prepends_once() {
    let once = prepended_process_path("/usr/bin:/bin", "/opt/SEGGER", TargetOs::Linux);
    assert_eq!(once, Some("/opt/SEGGER:/usr/bin:/bin".to_string()));
    assert_eq!(prepended_process_path(&once.unwrap(), "/opt/SEGGER", TargetOs::Linux), None);
    assert_eq!(
        prepended_process_path("C:\\Windows", "C:\\S\\JLink", TargetOs::Windows),
        Some("C:\\S\\JLink;C:\\Windows".to_string())
    );
    assert_eq!(prepended_process_path("C:\\SEGGER\\JLINK;C:\\W", "c:\\segger\\jlink", TargetOs::Windows), None);
    assert_eq!(
        prepended_process_path("/opt/SEGGER/JLink_V930a", "/opt/SEGGER", TargetOs::Linux),
        Some("/opt/SEGGER:/opt/SEGGER/JLink_V930a".to_string())
    );
}

#[test]
fn process_path_compares_entries_not_text() {
    assert_eq!(
        prepended_process_path("/usr/bin:/OPT/SEGGER", "/opt/SEGGER", TargetOs::Linux),
        Some("/opt/SEGGER:/usr/bin:/OPT/SEGGER".to_string())
    );
    assert_eq!(prepended_process_path("/usr/bin:/opt/SEGGER:/bin", "/opt/SEGGER", TargetOs::Linux), None);
    assert_eq!(
        prepended_process_path("C:\\SEGGER\\JLink_V930a", "C:\\SEGGER", TargetOs::Windows),
        Some("C:\\SEGGER;C:\\SEGGER\\JLink_V930a".to_string())
    );
    assert_eq!(prepended_process_path("", "/opt/SEGGER", TargetOs::Linux), Some("/opt/SEGGER:".to_string()));
    let once = prepended_process_path("/usr/bin", "/opt/SEGGER", TargetOs::MacOs).unwrap();
    assert_eq!(prepended_process_path(&once, "/opt/SEGGER", TargetOs::MacOs), None);
}

#[test]
fn ld_path_prepends_unless_listed() {
    assert_eq!(prepended_ld_library_path("/a::/b", "/b"), None);
    assert_eq!(prepended_ld_library_path("/a", "/b"), Some("/b:/a".to_string()));
    assert_eq!(prepended_ld_library_path("", "/x"), Some("/x:".to_string()));
    assert_eq!(prepended_ld_library_path("/a", ""), Some(":/a".to_string()));
    assert_eq!(prepended_ld_library_path("/bb", "/b"), Some("/b:/bb".to_string()));
    let once = prepended_ld_library_path("/usr/lib", "/opt/SEGGER").unwrap();
    assert_eq!(prepended_ld_library_path(&once, "/opt/SEGGER"), None);
}

#[test]
fn ld_subdirs_native_first() {
    assert_eq!(ld_subdirs_for_arch("x86_64"), strings(&["x86_64", "amd64", "x86"]));
    assert_eq!(ld_subdirs_for_arch("aarch64"), strings(&["aarch64", "arm64"]));
    assert_eq!(ld_subdirs_for_arch("arm"), strings(&["x86_64", "amd64", "x86", "aarch64", "arm64"]));
}

#[test]
fn segger_ld_path_layout() {
    let p = segger_ld_library_path("/opt/SEGGER", "x86_64", &vec![true, false, true], "/usr/lib::/opt/SEGGER");
    assert_eq!(p, "/opt/SEGGER:/opt/SEGGER/x86_64:/opt/SEGGER/x86:/usr/lib");
    let again = segger_ld_library_path("/opt/SEGGER", "x86_64", &vec![true, false, true], &p);
    assert_eq!(again, p);
    assert_eq!(segger_ld_library_path("/d", "aarch64", &vec![false, false], ""), "/d");
    assert_eq!(segger_ld_library_path("/d", "aarch64", &vec![false, true], "/e:/d/arm64:/e"), "/d:/d/arm64:/e");
}

#[test]
fn search_dirs_first_match() {
    let probes = vec![
        SearchDirProbe { exists: false, entry_has_executable: vec![true], base_has_executable: true },
        SearchDirProbe { exists: true, entry_has_executable: vec![false, false], base_has_executable: false },
        SearchDirProbe { exists: true, entry_has_executable: vec![false, true, true], base_has_executable: true },
    ];
    assert_eq!(find_jlink_in_search_dirs(&probes), Some(JLinkLocation::Entry(2, 1)));
    let probes = vec![
        SearchDirProbe { exists: true, entry_has_executable: vec![false], base_has_executable: true },
    ];
    assert_eq!(find_jlink_in_search_dirs(&probes), Some(JLinkLocation::Base(0)));
    assert_eq!(find_jlink_in_search_dirs(&Vec::new()), None);
}
