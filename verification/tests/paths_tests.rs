use winusb_switcher_lite::paths::{join_unix, zip_entry_components, PathStyle};

fn comps(v: &[&str]) -> Option<Vec<String>> {
    Some(v.iter().map(|s| s.to_string()).collect())
}

#[test]
fn entry_components_plain_names() {
    assert_eq!(zip_entry_components(PathStyle::Unix, "JLink_V930a/JLinkExe"), comps(&["JLink_V930a", "JLinkExe"]));
    assert_eq!(zip_entry_components(PathStyle::Unix, "a/./b//c/"), comps(&["a", "b", "c"]));
    assert_eq!(zip_entry_components(PathStyle::Unix, "./x"), comps(&["x"]));
    assert_eq!(zip_entry_components(PathStyle::Unix, "."), comps(&[]));
    assert_eq!(zip_entry_components(PathStyle::Unix, ""), comps(&[]));
    assert_eq!(zip_entry_components(PathStyle::Unix, "..."), comps(&["..."]));
}

#[test]
fn entry_components_refuse_traversal() {
    assert_eq!(zip_entry_components(PathStyle::Unix, "../evil"), None);
    assert_eq!(zip_entry_components(PathStyle::Unix, "a/b/../../../x"), None);
    assert_eq!(zip_entry_components(PathStyle::Unix, "a/.."), None);
    assert_eq!(zip_entry_components(PathStyle::Windows, "a\\..\\b"), None);
}

#[test]
fn entry_components_refuse_roots_and_prefixes() {
    assert_eq!(zip_entry_components(PathStyle::Unix, "/etc/passwd"), None);
    assert_eq!(zip_entry_components(PathStyle::Windows, "/etc/passwd"), None);
    assert_eq!(zip_entry_components(PathStyle::Windows, "\\Windows\\x"), None);
    assert_eq!(zip_entry_components(PathStyle::Windows, "C:\\x"), None);
    assert_eq!(zip_entry_components(PathStyle::Windows, "c:x"), None);
}

#[test]
fn entry_components_backslash_is_a_name_on_unix() {
    assert_eq!(zip_entry_components(PathStyle::Unix, "a\\..\\b"), comps(&["a\\..\\b"]));
    assert_eq!(zip_entry_components(PathStyle::Unix, "C:foo"), comps(&["C:foo"]));
    assert_eq!(zip_entry_components(PathStyle::Windows, "a\\b/c"), comps(&["a", "b", "c"]));
}

#[test]
fn join_unix_adds_one_separator() {
    assert_eq!(join_unix("/opt/SEGGER", "JLinkExe"), "/opt/SEGGER/JLinkExe");
    assert_eq!(join_unix("/opt/SEGGER/", "JLinkExe"), "/opt/SEGGER/JLinkExe");
    assert_eq!(join_unix("", "JLinkExe"), "JLinkExe");
    assert_eq!(join_unix("/", "opt"), "/opt");
}
