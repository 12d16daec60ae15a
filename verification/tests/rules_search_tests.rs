use winusb_switcher_lite::rules_search::{rules_search_start, rules_search_step, SearchAction, SearchEvent, TreeEntry};

fn entry(path: &str, name: &str, is_file: bool, is_dir: bool) -> TreeEntry {
    TreeEntry { path: path.to_string(), name: name.to_string(), is_file, is_dir }
}

#[test]
fn search_descends_before_next_entry() {
    let bases = vec!["/opt/SEGGER/JLink_V930a".to_string(), "/opt/SEGGER".to_string()];
    let (s, a) = rules_search_start(bases);
    assert_eq!(a, SearchAction::Advance);
    let (s, a) = rules_search_step(s, SearchEvent::Next);
    assert_eq!(a, SearchAction::ListDir("/opt/SEGGER/JLink_V930a".to_string()));
    let listing = vec![
        entry("/opt/SEGGER/JLink_V930a/Doc", "Doc", false, true),
        entry("/opt/SEGGER/JLink_V930a/99-JLink.rules", "99-JLink.rules", true, false),
    ];
    let (s, a) = rules_search_step(s, SearchEvent::Listing(Some(listing)));
    assert_eq!(a, SearchAction::Advance);
    let (s, a) = rules_search_step(s, SearchEvent::Next);
    assert_eq!(a, SearchAction::ListDir("/opt/SEGGER/JLink_V930a/Doc".to_string()));
    let (s, a) = rules_search_step(s, SearchEvent::Listing(Some(vec![entry("/opt/SEGGER/JLink_V930a/Doc/a.txt", "a.txt", true, false)])));
    assert_eq!(a, SearchAction::Advance);
    let (s, a) = rules_search_step(s, SearchEvent::Next);
    assert_eq!(a, SearchAction::Advance);
    let (s, a) = rules_search_step(s, SearchEvent::Next);
    assert_eq!(a, SearchAction::Advance);
    let (s, a) = rules_search_step(s, SearchEvent::Next);
    assert_eq!(a, SearchAction::Found("/opt/SEGGER/JLink_V930a/99-JLink.rules".to_string()));
    assert_eq!(s.done, true);
}

#[test]
fn search_ends_not_found_after_all_bases() {
    let (s, _) = rules_search_start(vec!["/nowhere".to_string()]);
    let (s, a) = rules_search_step(s, SearchEvent::Next);
    assert_eq!(a, SearchAction::ListDir("/nowhere".to_string()));
    let (s, a) = rules_search_step(s, SearchEvent::Listing(None));
    assert_eq!(a, SearchAction::Advance);
    let (s, a) = rules_search_step(s, SearchEvent::Next);
    assert_eq!(a, SearchAction::Advance);
    let (s, a) = rules_search_step(s, SearchEvent::Next);
    assert_eq!(a, SearchAction::NotFound);
    assert_eq!(s.done, true);
}

#[test]
fn search_ignores_directories_named_like_rules() {
    let (s, _) = rules_search_start(vec!["/b".to_string()]);
    let (s, _) = rules_search_step(s, SearchEvent::Next);
    let listing = vec![entry("/b/jlink.rules", "jlink.rules", false, false), entry("/b/x.RULES", "JLINK-x.RULES", true, false)];
    let (s, _) = rules_search_step(s, SearchEvent::Listing(Some(listing)));
    let (s, a) = rules_search_step(s, SearchEvent::Next);
    assert_eq!(a, SearchAction::Advance);
    let (_, a) = rules_search_step(s, SearchEvent::Next);
    assert_eq!(a, SearchAction::Found("/b/x.RULES".to_string()));
}

/// Runs the search over an in-memory tree: `dirs` maps a directory to its entries.
fn run_over(dirs: &std::collections::HashMap<String, Vec<(String, bool)>>, bases: &[&str]) -> SearchAction {
    let (mut s, mut a) = rules_search_start(bases.iter().map(|b| b.to_string()).collect());
    loop {
        let ev = match &a {
            SearchAction::Advance => SearchEvent::Next,
            SearchAction::ListDir(d) => SearchEvent::Listing(dirs.get(d).map(|es| {
                es.iter()
                    .map(|(name, is_dir)| entry(&format!("{}/{}", d, name), name, !is_dir, *is_dir))
                    .collect()
            })),
            _ => return a,
        };
        let (s2, a2) = rules_search_step(s, ev);
        s = s2;
        a = a2;
    }
}

/// A chain of `levels` nested directories under `/b`, the last holding `99-jlink.rules`.
fn chain(levels: usize) -> std::collections::HashMap<String, Vec<(String, bool)>> {
    let mut dirs = std::collections::HashMap::new();
    let mut d = "/b".to_string();
    for _ in 0..levels {
        dirs.insert(d.clone(), vec![("sub".to_string(), true)]);
        d = format!("{}/sub", d);
    }
    dirs.insert(d, vec![("99-jlink.rules".to_string(), false)]);
    dirs
}

#[test]
fn search_reaches_exactly_twelve_levels() {
    let found = run_over(&chain(11), &["/a", "/b"]);
    assert_eq!(found, SearchAction::Found(format!("/b{}/99-jlink.rules", "/sub".repeat(11))));
    assert_eq!(run_over(&chain(12), &["/a", "/b"]), SearchAction::NotFound);
    assert_eq!(run_over(&chain(3), &["/a"]), SearchAction::NotFound);
}
