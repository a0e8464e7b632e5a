//! Module names, globs and `exclude` patterns.

use tinys::modules::{glob_match, is_excluded, module_name};

#[test]
fn module_names_become_identifiers() {
    assert_eq!(module_name("models"), "models");
    assert_eq!(module_name("my-mod"), "my_mod");
    assert_eq!(module_name("2fast"), "_2fast");
}

#[test]
fn globs_stop_at_path_separators() {
    assert!(glob_match("wip.sn", "wip.sn"));
    assert!(glob_match("*.sn", "models.sn"));
    assert!(!glob_match("*.sn", "services/models.sn"));
    assert!(glob_match("scratch/*.sn", "scratch/a.sn"));
    assert!(glob_match("*_wip.sn", "draft_wip.sn"));
    assert!(!glob_match("*_wip.sn", "draft.sn"));
}

#[test]
fn excluding_a_directory_excludes_its_contents() {
    let exclude = vec!["scratch".to_string()];
    assert!(is_excluded("scratch", &exclude));
    assert!(is_excluded("scratch/a.sn", &exclude));
    assert!(is_excluded("scratch/deep/b.sn", &exclude));
    assert!(!is_excluded("scratchpad.sn", &exclude));
}

#[test]
fn more_patterns_never_bring_a_path_back() {
    let few = vec!["gen".to_string()];
    let more = vec!["gen".to_string(), "*_wip.sn".to_string(), "docs".to_string()];
    assert!(is_excluded("gen/out.sn", &few));
    assert!(is_excluded("gen/out.sn", &more));
    assert!(!is_excluded("a_wip.sn", &few));
    assert!(is_excluded("a_wip.sn", &more));
}
