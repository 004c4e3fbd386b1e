use aps::install::{DestState, InstallOptions};
use aps::orphan::{
    detect_orphaned_paths, is_aps_managed_directory, orphan_cleanup_action, orphan_removal, path_display,
    paths_overlap, CleanupAction, FsNode, OrphanedPath, Removal,
};

#[test]
fn test_paths_overlap_same_path() {
    let path = "/a/b/c";
    assert!(paths_overlap(path, path));
}

#[test]
fn test_paths_overlap_parent_child() {
    let parent = "/a/b";
    let child = "/a/b/c";
    assert!(paths_overlap(parent, child));
    assert!(paths_overlap(child, parent));
}

#[test]
fn test_paths_no_overlap() {
    assert!(!paths_overlap("/a/b", "/c/d"));
}

#[test]
fn overlap_is_by_component_not_text() {
    assert!(!paths_overlap("/a/b", "/a/bc"));
    assert!(paths_overlap("/a/b/", "/a/b"));
}

#[test]
fn test_is_aps_managed_directory_empty() {
    assert!(is_aps_managed_directory(&Some(Vec::new())));
}

#[test]
fn test_is_aps_managed_directory_with_regular_file() {
    assert!(!is_aps_managed_directory(&Some(vec![FsNode::File])));
}

#[test]
fn test_is_aps_managed_directory_with_symlinks() {
    assert!(is_aps_managed_directory(&Some(vec![FsNode::Symlink])));
}

#[test]
fn managed_directory_checks_nested_directories() {
    let nested_ok = FsNode::Dir(Some(vec![FsNode::Symlink, FsNode::Unknown]));
    assert!(is_aps_managed_directory(&Some(vec![FsNode::Symlink, nested_ok])));
    let nested_bad = FsNode::Dir(Some(vec![FsNode::Symlink, FsNode::File]));
    assert!(!is_aps_managed_directory(&Some(vec![nested_bad])));
    assert!(!is_aps_managed_directory(&None));
}

fn orphan(id: &str, old: &str, new: &str) -> OrphanedPath {
    OrphanedPath { entry_id: id.to_string(), old_dest: old.to_string(), new_dest: new.to_string() }
}

#[test]
fn orphans_need_a_changed_existing_non_overlapping_path() {
    let candidates = vec![
        orphan("a", "/p/old", "/p/new"),
        orphan("b", "/p/same", "/p/same"),
        orphan("c", "/p/gone", "/p/else"),
        orphan("d", "/p/x", "/p/x/y"),
    ];
    let probes = vec![
        ("/p/old".to_string(), "/p/new".to_string(), true),
        ("/p/same".to_string(), "/p/same".to_string(), true),
        ("/p/gone".to_string(), "/p/else".to_string(), false),
        ("/p/x".to_string(), "/p/x/y".to_string(), true),
    ];
    let found = detect_orphaned_paths(candidates, &probes);
    assert_eq!(found.len(), 1);
    assert_eq!(found[0].entry_id, "a");
}

fn shown(pieces: &[(String, bool)]) -> (String, Vec<String>) {
    let text: String = pieces.iter().map(|(t, _)| t.as_str()).collect();
    let marked = pieces.iter().filter(|(_, h)| *h).map(|(t, _)| t.clone()).collect();
    (text, marked)
}

#[test]
fn path_diff_highlights_changed_middle() {
    let (o, n) = path_display("/home/u/proj/.cursor/rules", "/home/u/proj/.agents/rules");
    assert_eq!(
        o,
        vec![
            ("/home/u/proj".to_string(), false),
            ("/".to_string(), false),
            (".cursor".to_string(), true),
            ("/".to_string(), false),
            ("rules".to_string(), false),
        ]
    );
    assert_eq!(shown(&n), ("/home/u/proj/.agents/rules".to_string(), vec![".agents".to_string()]));

    let (o, n) = path_display("a/b", "c/d");
    assert_eq!(o, vec![("a/b".to_string(), true)]);
    assert_eq!(n, vec![("c/d".to_string(), true)]);
}

#[test]
fn path_display_rebuilds_both_paths() {
    let (o, n) = path_display("/p/AGENTS.md", "/p/docs/AGENTS.md");
    assert_eq!(shown(&o), ("/p/AGENTS.md".to_string(), Vec::<String>::new()));
    assert_eq!(shown(&n), ("/p/docs/AGENTS.md".to_string(), vec!["docs".to_string()]));
    let (o, n) = path_display("/a/x", "/b/x");
    assert_eq!(shown(&o), ("/a/x".to_string(), vec!["a".to_string()]));
    assert_eq!(shown(&n), ("/b/x".to_string(), vec!["b".to_string()]));
}

#[test]
fn cleanup_actions() {
    let opts = InstallOptions { dry_run: false, yes: false, strict: false, upgrade: false };
    assert_eq!(orphan_cleanup_action(0, &opts, true), CleanupAction::Nothing);
    assert_eq!(orphan_cleanup_action(2, &opts, true), CleanupAction::Ask);
    assert_eq!(orphan_cleanup_action(2, &opts, false), CleanupAction::NeedConfirmation);
    let yes = InstallOptions { yes: true, ..opts };
    assert_eq!(orphan_cleanup_action(2, &yes, false), CleanupAction::Delete);
    let dry = InstallOptions { dry_run: true, yes: true, ..opts };
    assert_eq!(orphan_cleanup_action(2, &dry, true), CleanupAction::Report);
}

#[test]
fn removal_backs_up_real_content() {
    let state = |l: bool, f: bool, d: bool| DestState { exists: true, is_symlink: l, is_file: f, is_dir: d };
    assert_eq!(orphan_removal(state(true, false, false), false), Removal::Unlink);
    assert_eq!(orphan_removal(state(false, true, false), false), Removal::BackupFile);
    assert_eq!(orphan_removal(state(false, false, true), true), Removal::RemoveTree);
    assert_eq!(orphan_removal(state(false, false, true), false), Removal::BackupTree);
}
