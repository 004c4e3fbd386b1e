use aps::install::{
    asset_install_plan, conflict_action, executable_mode, filter_by_prefix, hooks_config_paths, is_hook_conflict,
    is_shell_script, locked_commit_plan, merge_step, normalize_path, should_check_conflict, upgrade_available,
    validate_skills_root, AssetPlan, ConflictAction, DestState, InstallOptions, MergeStep,
};
use aps::lockfile::LockedEntry;
use aps::manifest::AssetKind;

fn opts(dry_run: bool, yes: bool, upgrade: bool) -> InstallOptions {
    InstallOptions { dry_run, yes, strict: false, upgrade }
}

#[test]
fn normalize_trailing_separators() {
    assert_eq!(normalize_path("/a/b//"), "/a/b");
    assert_eq!(normalize_path("/"), ".");
    assert_eq!(normalize_path("a\\"), "a");
}

#[test]
fn conflict_checks_by_kind() {
    assert!(should_check_conflict(AssetKind::AgentsMd, true));
    assert!(!should_check_conflict(AssetKind::CursorRules, true));
    assert!(should_check_conflict(AssetKind::CursorRules, false));
}

#[test]
fn hooks_config_next_to_hooks_dirs() {
    let p = hooks_config_paths(AssetKind::CursorHooks, "/src/.cursor/hooks", "/dst/.cursor/hooks").unwrap();
    assert_eq!(p, Some(("/src/.cursor/hooks.json".to_string(), "/dst/.cursor/hooks.json".to_string())));
    assert_eq!(hooks_config_paths(AssetKind::CursorRules, "/a", "/b").unwrap(), None);
    assert!(hooks_config_paths(AssetKind::CursorHooks, "/", "/b").is_err());
}

#[test]
fn skills_root_validation() {
    let children = vec![
        ("a".to_string(), true, true),
        ("b".to_string(), true, false),
        ("file.txt".to_string(), false, false),
    ];
    assert_eq!(validate_skills_root(&children, false).unwrap(), vec!["Skill 'b' is missing SKILL.md".to_string()]);
    match validate_skills_root(&children, true) {
        Err(aps::error::ApsError::MissingSkillMd { skill_name }) => assert_eq!(skill_name, "b"),
        _ => panic!("missing SKILL.md expected"),
    }
    assert_eq!(
        aps::install::validate_skills_for_validate(&children, "e1", false).unwrap(),
        vec!["Skill 'b' in entry 'e1' is missing SKILL.md".to_string()]
    );
}

#[test]
fn prefix_filter_sorted() {
    let names = vec!["rule2".to_string(), "x".to_string(), "rule1".to_string(), "skill-a".to_string()];
    let prefixes = vec!["rule".to_string(), "skill".to_string()];
    assert_eq!(filter_by_prefix(names, &prefixes), vec!["rule1", "rule2", "skill-a"]);
}

#[test]
fn install_plans() {
    assert_eq!(asset_install_plan(AssetKind::AgentsMd, true, false).unwrap(), AssetPlan::SymlinkFile);
    assert_eq!(asset_install_plan(AssetKind::CursorHooks, false, false).unwrap(), AssetPlan::MergeTree);
    assert_eq!(asset_install_plan(AssetKind::CursorRules, false, true).unwrap(), AssetPlan::CopySelected);
    assert_eq!(asset_install_plan(AssetKind::AgentSkill, true, true).unwrap(), AssetPlan::SymlinkSelected);
    assert!(asset_install_plan(AssetKind::CompositeAgentsMd, false, false).is_err());
}

#[test]
fn merge_and_conflict_decisions() {
    let d = |e: bool, l: bool, f: bool, dir: bool| DestState { exists: e, is_symlink: l, is_file: f, is_dir: dir };
    assert_eq!(merge_step(true, d(true, false, true, false)), MergeStep::RemoveFile);
    assert_eq!(merge_step(false, d(true, false, false, true)), MergeStep::RemoveTree);
    assert_eq!(merge_step(false, d(false, false, false, false)), MergeStep::Keep);
    assert!(is_hook_conflict(false, d(true, false, true, false)));
    assert!(!is_hook_conflict(false, d(true, true, true, false)));
    assert!(!is_hook_conflict(true, d(true, false, false, true)));
}

#[test]
fn shell_scripts_made_executable() {
    assert!(is_shell_script("run.sh"));
    assert!(!is_shell_script(".sh"));
    assert!(!is_shell_script("run.shx"));
    assert_eq!(executable_mode(0o644), 0o755);
    assert_eq!(executable_mode(0), 0o111);
    assert_eq!(executable_mode(0o755), 0o755);
}

#[test]
fn conflict_actions() {
    assert_eq!(conflict_action(&opts(true, true, false), true), ConflictAction::Report);
    assert_eq!(conflict_action(&opts(false, true, false), false), ConflictAction::Overwrite);
    assert_eq!(conflict_action(&opts(false, false, false), true), ConflictAction::Ask);
    assert_eq!(conflict_action(&opts(false, false, false), false), ConflictAction::RequireYes);
}

#[test]
fn locked_commit_respected_unless_upgrading() {
    let e = LockedEntry::new_git("r", "d", "main".to_string(), "abc".to_string(), "c".to_string());
    assert_eq!(locked_commit_plan(&opts(false, false, false), Some(&e)), Some(("abc".to_string(), "main".to_string())));
    assert_eq!(locked_commit_plan(&opts(false, false, true), Some(&e)), None);
    assert_eq!(locked_commit_plan(&opts(false, false, false), None), None);
    let u = upgrade_available("abc", Some("def")).unwrap();
    assert_eq!(u.available_commit, "def");
    assert!(upgrade_available("abc", Some("abc")).is_none());
}
