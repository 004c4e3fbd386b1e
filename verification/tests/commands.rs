use aps::cli::{resolve_asset_kind, AddAssetKind};
use aps::commands::{
    check_duplicate_id, discovered_entries, format_kind_label, format_source_short, gitignore_addition,
    is_local_path, list_dest_display, merge_new_entries, parse_add_target, plan_discovery, remove_manifest_entries, require_skills_found, validate_plan, validate_summary, FollowUp, ValidatePlan,
    select_sync_entries, single_skill_id, skill_dest, skill_entry, skill_source, sync_hint, synced_count,
    ParsedAddTarget, SkillOrigin,
};
use aps::discover::DiscoveredSkill;
use aps::error::ApsError;
use aps::lockfile::{LockedEntry, Lockfile};
use aps::manifest::{AssetKind, Entry, Manifest, Source};

fn fs_entry(id: &str) -> Entry {
    Entry {
        id: id.to_string(),
        kind: AssetKind::AgentSkill,
        source: Some(Source::Filesystem { root: ".".to_string(), symlink: true, path: None }),
        sources: Vec::new(),
        dest: Some(format!("\x2eclaude/skills/{}/", id)),
        include_prefixes: Vec::new(),
    }
}

fn skill(name: &str, path: &str) -> DiscoveredSkill {
    DiscoveredSkill { name: name.to_string(), repo_path: path.to_string(), description: None }
}

#[test]
fn local_path_detection() {
    assert!(is_local_path("./skills", false));
    assert!(is_local_path("~", false));
    assert!(is_local_path("$HOME/x", false));
    assert!(!is_local_path("https://github.com/o/r", true));
    assert!(is_local_path("my-skills", true));
    assert!(!is_local_path("my-skills", false));
}

#[test]
fn add_targets() {
    match parse_add_target("/abs/my-skill", false, true, "/cwd", true).unwrap() {
        ParsedAddTarget::FilesystemSkill { original_path, skill_name } => {
            assert_eq!(original_path, "/abs/my-skill");
            assert_eq!(skill_name, "my-skill");
        }
        _ => panic!("single skill expected"),
    }
    match parse_add_target("/abs/my-skill", true, true, "/cwd", true).unwrap() {
        ParsedAddTarget::FilesystemDiscovery { original_path } => assert_eq!(original_path, "/abs/my-skill"),
        _ => panic!("discovery expected"),
    }
    match parse_add_target("nothing-here", false, false, "/cwd", false) {
        Err(aps::error::ApsError::InvalidInput { message }) => assert_eq!(
            message,
            "Path 'nothing-here' does not exist; provide an existing local path or a valid URL"
        ),
        _ => panic!("invalid input expected"),
    }
    match parse_add_target("https://github.com/o/r/tree/main/skills/x", false, false, "/cwd", false).unwrap() {
        ParsedAddTarget::GitHubSkill { repo_url, git_ref, skill_path, skill_name } => {
            assert_eq!(repo_url, "https://github.com/o/r.git");
            assert_eq!(git_ref, "main");
            assert_eq!(skill_path, "skills/x");
            assert_eq!(skill_name, Some("x".to_string()));
        }
        _ => panic!("git skill expected"),
    }
    match parse_add_target("https://github.com/o/r", false, false, "/cwd", false).unwrap() {
        ParsedAddTarget::GitHubDiscovery { search_path, git_ref, .. } => {
            assert_eq!(search_path, "");
            assert_eq!(git_ref, "auto");
        }
        _ => panic!("git discovery expected"),
    }
    assert!(parse_add_target("https://gitlab.com/o/r", false, false, "/cwd", false).is_err());
}

#[test]
fn gitignore_entry_added_once() {
    let add = gitignore_addition("target/").unwrap();
    assert_eq!(add, "\n\n# APS (Agentic Prompt Sync)\n.aps-backups/\n");
    assert_eq!(gitignore_addition("").unwrap(), "\n# APS (Agentic Prompt Sync)\n.aps-backups/\n");
    let after = format!("target/{}", add);
    assert_eq!(gitignore_addition(&after), None);
    assert_eq!(gitignore_addition("  .aps-backups/  \n"), None);
}

#[test]
fn skill_destinations() {
    assert_eq!(skill_dest(AssetKind::AgentSkill, "x"), "\x2eclaude/skills/x/");
    assert_eq!(skill_dest(AssetKind::AgentsMd, "x"), "AGENTS.md/x/");
    assert_eq!(resolve_asset_kind(AddAssetKind::CursorSkillsRoot), AssetKind::CursorSkillsRoot);
    let e = skill_entry("x".to_string(), AssetKind::AgentSkill, skill_source(&SkillOrigin::Filesystem { root: "~/s".to_string() }, None));
    assert_eq!(e.dest, Some("\x2eclaude/skills/x/".to_string()));
    assert_eq!(single_skill_id(None, None), "unnamed-skill");
    assert_eq!(single_skill_id(Some("c".into()), Some("n".into())), "c");
}

#[test]
fn merging_skips_existing_ids() {
    let mut m = Manifest { entries: vec![fs_entry("a")] };
    let (added, skipped) = merge_new_entries(&mut m, vec![fs_entry("b"), fs_entry("a"), fs_entry("b")]);
    assert_eq!(added, vec!["b".to_string()]);
    assert_eq!(skipped, vec!["a".to_string(), "b".to_string()]);
    assert_eq!(m.entries.len(), 2);
    assert!(check_duplicate_id(Some(&m), "a").is_err());
    assert!(check_duplicate_id(Some(&m), "z").is_ok());
    assert!(check_duplicate_id(None, "a").is_ok());
}

#[test]
fn removing_entries_returns_destinations() {
    let mut m = Manifest { entries: vec![fs_entry("a"), fs_entry("b"), fs_entry("c")] };
    let dests = remove_manifest_entries(&mut m, &vec!["c".to_string(), "a".to_string()]);
    assert_eq!(dests, vec![Some("\x2eclaude/skills/a/".to_string()), Some("\x2eclaude/skills/c/".to_string())]);
    assert_eq!(m.entries.len(), 1);
    assert_eq!(m.entries[0].id, "b");
}

#[test]
fn discovery_plan_and_ids() {
    let skills = vec![skill("x", "a/x"), skill("y", "b/y"), skill("x", "c/x"), skill("z", "z")];
    let existing = vec!["z".to_string(), "y".to_string(), "other".to_string()];
    let plan = plan_discovery(&skills, &existing, &vec![0, 2, 3]);
    assert_eq!(plan.to_add, vec![0, 2]);
    assert_eq!(plan.unchanged, vec!["z".to_string()]);
    assert_eq!(plan.to_remove, vec!["y".to_string()]);
    let origin = SkillOrigin::Git { repo: "https://x/r.git".to_string(), git_ref: "main".to_string() };
    let entries = discovered_entries(AssetKind::AgentSkill, &skills, &plan.to_add, &origin);
    assert_eq!(entries[0].id, "a-x");
    assert_eq!(entries[1].id, "c-x");
    assert_eq!(entries[1].dest, Some("\x2eclaude/skills/c-x/".to_string()));
    match &entries[0].source {
        Some(Source::Git { path, shallow, .. }) => {
            assert_eq!(path, &Some("a/x".to_string()));
            assert!(*shallow);
        }
        _ => panic!("git source expected"),
    }
}

#[test]
fn sync_selection() {
    let m = Manifest { entries: vec![fs_entry("a"), fs_entry("b"), fs_entry("c")] };
    assert_eq!(select_sync_entries(&m, &vec![]).unwrap(), vec![0, 1, 2]);
    assert_eq!(select_sync_entries(&m, &vec!["c".to_string(), "a".to_string()]).unwrap(), vec![0, 2]);
    match select_sync_entries(&m, &vec!["a".to_string(), "nope".to_string()]) {
        Err(aps::error::ApsError::EntryNotFound { id }) => assert_eq!(id, "nope"),
        _ => panic!("entry not found expected"),
    }
}

#[test]
fn listing_text() {
    assert_eq!(format_kind_label(AssetKind::CursorHooks), "cursor_hooks");
    let g = Source::Git {
        repo: "https://github.com/owner/repo.git".to_string(),
        git_ref: "v1".to_string(),
        shallow: true,
        path: Some("skills/a".to_string()),
    };
    assert_eq!(format_source_short(&g), "git: owner/repo @ v1 → skills/a");
    let fs = Source::Filesystem { root: "~/s".to_string(), symlink: true, path: Some("a".to_string()) };
    assert_eq!(format_source_short(&fs), "fs: ~/s/a (symlink)");
    assert_eq!(list_dest_display("AGENTS.md"), "./AGENTS.md");
    assert_eq!(list_dest_display("/abs"), "/abs");
    assert_eq!(sync_hint(1), "Run `aps sync` to install the skill.");
    assert_eq!(sync_hint(2), "Run `aps sync` to install the skills.");
}

#[test]
fn synced_counts_lockfile_entries() {
    let m = Manifest { entries: vec![fs_entry("a"), fs_entry("b")] };
    let mut l = Lockfile::new();
    l.upsert("b".to_string(), LockedEntry::new_filesystem("s", "d", "c".to_string(), false, None, vec![]));
    assert_eq!(synced_count(&m, &l), 1);
}

#[test]
fn tree_branches() {
    assert_eq!(aps::commands::tree_connector(0, 2), "├── ");
    assert_eq!(aps::commands::tree_connector(1, 2), "└── ");
}

#[test]
fn skill_selection() {
    assert_eq!(aps::commands::select_skills(3, true, Vec::new()).unwrap(), vec![0, 1, 2]);
    assert_eq!(aps::commands::select_skills(3, false, vec![2]).unwrap(), vec![2]);
    assert!(matches!(
        aps::commands::select_skills(3, false, Vec::new()),
        Err(aps::error::ApsError::NoSkillsSelected)
    ));
}

fn locked(checksum: &str) -> LockedEntry {
    LockedEntry::new_filesystem("filesystem:.", "d", checksum.to_string(), false, None, Vec::new())
}

fn installed(id: &str, checksum: &str) -> aps::install::InstallResult {
    let options = aps::install::InstallOptions { dry_run: false, yes: true, strict: false, upgrade: false };
    aps::install::InstallResult::done(id, &options, locked(checksum), Vec::new(), "/p/d".to_string(), false)
}

#[test]
fn full_sync_records_results_and_drops_stale_entries() {
    let m = Manifest { entries: vec![fs_entry("a"), fs_entry("b")] };
    let mut l = Lockfile::new();
    l.upsert("a".to_string(), locked("old-a"));
    l.upsert("gone".to_string(), locked("old-gone"));
    let removed = aps::commands::record_results(&mut l, vec![installed("a", "new-a"), installed("b", "new-b")], &m, true);
    assert_eq!(removed, vec!["gone".to_string()]);
    assert!(l.checksum_matches("a", "new-a"));
    assert!(l.checksum_matches("b", "new-b"));
    assert!(!l.entries.contains_key("gone"));
}

#[test]
fn only_sync_keeps_other_entries() {
    let m = Manifest { entries: vec![fs_entry("a"), fs_entry("b")] };
    let mut l = Lockfile::new();
    l.upsert("b".to_string(), locked("old-b"));
    l.upsert("gone".to_string(), locked("old-gone"));
    let removed = aps::commands::record_results(&mut l, vec![installed("a", "new-a")], &m, false);
    assert!(removed.is_empty());
    assert!(l.checksum_matches("a", "new-a"));
    assert!(l.checksum_matches("b", "old-b"));
    assert!(l.checksum_matches("gone", "old-gone"));
}

#[test]
fn empty_discovery_is_an_error() {
    match require_skills_found(&Vec::new(), "owner/repo") {
        Err(ApsError::NoSkillsFound { location }) => assert_eq!(location, "owner/repo"),
        other => panic!("unexpected {:?}", other),
    }
    assert!(require_skills_found(&vec![skill("a", "skills/a")], "owner/repo").is_ok());
}

#[test]
fn validate_checks_by_entry_kind() {
    let mut e = fs_entry("skills");
    assert_eq!(validate_plan(&e), ValidatePlan::OneSource(FollowUp::Nothing));
    e.kind = AssetKind::CursorSkillsRoot;
    assert_eq!(validate_plan(&e), ValidatePlan::OneSource(FollowUp::SkillFolders));
    e.kind = AssetKind::CursorHooks;
    assert_eq!(validate_plan(&e), ValidatePlan::OneSource(FollowUp::Hooks));
    e.source = None;
    assert_eq!(validate_plan(&e), ValidatePlan::NoSource);
    e.kind = AssetKind::CompositeAgentsMd;
    e.sources = vec![Source::Filesystem { root: ".".to_string(), symlink: false, path: None }];
    assert_eq!(validate_plan(&e), ValidatePlan::EachSource);
    e.sources = Vec::new();
    assert_eq!(validate_plan(&e), ValidatePlan::NoSource);
}

#[test]
fn validate_summary_lines() {
    assert_eq!(validate_summary(3, 0, false), vec!["Manifest is valid. All 3 entries validated successfully.".to_string()]);
    assert_eq!(
        validate_summary(3, 2, false),
        vec!["Manifest is valid with 2 warning(s).".to_string(), "Run with --strict to treat warnings as errors.".to_string()]
    );
    assert_eq!(validate_summary(3, 12, true), vec!["Manifest is valid with 12 warning(s).".to_string()]);
}
