use aps::catalog::{extract_first_paragraph, truncate_description};
use aps::commands::{missing_source_verdict, source_verdict, SourceCheck};
use aps::compose::{compose_markdown, require_sources, COMPOSED_HEADER};
use aps::discover::extract_skill_description;
use aps::error::ApsError;
use aps::install::{
    checksum_early_result, composite_early_result, git_early_result, install_steps, needs_remote_check,
    require_source, ConflictCheck, InstallOptions,
};
use aps::lockfile::{LockedEntry, Lockfile};
use aps::manifest::{AssetKind, Entry, Source};
use aps::orphan::{detect_orphaned_paths, paths_overlap, OrphanedPath};
use aps::sources::{CloneKey, GitCloneCache, ResolvedGitSource};
use aps::sync_output::short_commit_fits;

fn opts(upgrade: bool) -> InstallOptions {
    InstallOptions { dry_run: false, yes: false, strict: false, upgrade }
}

fn git_locked(commit: &str) -> Lockfile {
    let mut l = Lockfile::new();
    l.upsert(
        "e".to_string(),
        LockedEntry::new_git("https://x/r.git", "d", "main".to_string(), commit.to_string(), "sha256:c".to_string()),
    );
    l
}

fn entry(source: Option<Source>, sources: Vec<Source>) -> Entry {
    Entry {
        id: "e".to_string(),
        kind: AssetKind::CompositeAgentsMd,
        source,
        sources,
        dest: None,
        include_prefixes: Vec::new(),
    }
}

fn fs(root: &str) -> Source {
    Source::Filesystem { root: root.to_string(), symlink: false, path: None }
}

#[test]
fn remote_check_when_locked_or_present() {
    let l = git_locked("abc");
    assert!(needs_remote_check(&l, "e", &opts(false), false));
    assert!(!needs_remote_check(&l, "e", &opts(true), false));
    assert!(needs_remote_check(&l, "e", &opts(true), true));
    assert!(!needs_remote_check(&Lockfile::new(), "e", &opts(false), false));
}

#[test]
fn locked_entry_in_place_is_current_with_upgrade_offer() {
    let l = git_locked("aaaaaaaaaa");
    let r = git_early_result(&l, "e", &opts(false), "/p/d", true, Some("bbbbbbbbbb")).unwrap();
    assert!(r.skipped_no_change && !r.installed && r.locked_entry.is_none());
    assert_eq!(r.dest_path, "/p/d");
    let u = r.upgrade_available.unwrap();
    assert_eq!((u.current_commit.as_str(), u.available_commit.as_str()), ("aaaaaaaaaa", "bbbbbbbbbb"));
    let same = git_early_result(&l, "e", &opts(false), "/p/d", true, Some("aaaaaaaaaa")).unwrap();
    assert!(same.upgrade_available.is_none());
    assert!(git_early_result(&l, "e", &opts(false), "/p/d", false, Some("bbbbbbbbbb")).is_none());
}

#[test]
fn upgrade_skips_only_unchanged_remote_head() {
    let l = git_locked("aaaa");
    assert!(git_early_result(&l, "e", &opts(true), "/p/d", true, Some("aaaa")).is_some());
    assert!(git_early_result(&l, "e", &opts(true), "/p/d", true, Some("bbbb")).is_none());
    assert!(git_early_result(&l, "e", &opts(true), "/p/d", true, None).is_none());
    assert!(git_early_result(&Lockfile::new(), "e", &opts(false), "/p/d", true, Some("aaaa")).is_none());
}

#[test]
fn unchanged_checksum_with_intact_destination_is_current() {
    let mut l = Lockfile::new();
    l.upsert("e".to_string(), LockedEntry::new_filesystem("filesystem:/r", "d", "sha256:x".to_string(), true, None, Vec::new()));
    assert!(checksum_early_result(&l, "e", "sha256:x", "/p/d", true, true).is_some());
    assert!(checksum_early_result(&l, "e", "sha256:x", "/p/d", true, false).is_none());
    assert!(checksum_early_result(&l, "e", "sha256:y", "/p/d", true, true).is_none());
    let mut c = Lockfile::new();
    c.upsert("e".to_string(), LockedEntry::new_filesystem("filesystem:/r", "d", "sha256:x".to_string(), false, None, Vec::new()));
    let r = checksum_early_result(&c, "e", "sha256:x", "/p/d", true, false).unwrap();
    assert!(!r.was_symlink && r.skipped_no_change);
    assert!(checksum_early_result(&c, "e", "sha256:x", "/p/d", false, true).is_none());
}

#[test]
fn second_sync_of_recorded_entry_is_current() {
    let mut l = Lockfile::new();
    let checksum = aps::checksum::compute_bytes_checksum(b"content");
    l.upsert("e".to_string(), LockedEntry::new_filesystem("filesystem:/r", "d", checksum.clone(), false, None, Vec::new()));
    assert!(checksum_early_result(&l, "e", &checksum, "/p/d", true, false).is_some());
}

#[test]
fn composite_current_when_text_unchanged() {
    let mut l = Lockfile::new();
    l.upsert("e".to_string(), LockedEntry::new_composite(vec!["a".to_string()], "AGENTS.md", "sha256:z".to_string()));
    let r = composite_early_result(&l, "e", "sha256:z", "/p/AGENTS.md", true).unwrap();
    assert!(!r.was_symlink);
    assert!(composite_early_result(&l, "e", "sha256:z", "/p/AGENTS.md", false).is_none());
    assert!(composite_early_result(&l, "e", "sha256:w", "/p/AGENTS.md", true).is_none());
}

#[test]
fn sources_required() {
    match require_source(&entry(None, Vec::new())) {
        Err(ApsError::EntryRequiresSource { id }) => assert_eq!(id, "e"),
        _ => panic!("error expected"),
    }
    assert!(require_source(&entry(Some(fs("/r")), Vec::new())).is_ok());
    match require_sources(&entry(None, Vec::new())) {
        Err(ApsError::CompositeRequiresSources { id }) => assert_eq!(id, "e"),
        _ => panic!("error expected"),
    }
    assert!(require_sources(&entry(None, vec![fs("/a")])).is_ok());
}

#[test]
fn composition_keeps_source_order_under_header() {
    let text = compose_markdown(&vec!["# Docker\n\nuse it\n".to_string(), "  # Python  ".to_string()]);
    assert_eq!(text, format!("{}\n\n# Docker\n\nuse it\n\n# Python\n", COMPOSED_HEADER));
    assert!(text.contains("auto-generated by aps (https://github.com/westonplatter/agentic-prompt-sync)"));
    assert_eq!(compose_markdown(&Vec::new()), format!("{}\n\n\n", COMPOSED_HEADER));
}

#[test]
fn truncation_counts_characters() {
    let two_byte = "é".repeat(150);
    assert_eq!(truncate_description(&two_byte, 201), two_byte);
    assert_eq!(truncate_description(&two_byte, 150), two_byte);
    let cut = truncate_description(&"é".repeat(130), 120);
    assert_eq!(cut, format!("{}...", "é".repeat(117)));
    assert_eq!(cut.chars().count(), 120);
    assert_eq!(truncate_description("aé bcdef", 5), "aé...");
    assert_eq!(truncate_description("abcdef", 6), "abcdef");
    assert!(short_commit_fits("0123456789abcdef"));
    assert!(!short_commit_fits("0123456é89"));
}

#[test]
fn long_descriptions_with_wide_characters_are_cut_by_characters() {
    let para = format!("{} tail", "é".repeat(250));
    let d = extract_first_paragraph(&para).unwrap();
    assert_eq!(d, format!("{}...", "é".repeat(197)));
    let skill = format!("---\ndescription: {}\n---\n", "ü".repeat(200));
    let d = extract_skill_description(Some(&skill)).unwrap();
    assert_eq!(d, format!("{}...", "ü".repeat(117)));
    let short = format!("---\ndescription: {}\n---\n", "ü".repeat(120));
    assert_eq!(extract_skill_description(Some(&short)).unwrap(), "ü".repeat(120));
}

#[test]
fn orphans_never_overlap_new_destination() {
    let c = vec![
        OrphanedPath { entry_id: "a".to_string(), old_dest: "/p/old".to_string(), new_dest: "/p/new".to_string() },
        OrphanedPath { entry_id: "b".to_string(), old_dest: "/p/x".to_string(), new_dest: "/p/x/y".to_string() },
        OrphanedPath { entry_id: "c".to_string(), old_dest: "/p/gone".to_string(), new_dest: "/p/n".to_string() },
    ];
    let probes = vec![
        ("/p/old".to_string(), "/p/new".to_string(), true),
        ("/p/x".to_string(), "/p/x/y".to_string(), true),
        ("/p/gone".to_string(), "/p/n".to_string(), false),
    ];
    let o = detect_orphaned_paths(c, &probes);
    assert_eq!(o.len(), 1);
    assert_eq!(o[0].entry_id, "a");
    assert_eq!(paths_overlap("/p/x", "/p/x/y"), paths_overlap("/p/x/y", "/p/x"));
}

#[test]
fn clones_are_reused_within_a_run() {
    let key = |r: &str| CloneKey::Latest { repo: r.to_string(), git_ref: "main".to_string(), shallow: true };
    let clone = |p: &str| ResolvedGitSource { repo_path: p.to_string(), resolved_ref: "main".to_string(), commit_sha: "abc".to_string() };
    let mut cache = GitCloneCache::new();
    assert!(cache.get(&key("a")).is_none());
    cache.insert(key("a"), clone("/tmp/a"));
    cache.insert(key("b"), clone("/tmp/b"));
    assert_eq!(cache.get(&key("a")).unwrap().repo_path, "/tmp/a");
    assert_eq!(cache.get(&key("b")).unwrap().repo_path, "/tmp/b");
    let deep = CloneKey::Latest { repo: "a".to_string(), git_ref: "main".to_string(), shallow: false };
    assert!(cache.get(&deep).is_none());
    let at = CloneKey::Commit { repo: "a".to_string(), commit_sha: "abc".to_string(), resolved_ref: "main".to_string() };
    assert!(cache.get(&at).is_none());
}

#[test]
fn validate_source_verdicts() {
    assert_eq!(source_verdict(SourceCheck::Found, true).unwrap(), None);
    assert_eq!(
        source_verdict(SourceCheck::Missing("/p/x".to_string()), false).unwrap(),
        Some("Source path not found: \"/p/x\"".to_string())
    );
    assert_eq!(
        source_verdict(SourceCheck::Missing("/p/a\tb".to_string()), false).unwrap(),
        Some("Source path not found: \"/p/a\\tb\"".to_string())
    );
    match source_verdict(SourceCheck::Missing("/p/x".to_string()), true) {
        Err(ApsError::SourcePathNotFound { path }) => assert_eq!(path, "/p/x"),
        _ => panic!("error expected"),
    }
    assert_eq!(
        source_verdict(SourceCheck::Failed(ApsError::GitError { message: "no".to_string() }), false).unwrap(),
        Some("Source validation failed: Git operation failed: no".to_string())
    );
    assert!(matches!(
        source_verdict(SourceCheck::Failed(ApsError::Cancelled), true),
        Err(ApsError::Cancelled)
    ));
    assert_eq!(missing_source_verdict("e1", false).unwrap(), "Entry 'e1' has no source configured");
    assert!(matches!(missing_source_verdict("e1", true), Err(ApsError::EntryRequiresSource { .. })));
}

#[test]
fn install_step_plans() {
    let s = install_steps(AssetKind::CursorHooks, false, false);
    assert_eq!(s.conflicts, ConflictCheck::HookItems);
    assert!(s.validate_hooks && !s.validate_skills && s.write && s.sync_hooks_config && s.make_executable);
    let s = install_steps(AssetKind::CursorHooks, true, false);
    assert_eq!(s.conflicts, ConflictCheck::Skip);
    assert!(s.sync_hooks_config && !s.make_executable);
    let s = install_steps(AssetKind::CursorSkillsRoot, false, true);
    assert_eq!(s.conflicts, ConflictCheck::Whole);
    assert!(s.validate_skills && !s.write && !s.sync_hooks_config);
    assert_eq!(install_steps(AssetKind::AgentsMd, true, false).conflicts, ConflictCheck::Whole);
}

#[test]
fn clone_failure_lists_refs_tried() {
    let refs = aps::sources::refs_to_try("auto");
    match aps::sources::clone_failure(&refs, Some("  fatal: not found \n")) {
        ApsError::GitError { message } => {
            assert_eq!(message, "Failed to clone with refs [\"main\", \"master\"]: fatal: not found")
        }
        _ => panic!("git error expected"),
    }
    match aps::sources::clone_failure(&vec!["v1".to_string()], None) {
        ApsError::GitError { message } => assert_eq!(message, "Failed to clone with refs [\"v1\"]"),
        _ => panic!("git error expected"),
    }
}
