use aps::lockfile::LockedSource;
use aps::sources::{
    expand_path, parse_remote_sha, refs_to_try, FilesystemSource, GitInfo, GitSource, ResolvedGitSource,
    ResolvedSource, SourceAdapter,
};

#[test]
fn test_expand_path_with_tilde() {
    let result = expand_path("~/documents");
    assert!(result.starts_with('/') || result.contains(":\\"));
    assert!(result.ends_with("/documents") || result.ends_with("\\documents"));
}

#[test]
fn test_expand_path_no_variables() {
    let result = expand_path("/absolute/path/to/file");
    assert_eq!(result, "/absolute/path/to/file");
}

#[test]
fn test_expand_path_relative_path() {
    let result = expand_path("relative/path");
    assert_eq!(result, "relative/path");
}

#[test]
fn test_expand_path_undefined_variable_preserved() {
    let result = expand_path("$UNDEFINED_VAR_12345/path");
    assert!(result.contains("UNDEFINED_VAR_12345") || result.contains("path"));
}

#[test]
fn test_filesystem_source_type() {
    let source = FilesystemSource::new("./root".to_string(), true, None);
    assert_eq!(source.source_type(), "filesystem");
}

#[test]
fn test_filesystem_display_name() {
    let source = FilesystemSource::new("./my-assets".to_string(), true, None);
    assert_eq!(source.display_name(), "filesystem:./my-assets");
}

#[test]
fn test_filesystem_path_default() {
    let source = FilesystemSource::new("./root".to_string(), true, None);
    assert_eq!(source.path(), ".");
}

#[test]
fn test_filesystem_path_custom() {
    let source = FilesystemSource::new("./root".to_string(), true, Some("subdir/file.md".to_string()));
    assert_eq!(source.path(), "subdir/file.md");
}

#[test]
fn test_filesystem_supports_symlink_true() {
    let source = FilesystemSource::new("./root".to_string(), true, None);
    assert!(source.supports_symlink());
}

#[test]
fn test_filesystem_supports_symlink_false() {
    let source = FilesystemSource::new("./root".to_string(), false, None);
    assert!(!source.supports_symlink());
}

#[test]
fn test_git_source_type() {
    let source = GitSource::new("https://github.com/example/repo.git".to_string(), "main".to_string(), true, None);
    assert_eq!(source.source_type(), "git");
}

#[test]
fn test_git_display_name() {
    let source = GitSource::new("https://github.com/example/repo.git".to_string(), "main".to_string(), true, None);
    assert_eq!(source.display_name(), "https://github.com/example/repo.git");
}

#[test]
fn test_git_path_default() {
    let source = GitSource::new("https://github.com/example/repo.git".to_string(), "main".to_string(), true, None);
    assert_eq!(source.path(), ".");
}

#[test]
fn test_git_path_custom() {
    let source = GitSource::new(
        "https://github.com/example/repo.git".to_string(),
        "main".to_string(),
        true,
        Some("docs/README.md".to_string()),
    );
    assert_eq!(source.path(), "docs/README.md");
}

#[test]
fn test_git_supports_symlink_always_false() {
    let source = GitSource::new("https://github.com/example/repo.git".to_string(), "main".to_string(), true, None);
    assert!(!source.supports_symlink());
}

#[test]
fn test_resolved_source_filesystem_to_locked_entry() {
    let resolved = ResolvedSource::filesystem("/source/path".to_string(), "filesystem:./assets".to_string(), true);

    let locked = resolved.to_locked_entry("/dest/path", "abc123".to_string(), vec!["/source/path/file1".to_string()]);

    assert_eq!(locked.source, LockedSource::simple("filesystem:./assets"));
    assert_eq!(locked.dest, "/dest/path");
    assert_eq!(locked.checksum, "abc123");
    assert!(locked.is_symlink);
    assert_eq!(locked.target_path, Some("/source/path".to_string()));
    assert!(locked.resolved_ref.is_none());
    assert!(locked.commit.is_none());
}

#[test]
fn test_resolved_source_git_to_locked_entry() {
    let git_info = GitInfo { resolved_ref: "main".to_string(), commit_sha: "abc123def456".to_string() };

    let resolved = ResolvedSource::git(
        "/tmp/repo/path".to_string(),
        "https://github.com/example/repo.git".to_string(),
        git_info,
    );

    let locked = resolved.to_locked_entry("/dest/path", "checksum789".to_string(), vec![]);

    assert_eq!(locked.source, LockedSource::simple("https://github.com/example/repo.git"));
    assert_eq!(locked.dest, "/dest/path");
    assert_eq!(locked.checksum, "checksum789");
    assert!(!locked.is_symlink);
    assert_eq!(locked.resolved_ref, Some("main".to_string()));
    assert_eq!(locked.commit, Some("abc123def456".to_string()));
}

#[test]
fn filesystem_resolve_joins_relative_root_and_path() {
    let source = FilesystemSource::new("assets".to_string(), true, Some("subdir/file.md".to_string()));
    let resolved = source.resolve("/tmp/project").unwrap();
    assert_eq!(resolved.source_path, "/tmp/project/assets/subdir/file.md");
    assert!(resolved.use_symlink);
    assert!(resolved.git_info.is_none());
    assert_eq!(resolved.source_display, "filesystem:assets");

    let abs = FilesystemSource::new("/abs/assets".to_string(), false, None);
    let resolved = abs.resolve("/tmp/project").unwrap();
    assert_eq!(resolved.source_path, "/abs/assets");
    assert!(!resolved.use_symlink);
}

#[test]
fn git_source_resolves_inside_clone() {
    let clone = ResolvedGitSource {
        repo_path: "/tmp/clone".to_string(),
        resolved_ref: "master".to_string(),
        commit_sha: "0123abcd".to_string(),
    };
    let source = GitSource::new("https://x/y.git".to_string(), "auto".to_string(), true, Some("skills/a".to_string()));
    let resolved = source.resolve(&clone);
    assert_eq!(resolved.source_path, "/tmp/clone/skills/a");
    assert!(!resolved.use_symlink);
    assert_eq!(resolved.git_info.as_ref().unwrap().resolved_ref, "master");
    let whole = GitSource::new("https://x/y.git".to_string(), "main".to_string(), true, None);
    assert_eq!(whole.resolve(&clone).source_path, "/tmp/clone");
}

#[test]
fn auto_ref_tries_main_then_master() {
    assert_eq!(refs_to_try("auto"), vec!["main".to_string(), "master".to_string()]);
    assert_eq!(refs_to_try("v1"), vec!["v1".to_string()]);
}

#[test]
fn ls_remote_output_first_sha() {
    assert_eq!(
        parse_remote_sha("4a5b6c7d\trefs/heads/main\n"),
        Some("4a5b6c7d".to_string())
    );
    assert_eq!(parse_remote_sha(""), None);
    assert_eq!(parse_remote_sha("   \n"), None);
}

#[test]
fn clone_failure_names_refs_and_last_error() {
    let refs = vec!["main".to_string(), "master".to_string()];
    match aps::sources::clone_failure(&refs, Some("  fatal: nope \n")) {
        aps::error::ApsError::GitError { message } => {
            assert_eq!(message, "Failed to clone with refs [\"main\", \"master\"]: fatal: nope")
        }
        _ => panic!("git error expected"),
    }
}
