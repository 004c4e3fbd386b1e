use aps::github_url::parse_github_url;

#[test]
fn test_parse_skill_folder_url() {
    let url = "https://github.com/hashicorp/agent-skills/blob/main/terraform/module-generation/skills/refactor-module";
    let parsed = parse_github_url(url).unwrap();

    assert_eq!(parsed.repo_url, "https://github.com/hashicorp/agent-skills.git");
    assert_eq!(parsed.git_ref, "main");
    assert_eq!(parsed.path, "terraform/module-generation/skills/refactor-module");
    assert!(!parsed.is_skill_file);
    assert!(!parsed.is_repo_level);
    assert_eq!(parsed.skill_name(), Some("refactor-module"));
}

#[test]
fn test_parse_skill_md_url() {
    let url = "https://github.com/hashicorp/agent-skills/blob/main/terraform/module-generation/skills/refactor-module/SKILL.md";
    let parsed = parse_github_url(url).unwrap();

    assert_eq!(parsed.repo_url, "https://github.com/hashicorp/agent-skills.git");
    assert_eq!(parsed.git_ref, "main");
    assert_eq!(parsed.path, "terraform/module-generation/skills/refactor-module/SKILL.md");
    assert!(parsed.is_skill_file);
    assert!(!parsed.is_repo_level);
    assert_eq!(parsed.skill_path(), "terraform/module-generation/skills/refactor-module");
    assert_eq!(parsed.skill_name(), Some("refactor-module"));
}

#[test]
fn test_parse_tree_url() {
    let url = "https://github.com/anthropics/skills/tree/main/skills/skill-creation";
    let parsed = parse_github_url(url).unwrap();

    assert_eq!(parsed.repo_url, "https://github.com/anthropics/skills.git");
    assert_eq!(parsed.git_ref, "main");
    assert_eq!(parsed.path, "skills/skill-creation");
    assert!(!parsed.is_skill_file);
    assert!(!parsed.is_repo_level);
    assert_eq!(parsed.skill_name(), Some("skill-creation"));
}

#[test]
fn test_parse_with_different_ref() {
    let url = "https://github.com/owner/repo/blob/v1.2.3/path/to/skill";
    let parsed = parse_github_url(url).unwrap();

    assert_eq!(parsed.git_ref, "v1.2.3");
    assert_eq!(parsed.path, "path/to/skill");
}

#[test]
fn test_parse_with_commit_sha() {
    let url = "https://github.com/owner/repo/blob/abc123def/path/to/skill";
    let parsed = parse_github_url(url).unwrap();

    assert_eq!(parsed.git_ref, "abc123def");
}

#[test]
fn test_invalid_host() {
    let url = "https://gitlab.com/owner/repo/blob/main/path";
    let result = parse_github_url(url);
    assert!(result.is_err());
}

#[test]
fn test_repo_level_url_with_tree_ref_no_path() {
    let url = "https://github.com/owner/repo/tree/main";
    let parsed = parse_github_url(url).unwrap();

    assert_eq!(parsed.repo_url, "https://github.com/owner/repo.git");
    assert_eq!(parsed.git_ref, "main");
    assert_eq!(parsed.path, "");
    assert!(parsed.is_repo_level);
}

#[test]
fn test_blob_url_without_path_is_invalid() {
    let url = "https://github.com/owner/repo/blob/main";
    let result = parse_github_url(url);
    assert!(result.is_err());
}

#[test]
fn test_invalid_url_type() {
    let url = "https://github.com/owner/repo/commits/main/path";
    let result = parse_github_url(url);
    assert!(result.is_err());
}

#[test]
fn test_lowercase_skill_md() {
    let url = "https://github.com/owner/repo/blob/main/path/skill.md";
    let parsed = parse_github_url(url).unwrap();
    assert!(parsed.is_skill_file);
}

#[test]
fn test_root_level_skill_md() {
    let url = "https://github.com/owner/repo/blob/main/SKILL.md";
    let parsed = parse_github_url(url).unwrap();

    assert_eq!(parsed.repo_url, "https://github.com/owner/repo.git");
    assert_eq!(parsed.git_ref, "main");
    assert_eq!(parsed.path, "SKILL.md");
    assert!(parsed.is_skill_file);
    assert_eq!(parsed.skill_path(), "");
    assert_eq!(parsed.skill_name(), None);

    let url = "https://github.com/owner/repo/blob/main/skill.md";
    let parsed = parse_github_url(url).unwrap();

    assert_eq!(parsed.path, "skill.md");
    assert!(parsed.is_skill_file);
    assert_eq!(parsed.skill_path(), "");
    assert_eq!(parsed.skill_name(), None);
}

#[test]
fn test_bare_repo_url() {
    let url = "https://github.com/hashicorp/agent-skills";
    let parsed = parse_github_url(url).unwrap();

    assert_eq!(parsed.repo_url, "https://github.com/hashicorp/agent-skills.git");
    assert_eq!(parsed.git_ref, "auto");
    assert_eq!(parsed.path, "");
    assert!(parsed.is_repo_level);
    assert!(!parsed.is_skill_file);
}

#[test]
fn test_repo_url_with_trailing_slash() {
    let url = "https://github.com/hashicorp/agent-skills/";
    let parsed = parse_github_url(url).unwrap();

    assert_eq!(parsed.repo_url, "https://github.com/hashicorp/agent-skills.git");
    assert!(parsed.is_repo_level);
}

#[test]
fn test_tree_url_with_subpath_not_repo_level() {
    let url = "https://github.com/owner/repo/tree/main/skills";
    let parsed = parse_github_url(url).unwrap();

    assert_eq!(parsed.repo_url, "https://github.com/owner/repo.git");
    assert_eq!(parsed.git_ref, "main");
    assert_eq!(parsed.path, "skills");
    assert!(!parsed.is_repo_level);
    assert!(!parsed.is_skill_file);
}

#[test]
fn github_url_surrounding_whitespace_is_ignored() {
    let parsed = parse_github_url("  https://github.com/owner/repo  ").unwrap();
    assert_eq!(parsed.repo_url, "https://github.com/owner/repo.git");
    assert!(parsed.is_repo_level);
}

#[test]
fn github_url_garbage_is_invalid_github_url_error() {
    match parse_github_url("not a url") {
        Err(aps::error::ApsError::InvalidGitHubUrl { url, .. }) => assert_eq!(url, "not a url"),
        other => panic!("unexpected: {:?}", other.is_ok()),
    }
}
