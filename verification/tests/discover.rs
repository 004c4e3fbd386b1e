use aps::discover::{discover_skills_in_repo, extract_skill_description, find_skills_in_directory, is_skill_md_name, skill_label};

fn file(path: &str, content: Option<&str>) -> (String, Option<String>) {
    (path.to_string(), content.map(|c| c.to_string()))
}

#[test]
fn test_find_skills_in_directory() {
    let files = vec![
        file("/r/skills/refactor/SKILL.md", Some("# Refactor\n\nRefactors code automatically.\n")),
        file("/r/skills/test-gen/SKILL.md", Some("# Test Generation\n\nGenerates unit tests.\n")),
        file("/r/docs/README.md", None),
    ];
    let skills = find_skills_in_directory(files, "/r");
    assert_eq!(skills.len(), 2);
    assert_eq!(skills[0].name, "refactor");
    assert_eq!(skills[0].repo_path, "skills/refactor");
    assert_eq!(skills[0].description, Some("Refactors code automatically.".to_string()));
    assert_eq!(skills[1].name, "test-gen");
    assert_eq!(skills[1].repo_path, "skills/test-gen");
}

#[test]
fn test_find_skills_with_search_path() {
    let files = vec![file("/r/terraform/skills/plan/SKILL.md", Some("# Plan\n\nPlans infra.\n"))];
    let skills = find_skills_in_directory(files, "/r");
    assert_eq!(skills.len(), 1);
    assert_eq!(skills[0].name, "plan");
    assert_eq!(skills[0].repo_path, "terraform/skills/plan");
}

#[test]
fn test_extract_skill_description() {
    let desc = extract_skill_description(Some(
        "# My Skill\n\nThis skill does something useful for your project.\n\nMore details here.\n",
    ));
    assert_eq!(desc, Some("This skill does something useful for your project.".to_string()));
}

#[test]
fn test_extract_skill_description_from_frontmatter() {
    let desc = extract_skill_description(Some(
        "---\nname: my-skill\ndescription: Creates beautiful charts and graphs.\n---\n\n# My Skill\n\nMore details.\n",
    ));
    assert_eq!(desc, Some("Creates beautiful charts and graphs.".to_string()));
}

#[test]
fn test_extract_skill_description_frontmatter_quoted() {
    let desc = extract_skill_description(Some(
        "---\nname: my-skill\ndescription: \"A quoted description here.\"\n---\n\nContent.\n",
    ));
    assert_eq!(desc, Some("A quoted description here.".to_string()));
}

#[test]
fn test_extract_skill_description_no_paragraph() {
    assert_eq!(extract_skill_description(Some("# Just a heading\n")), None);
}

#[test]
fn test_skills_sorted_by_path() {
    let files = vec![
        file("/r/skills/zebra/SKILL.md", Some("# zebra\n\nzebra skill.\n")),
        file("/r/skills/alpha/SKILL.md", Some("# alpha\n\nalpha skill.\n")),
        file("/r/skills/middle/SKILL.md", Some("# middle\n\nmiddle skill.\n")),
    ];
    let skills = find_skills_in_directory(files, "/r");
    assert_eq!(skills.len(), 3);
    assert_eq!(skills[0].name, "alpha");
    assert_eq!(skills[1].name, "middle");
    assert_eq!(skills[2].name, "zebra");
}

#[test]
fn test_root_skill_md_skipped() {
    let files = vec![
        file("/r/SKILL.md", Some("# Root Skill\n")),
        file("/r/skills/test/SKILL.md", Some("# Test\n\nA test skill.\n")),
    ];
    let skills = find_skills_in_directory(files, "/r");
    assert_eq!(skills.len(), 1);
    assert_eq!(skills[0].name, "test");
}

#[test]
fn code_fence_ends_skill_description_search() {
    assert_eq!(extract_skill_description(Some("# T\n\n```\ncode\n```\n")), None);
}

#[test]
fn long_skill_description_cut_to_120_characters() {
    let long = "word ".repeat(40);
    let desc = extract_skill_description(Some(&format!("---\ndescription: {}\n---\n", long))).unwrap();
    assert!(desc.chars().count() <= 120);
    assert!(desc.ends_with("..."));
    assert_eq!(desc, format!("{}...", "word ".repeat(23).trim_end()));
}

#[test]
fn skill_file_names() {
    assert!(is_skill_md_name("SKILL.md"));
    assert!(is_skill_md_name("skill.md"));
    assert!(!is_skill_md_name("Skill.md"));
}

#[test]
fn repo_discovery_requires_search_root() {
    match discover_skills_in_repo("/tmp/c", "skills", false, Vec::new()) {
        Err(aps::error::ApsError::SourcePathNotFound { path }) => assert_eq!(path, "/tmp/c/skills"),
        _ => panic!("missing search root expected"),
    }
    let found = discover_skills_in_repo("/tmp/c", "", true, vec![file("/tmp/c/a/SKILL.md", Some("Alpha."))]).unwrap();
    assert_eq!(found.len(), 1);
    assert_eq!(skill_label(&found[0]), "a - Alpha.");
}
