use aps::catalog::{
    extract_agent_skill_description, extract_cursor_rule_description, extract_cursor_skill_description, extract_first_paragraph,
    extract_frontmatter_description, strip_frontmatter, truncate_description, Catalog, EntryListing,
};
use aps::manifest::{AssetKind, Entry, Manifest, Source};

#[test]
fn test_catalog_default() {
    let catalog = Catalog::default();
    assert_eq!(catalog.version, 1);
    assert!(catalog.entries.is_empty());
}

#[test]
fn test_catalog_path_for_manifest() {
    let catalog_path = Catalog::path_for_manifest("/home/user/project/aps.yaml");
    assert_eq!(catalog_path, "/home/user/project/aps.catalog.yaml");
}

#[test]
fn test_extract_frontmatter_description() {
    let content = r#"---
description: "This is a test rule"
other: value
---

# Content here
"#;
    assert_eq!(extract_frontmatter_description(content), Some("This is a test rule".to_string()));

    let content = "# Just a heading\nSome content";
    assert_eq!(extract_frontmatter_description(content), None);

    let content = "---\ntitle: Test\n---\nContent";
    assert_eq!(extract_frontmatter_description(content), None);
}

#[test]
fn test_extract_first_paragraph() {
    let content = r#"# Heading

This is the first paragraph that should be extracted.

This is the second paragraph.
"#;
    assert_eq!(
        extract_first_paragraph(content),
        Some("This is the first paragraph that should be extracted.".to_string())
    );

    let content = "First line\nsecond line\nthird line\n\nNew paragraph";
    assert_eq!(extract_first_paragraph(content), Some("First line second line third line".to_string()));
}

#[test]
fn test_strip_frontmatter() {
    let content = "---\nkey: value\n---\n\nActual content";
    assert_eq!(strip_frontmatter(content), "Actual content");

    let content = "No frontmatter here";
    assert_eq!(strip_frontmatter(content), "No frontmatter here");
}

#[test]
fn test_truncate_description() {
    let short = "Short text";
    assert_eq!(truncate_description(short, 100), "Short text");

    let long = "This is a very long description that exceeds the maximum length";
    let truncated = truncate_description(long, 30);
    assert!(truncated.ends_with("..."));
    assert!(truncated.len() <= 30);
}

#[test]
fn truncate_cuts_at_last_space_exactly() {
    assert_eq!(
        truncate_description("This is a very long description that exceeds the maximum length", 30),
        "This is a very long..."
    );
    assert_eq!(truncate_description("abcdefghijkl", 8), "abcde...");
}

#[test]
fn first_paragraph_skips_code_fences_before_text() {
    let content = "```\ncode\n```\nreal text\n";
    assert_eq!(extract_first_paragraph(content), Some("real text".to_string()));
    let content = "```\nlet x = 1;\n```\n\nReal text";
    assert_eq!(extract_first_paragraph(content), Some("Real text".to_string()));
    assert_eq!(extract_first_paragraph("```\nnever closed\nstill code\n"), None);
    assert_eq!(extract_first_paragraph("Text first\n```\ncode\n```\n"), Some("Text first".to_string()));
    assert_eq!(extract_first_paragraph("# only a heading\n"), None);
}

#[test]
fn single_quoted_frontmatter_value() {
    let content = "---\ndescription: 'quoted'\n---\nbody";
    assert_eq!(extract_frontmatter_description(content), Some("quoted".to_string()));
}

#[test]
fn rule_description_falls_back_to_body() {
    let content = "---\ntitle: x\n---\n\nBody paragraph here.\n";
    assert_eq!(extract_cursor_rule_description(Some(content)), Some("Body paragraph here.".to_string()));
    assert_eq!(extract_cursor_rule_description(None), None);
}

#[test]
fn agent_skill_description_uses_readme_last() {
    assert_eq!(
        extract_agent_skill_description(Some("# Title\n"), Some("Readme text.")),
        Some("Readme text.".to_string())
    );
    assert_eq!(
        extract_agent_skill_description(Some("---\ndescription: From skill\n---\n"), Some("Readme text.")),
        Some("From skill".to_string())
    );
    assert_eq!(extract_agent_skill_description(None, None), None);
}

fn fs_entry(id: &str, kind: AssetKind, prefixes: Vec<String>) -> Entry {
    Entry {
        id: id.to_string(),
        kind,
        source: Some(Source::Filesystem { root: "./src".to_string(), symlink: true, path: None }),
        sources: Vec::new(),
        dest: None,
        include_prefixes: prefixes,
    }
}

#[test]
fn catalog_lists_filtered_sorted_assets() {
    let manifest = Manifest {
        entries: vec![
            fs_entry("rules", AssetKind::CursorRules, vec!["rule".to_string()]),
            fs_entry("agents", AssetKind::AgentsMd, Vec::new()),
        ],
    };
    let listings = vec![
        EntryListing {
            source_path: "/p/src".to_string(),
            exists: true,
            file_description: None,
            assets: vec![
                ("rule2.mdc".to_string(), None),
                ("other.txt".to_string(), None),
                ("rule1.mdc".to_string(), Some("First".to_string())),
            ],
        },
        EntryListing {
            source_path: "/p/src/AGENTS.md".to_string(),
            exists: true,
            file_description: Some("Agents".to_string()),
            assets: Vec::new(),
        },
    ];
    let catalog = Catalog::generate_from_manifest(&manifest, listings).unwrap();
    assert_eq!(catalog.entries.len(), 3);
    assert_eq!(catalog.entries[0].id, "rules:rule1.mdc");
    assert_eq!(catalog.entries[0].destination, "./.cursor/rules/rule1.mdc");
    assert_eq!(catalog.entries[0].short_description, Some("First".to_string()));
    assert_eq!(catalog.entries[1].name, "rule2.mdc");
    assert_eq!(catalog.entries[2].id, "agents:AGENTS.md");
    assert_eq!(catalog.entries[2].destination, "./AGENTS.md");
}

#[test]
fn catalog_reports_missing_source() {
    let manifest = Manifest { entries: vec![fs_entry("rules", AssetKind::CursorRules, Vec::new())] };
    let listings = vec![EntryListing {
        source_path: "/nope".to_string(),
        exists: false,
        file_description: None,
        assets: Vec::new(),
    }];
    match Catalog::generate_from_manifest(&manifest, listings) {
        Err(aps::error::ApsError::SourcePathNotFound { path }) => assert_eq!(path, "/nope"),
        _ => panic!("missing source expected"),
    }
}

#[test]
fn frontmatter_descriptions_are_cut_to_200_characters() {
    let long = "word ".repeat(60);
    let rule = format!("---\ndescription: {}\n---\nBody\n", long);
    let d = extract_cursor_rule_description(Some(&rule)).unwrap();
    assert_eq!(d, format!("{}...", "word ".repeat(39).trim_end()));
    assert!(d.chars().count() <= 200);
    let d = extract_cursor_skill_description(Some(&rule)).unwrap();
    assert_eq!(d, format!("{}...", "word ".repeat(39).trim_end()));
    let short = "---\ndescription: \"Short one\"\n---\nBody\n";
    assert_eq!(extract_agent_skill_description(Some(short), None), Some("Short one".to_string()));
}
