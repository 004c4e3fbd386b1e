use aps::manifest::{manifest_dir, manifest_search_step, validate_manifest, AssetKind, Entry, Manifest, SearchStep, Source};

fn fs(root: &str, symlink: bool, path: Option<&str>) -> Source {
    Source::Filesystem { root: root.to_string(), symlink, path: path.map(|p| p.to_string()) }
}

fn entry(id: &str, kind: AssetKind, source: Option<Source>, sources: Vec<Source>, dest: Option<&str>) -> Entry {
    Entry {
        id: id.to_string(),
        kind,
        source,
        sources,
        dest: dest.map(|d| d.to_string()),
        include_prefixes: Vec::new(),
    }
}

#[test]
fn test_entry_destination_default() {
    let e = entry("test", AssetKind::AgentsMd, Some(fs(".", true, None)), Vec::new(), None);
    assert_eq!(e.destination(), "AGENTS.md");
}

#[test]
fn test_entry_destination_custom() {
    let e = entry(
        "test",
        AssetKind::AgentsMd,
        Some(fs(".", true, None)),
        Vec::new(),
        Some("custom/path/AGENTS.md"),
    );
    assert_eq!(e.destination(), "custom/path/AGENTS.md");
}

#[test]
fn test_entry_destination_with_tilde() {
    let e = entry(
        "test",
        AssetKind::AgentsMd,
        Some(fs(".", true, None)),
        Vec::new(),
        Some("~/agents/AGENTS.md"),
    );
    let result = e.destination();
    assert!(result.contains("agents/AGENTS.md"));
    assert!(!result.starts_with('~'));
}

#[test]
fn test_composite_entry() {
    let e = entry(
        "composite-test",
        AssetKind::CompositeAgentsMd,
        None,
        vec![
            fs(".", false, Some("agents.python.md")),
            fs(".", false, Some("agents.pandas.md")),
        ],
        None,
    );
    assert!(e.is_composite());
    assert_eq!(e.destination(), "AGENTS.md");
}

#[test]
fn test_composite_entry_mixed_sources() {
    let e = entry(
        "mixed-composite",
        AssetKind::CompositeAgentsMd,
        None,
        vec![
            fs("$HOME/agents", false, Some("AGENT.python.md")),
            Source::Git {
                repo: "https://github.com/apache/airflow.git".to_string(),
                git_ref: "main".to_string(),
                shallow: true,
                path: Some("AGENTS.md".to_string()),
            },
            fs(".", false, Some("agents.dockerfile.md")),
        ],
        Some("./AGENTS.md"),
    );

    assert!(e.is_composite());
    assert_eq!(e.sources.len(), 3);
    assert!(matches!(e.sources[0], Source::Filesystem { .. }));
    assert!(matches!(e.sources[1], Source::Git { .. }));
    assert!(matches!(e.sources[2], Source::Filesystem { .. }));
}

#[test]
fn default_destinations_of_each_kind() {
    assert_eq!(AssetKind::CursorRules.default_dest(), ".cursor/rules");
    assert_eq!(AssetKind::CursorHooks.default_dest(), ".cursor/hooks");
    assert_eq!(AssetKind::CursorSkillsRoot.default_dest(), ".cursor/skills");
    assert_eq!(AssetKind::AgentsMd.default_dest(), "AGENTS.md");
    assert_eq!(AssetKind::AgentSkill.default_dest(), "\x2eclaude/skills");
    assert_eq!(AssetKind::CompositeAgentsMd.default_dest(), "AGENTS.md");
}

#[test]
fn kind_names_parse() {
    assert_eq!(AssetKind::from_str("cursor_hooks").unwrap(), AssetKind::CursorHooks);
    assert_eq!(AssetKind::from_str("composite_agents_md").unwrap(), AssetKind::CompositeAgentsMd);
    match AssetKind::from_str("claude_hooks") {
        Err(aps::error::ApsError::InvalidAssetKind { kind }) => assert_eq!(kind, "claude_hooks"),
        _ => panic!("claude_hooks must be rejected"),
    }
}

#[test]
fn validate_manifest_reports_first_problem() {
    let ok = Manifest {
        entries: vec![entry("a", AssetKind::AgentsMd, Some(fs(".", true, None)), Vec::new(), None)],
    };
    assert!(validate_manifest(&ok).is_ok());

    let dup = Manifest {
        entries: vec![
            entry("a", AssetKind::AgentsMd, Some(fs(".", true, None)), Vec::new(), None),
            entry("a", AssetKind::CursorRules, None, Vec::new(), None),
        ],
    };
    match validate_manifest(&dup) {
        Err(aps::error::ApsError::DuplicateId { id }) => assert_eq!(id, "a"),
        _ => panic!("duplicate id expected"),
    }

    let no_sources = Manifest {
        entries: vec![entry("c", AssetKind::CompositeAgentsMd, None, Vec::new(), None)],
    };
    match validate_manifest(&no_sources) {
        Err(aps::error::ApsError::CompositeRequiresSources { id }) => assert_eq!(id, "c"),
        _ => panic!("composite without sources expected"),
    }

    let no_source = Manifest { entries: vec![entry("s", AssetKind::CursorRules, None, Vec::new(), None)] };
    match validate_manifest(&no_source) {
        Err(aps::error::ApsError::EntryRequiresSource { id }) => assert_eq!(id, "s"),
        _ => panic!("missing source expected"),
    }
}

#[test]
fn default_manifest_has_example_entry() {
    let m = Manifest::default();
    assert_eq!(m.entries.len(), 1);
    assert_eq!(m.entries[0].id, "my-agents");
    assert_eq!(m.entries[0].kind, AssetKind::AgentsMd);
}

#[test]
fn manifest_directory_of_paths() {
    assert_eq!(manifest_dir("/home/user/project/aps.yaml"), "/home/user/project");
    assert_eq!(manifest_dir("aps.yaml"), "");
    assert_eq!(manifest_dir("/"), ".");
}

#[test]
fn source_display_paths_keep_variables() {
    assert_eq!(fs("$HOME/a", false, Some("b.md")).display_path(), "$HOME/a/b.md");
    let g = Source::Git {
        repo: "https://x/y.git".to_string(),
        git_ref: "auto".to_string(),
        shallow: true,
        path: Some("p".to_string()),
    };
    assert_eq!(g.display_path(), "https://x/y.git:p");
    assert_eq!(g.git_info(), Some(("https://x/y.git", "auto")));
    assert_eq!(g.git_path(), Some("p"));
}

#[test]
fn manifest_search_steps() {
    match manifest_search_step("/w/p", true, true) {
        SearchStep::Found(p) => assert_eq!(p, "/w/p/aps.yaml"),
        _ => panic!("found expected"),
    }
    assert!(matches!(manifest_search_step("/w/p", false, true), SearchStep::NotFound));
    match manifest_search_step("/w/p", false, false) {
        SearchStep::Up(p) => assert_eq!(p, "/w"),
        _ => panic!("parent expected"),
    }
    assert!(matches!(manifest_search_step("/", false, false), SearchStep::NotFound));
}
