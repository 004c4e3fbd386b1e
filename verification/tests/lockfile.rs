use aps::lockfile::{LockedEntry, LockedSource, Lockfile, Timestamp};

fn fs_entry(source: &str, dest: &str, checksum: &str) -> LockedEntry {
    LockedEntry::new_filesystem(source, dest, checksum.to_string(), false, None, vec![])
}

#[test]
fn test_retain_entries_removes_stale() {
    let mut lockfile = Lockfile::new();

    lockfile.upsert("entry1".to_string(), fs_entry("source1", "dest1", "checksum1"));
    lockfile.upsert("entry2".to_string(), fs_entry("source2", "dest2", "checksum2"));
    lockfile.upsert("entry3".to_string(), fs_entry("source3", "dest3", "checksum3"));

    assert_eq!(lockfile.entries.len(), 3);

    let removed = lockfile.retain_entries(&["entry1", "entry3"]);

    assert_eq!(removed.len(), 1);
    assert!(removed.contains(&"entry2".to_string()));
    assert_eq!(lockfile.entries.len(), 2);
    assert!(lockfile.entries.contains_key("entry1"));
    assert!(!lockfile.entries.contains_key("entry2"));
    assert!(lockfile.entries.contains_key("entry3"));
}

#[test]
fn test_retain_entries_empty_keep_list() {
    let mut lockfile = Lockfile::new();

    lockfile.upsert("entry1".to_string(), fs_entry("source1", "dest1", "checksum1"));

    let removed = lockfile.retain_entries(&[]);

    assert_eq!(removed.len(), 1);
    assert!(lockfile.entries.is_empty());
}

#[test]
fn test_retain_entries_all_kept() {
    let mut lockfile = Lockfile::new();

    lockfile.upsert("entry1".to_string(), fs_entry("source1", "dest1", "checksum1"));
    lockfile.upsert("entry2".to_string(), fs_entry("source2", "dest2", "checksum2"));

    let removed = lockfile.retain_entries(&["entry1", "entry2"]);

    assert!(removed.is_empty());
    assert_eq!(lockfile.entries.len(), 2);
}

#[test]
fn lockfile_new_has_current_format() {
    let lockfile = Lockfile::new();
    assert_eq!(lockfile.version, 1);
    assert_eq!(lockfile.aps_version, "0.1.0");
    assert!(lockfile.entries.is_empty());
}

#[test]
fn lockfile_path_next_to_manifest() {
    assert_eq!(
        Lockfile::path_for_manifest("/home/user/project/aps.yaml"),
        "/home/user/project/aps.lock.yaml"
    );
    assert_eq!(Lockfile::path_for_manifest("aps.yaml"), "aps.lock.yaml");
    assert_eq!(
        Lockfile::legacy_path_for("/p/aps.lock.yaml"),
        "/p/aps.manifest.lock"
    );
}

#[test]
fn upsert_then_checksum_and_commit_read_back() {
    let mut lockfile = Lockfile::new();
    lockfile.upsert("a".to_string(), fs_entry("s", "d", "sha256:1"));
    assert!(lockfile.checksum_matches("a", "sha256:1"));
    assert!(!lockfile.checksum_matches("a", "sha256:2"));
    assert!(!lockfile.checksum_matches("b", "sha256:1"));
    assert!(!lockfile.commit_matches("a", "abc"));

    let git = LockedEntry::new_git("repo", "d", "main".to_string(), "abc".to_string(), "c".to_string());
    lockfile.upsert("a".to_string(), git);
    assert_eq!(lockfile.entries.len(), 1);
    assert!(lockfile.commit_matches("a", "abc"));
    assert!(!lockfile.commit_matches("a", "abd"));
    assert!(lockfile.checksum_matches("a", "c"));
}

#[test]
fn remove_and_get_entries() {
    let mut lockfile = Lockfile::new();
    lockfile.upsert("x".to_string(), fs_entry("s", "d1", "c1"));
    lockfile.upsert("y".to_string(), fs_entry("s", "d2", "c2"));
    assert_eq!(lockfile.entries.get("y").unwrap().dest, "d2");
    lockfile.entries.remove("x");
    assert!(lockfile.entries.get("x").is_none());
    assert_eq!(lockfile.entries.ids(), vec!["y".to_string()]);
}

#[test]
fn locked_source_legacy_bracket_text() {
    let s = LockedSource::from_text("composite: [a.md, b.md]");
    assert_eq!(s, LockedSource::Composite(vec!["a.md".to_string(), "b.md".to_string()]));
    assert!(s.is_composite());
}

#[test]
fn locked_source_text_after_composite_is_trimmed_first() {
    // The text after `composite:` is trimmed before it is looked at, so a
    // line list below it never starts with a newline and stays a simple source.
    let text = "composite:\n  - one.md\n  - two.md\n";
    assert_eq!(LockedSource::from_text(text), LockedSource::simple(text));
    assert_eq!(LockedSource::from_text("composite:"), LockedSource::simple("composite:"));
}

#[test]
fn locked_source_plain_text_is_simple() {
    assert_eq!(LockedSource::from_text("filesystem:./x"), LockedSource::simple("filesystem:./x"));
    assert_eq!(LockedSource::from_text("composite: nothing"), LockedSource::simple("composite: nothing"));
}

#[test]
fn locked_source_render_round_trips() {
    let c = LockedSource::composite(vec!["$HOME/a.md".to_string(), "repo:b.md".to_string()]);
    assert_eq!(c.render(), "composite: [$HOME/a.md, repo:b.md]");
    assert_eq!(LockedSource::from_text(&c.render()), c);
    let s = LockedSource::simple("https://github.com/x/y.git");
    assert_eq!(s.render(), "https://github.com/x/y.git");
    assert_eq!(LockedSource::from_text(&s.render()), s);
}

#[test]
fn status_report_lists_entries() {
    let mut l = Lockfile::new();
    assert_eq!(l.status_report().last().unwrap(), "No entries in lockfile.");
    l.aps_version = "0.1.0".to_string();
    l.upsert(
        "rules".to_string(),
        LockedEntry {
            source: LockedSource::Simple("filesystem:$HOME/r".to_string()),
            dest: ".cursor/rules".to_string(),
            resolved_ref: None,
            commit: None,
            last_updated_at: Timestamp { seconds: 0, nanos: 0 },
            checksum: "sha256:ab".to_string(),
            is_symlink: true,
            target_path: Some("/h/r".to_string()),
            symlinked_items: vec!["a".to_string(), "b".to_string()],
        },
    );
    let rule = "-".repeat(80);
    assert_eq!(
        l.status_report(),
        vec![
            "APS version:  0.1.0".to_string(),
            "Synced entries:".to_string(),
            rule.clone(),
            "ID:           rules".to_string(),
            "Source:       filesystem:$HOME/r".to_string(),
            "Destination:  .cursor/rules".to_string(),
            "Type:         symlink".to_string(),
            "Target:       /h/r".to_string(),
            "Items:        2 symlinked".to_string(),
            "Last updated: 1970-01-01 00:00:00 UTC".to_string(),
            "Checksum:     sha256:ab".to_string(),
            rule,
        ]
    );
}

#[test]
fn status_report_composite_and_git() {
    let mut l = Lockfile::new();
    l.upsert("c".to_string(), LockedEntry::new_composite(vec!["a.md".to_string(), "b.md".to_string()], "AGENTS.md", "sha256:c".to_string()));
    l.upsert("g".to_string(), LockedEntry::new_git("https://x/r.git", "d", "main".to_string(), "abc".to_string(), "sha256:g".to_string()));
    let lines = l.status_report();
    assert!(lines.contains(&"Source:       composite".to_string()));
    assert!(lines.contains(&"              - a.md".to_string()));
    assert!(lines.contains(&"              - b.md".to_string()));
    assert!(lines.contains(&"Ref:          main".to_string()));
    assert!(lines.contains(&"Commit:       abc".to_string()));
    let c = lines.iter().position(|x| x == "ID:           c").unwrap();
    let g = lines.iter().position(|x| x == "ID:           g").unwrap();
    assert!(c < g);
}
