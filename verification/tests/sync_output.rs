use aps::install::{InstallResult, UpgradeInfo};
use aps::sync_output::{
    count_status, display_item, format_dest_path, status_badge, summary_parts, SyncDisplayItem, SyncStatus, Tone,
};

#[test]
fn test_format_dest_path_relative() {
    let manifest_dir = "/home/user/project";
    let dest = "/home/user/project/.cursor/rules/";
    assert_eq!(format_dest_path(dest, manifest_dir), "./.cursor/rules/");
}

#[test]
fn test_format_dest_path_absolute() {
    let manifest_dir = "/home/user/project";
    let dest = "/other/path/file.md";
    assert_eq!(format_dest_path(dest, manifest_dir), "/other/path/file.md");
}

#[test]
fn test_sync_display_item_with_message() {
    let item = SyncDisplayItem::new("test-entry".to_string(), "/path/to/dest".to_string(), SyncStatus::Warning)
        .with_message("Missing SKILL.md".to_string());

    assert_eq!(item.message, Some("Missing SKILL.md".to_string()));
}

#[test]
fn dest_path_of_manifest_dir_itself() {
    assert_eq!(format_dest_path("/p/", "/p"), ".");
    assert_eq!(format_dest_path("/p/./x", "/p"), "./x");
}

#[test]
fn badges() {
    assert_eq!(status_badge(SyncStatus::Upgradable), ("↑", "[upgrade available]"));
    assert_eq!(status_badge(SyncStatus::Current), ("·", "[current]"));
}

fn result(warnings: Vec<String>, skipped: bool, symlink: bool, up: Option<UpgradeInfo>) -> InstallResult {
    InstallResult {
        id: "e".to_string(),
        installed: !skipped,
        skipped_no_change: skipped,
        locked_entry: None,
        warnings,
        dest_path: "/p/d".to_string(),
        was_symlink: symlink,
        upgrade_available: up,
    }
}

#[test]
fn display_status_classification() {
    assert_eq!(display_item(&result(vec!["w1".into(), "w2".into()], false, true, None)).status, SyncStatus::Warning);
    assert_eq!(
        display_item(&result(vec!["w1".into(), "w2".into()], false, true, None)).message,
        Some("w1, w2".to_string())
    );
    let up = UpgradeInfo { current_commit: "0123456789ab".into(), available_commit: "fedcba98765".into() };
    let item = display_item(&result(vec![], true, false, Some(up)));
    assert_eq!(item.status, SyncStatus::Upgradable);
    assert_eq!(item.message, Some("01234567 → fedcba98".to_string()));
    assert_eq!(display_item(&result(vec![], true, false, None)).status, SyncStatus::Current);
    assert_eq!(display_item(&result(vec![], false, true, None)).status, SyncStatus::Synced);
    assert_eq!(display_item(&result(vec![], false, false, None)).status, SyncStatus::Copied);
}

#[test]
fn summary_line_parts() {
    let parts = summary_parts(1, 2, 0, 1, 2, 3, false);
    let view: Vec<(usize, String, Tone)> = parts.into_iter().map(|p| (p.count, p.label, p.tone)).collect();
    assert_eq!(
        view,
        vec![
            (3, "synced".to_string(), Tone::Good),
            (1, "upgrade available".to_string(), Tone::Upgrade),
            (2, "warnings".to_string(), Tone::Caution),
            (3, "orphans cleaned".to_string(), Tone::Muted),
        ]
    );
    let dry = summary_parts(1, 0, 4, 0, 0, 0, true);
    assert_eq!(dry[0].label, "would sync");
    assert_eq!(dry[1].count, 4);
    assert_eq!(dry.len(), 2);
}

#[test]
fn counts_by_status() {
    let items = vec![
        SyncDisplayItem::new("a".into(), "x".into(), SyncStatus::Synced),
        SyncDisplayItem::new("b".into(), "x".into(), SyncStatus::Current),
        SyncDisplayItem::new("c".into(), "x".into(), SyncStatus::Synced),
    ];
    assert_eq!(count_status(&items, SyncStatus::Synced), 2);
    assert_eq!(count_status(&items, SyncStatus::Warning), 0);
}
