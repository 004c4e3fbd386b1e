use aps::error::ApsError;
use aps::hooks::{
    collect_hook_commands, collect_hook_script_paths, extract_relative_path, get_hooks_section, hooks_config_path,
    hooks_root_dir, referenced_scripts, validate_cursor_hooks, ConfigRead, HookValue,
};

fn s(x: &str) -> HookValue {
    HookValue::String(x.to_string())
}

fn config() -> HookValue {
    HookValue::Mapping(vec![
        (s("version"), HookValue::Number("1".to_string())),
        (
            s("hooks"),
            HookValue::Mapping(vec![(
                s("afterFileEdit"),
                HookValue::Sequence(vec![
                    HookValue::Mapping(vec![(s("command"), s("./hooks/format.sh --fix"))]),
                    HookValue::Mapping(vec![(s("command"), s("bash \"$HOME/.cursor/scripts/lint.sh\";"))]),
                    HookValue::Mapping(vec![(s("command"), s("./hooks/format.sh"))]),
                ]),
            )]),
        ),
    ])
}

#[test]
fn commands_and_script_paths() {
    let cfg = config();
    let section = get_hooks_section(&cfg).unwrap();
    let commands = collect_hook_commands(section);
    assert_eq!(commands.len(), 3);
    let paths = collect_hook_script_paths(&commands);
    assert_eq!(paths, vec!["hooks/format.sh".to_string(), "scripts/lint.sh".to_string()]);
}

#[test]
fn relative_path_of_words() {
    let w = |t: &str| extract_relative_path(&t.chars().collect::<Vec<char>>());
    assert_eq!(w("\"./hooks/a.sh\""), Some("hooks/a.sh".to_string()));
    assert_eq!(w("/x/.cursor/hooks/b.sh;"), Some("hooks/b.sh".to_string()));
    assert_eq!(w("scripts\\c.ps1"), Some("scripts\\c.ps1".to_string()));
    assert_eq!(w("echo"), None);
    assert_eq!(w("\"\""), None);
}

#[test]
fn hooks_root_is_parent_of_hooks_dir() {
    assert_eq!(hooks_root_dir("/p/.cursor/hooks"), "/p/.cursor");
    assert_eq!(hooks_root_dir("/p/.cursor/scripts"), "/p/.cursor");
    assert_eq!(hooks_root_dir("/p/other"), "/p/other");
    assert_eq!(hooks_config_path("/p/.cursor/hooks"), "/p/.cursor/hooks.json");
}

#[test]
fn validation_of_missing_config() {
    match validate_cursor_hooks("/p/.cursor/hooks", true, ConfigRead::Missing, &Vec::new()) {
        Err(ApsError::MissingHooksConfig { path }) => assert_eq!(path, "/p/.cursor/hooks.json"),
        _ => panic!("missing config expected"),
    }
    let w = validate_cursor_hooks("/p/.cursor/hooks", false, ConfigRead::Missing, &Vec::new()).unwrap();
    assert_eq!(w, vec!["Hooks config not found at /p/.cursor/hooks.json".to_string()]);
}

#[test]
fn validation_of_scripts() {
    let cfg = config();
    let scripts = referenced_scripts("/p/.cursor/hooks", &cfg);
    assert_eq!(scripts, vec!["/p/.cursor/hooks/format.sh".to_string(), "/p/.cursor/scripts/lint.sh".to_string()]);
    let w = validate_cursor_hooks("/p/.cursor/hooks", false, ConfigRead::Parsed(config()), &vec![true, false]).unwrap();
    assert_eq!(w, vec!["Hook script not found: /p/.cursor/scripts/lint.sh".to_string()]);
    match validate_cursor_hooks("/p/.cursor/hooks", true, ConfigRead::Parsed(config()), &vec![true, false]) {
        Err(ApsError::HookScriptNotFound { path }) => assert_eq!(path, "/p/.cursor/scripts/lint.sh"),
        _ => panic!("missing script expected"),
    }
    assert!(validate_cursor_hooks("/p/.cursor/hooks", true, ConfigRead::Parsed(config()), &vec![true, true])
        .unwrap()
        .is_empty());
}

#[test]
fn validation_without_hooks_section() {
    let cfg = HookValue::Mapping(vec![(s("version"), HookValue::Number("1".to_string()))]);
    let w = validate_cursor_hooks("/p/hooks", false, ConfigRead::Parsed(cfg), &Vec::new()).unwrap();
    assert_eq!(w, vec!["Hooks config at /p/hooks.json is missing a 'hooks' section".to_string()]);
}
