use gx::config::{
    config_source_line,
    add_shortcut, clear_shortcuts, default_depth, list_shortcuts, merge_arrays, merge_configs,
    merge_loaded_configs, remove_shortcut, search_depth, shortcut_added_message,
    shortcut_removed_message, shortcuts_cleared_message, Config, ExcludePatterns, ShortcutError,
};
use gx::shortcut_map::ShortcutMap;

fn strings(items: &[&str]) -> Vec<String> {
    items.iter().map(|s| s.to_string()).collect()
}

fn config(depth: Option<usize>, names: &[&str], shortcuts: &[(&str, &str)]) -> Config {
    let mut map = ShortcutMap::new();
    for (k, v) in shortcuts {
        map.insert(k.to_string(), v.to_string());
    }
    Config {
        default_depth: depth,
        exclude: ExcludePatterns { names: strings(names), globs: Vec::new(), regexes: Vec::new() },
        shortcuts: map,
    }
}

fn pairs(map: &ShortcutMap) -> Vec<(String, String)> {
    map.entry_list()
}

#[test]
fn default_config_has_depth_three_and_nothing_else() {
    let c = Config::default();
    assert_eq!(c.default_depth, Some(3));
    assert_eq!(default_depth(), 3);
    assert!(c.exclude.names.is_empty());
    assert!(c.exclude.globs.is_empty());
    assert!(c.exclude.regexes.is_empty());
    assert!(c.shortcuts.is_empty());
}

#[test]
fn merge_arrays_appends_new_items_once() {
    let merged = merge_arrays(&strings(&["temp", "logs"]), &strings(&["logs", "cache", "cache"]));
    assert_eq!(merged, strings(&["temp", "logs", "cache"]));
}

#[test]
fn merge_arrays_drops_duplicates_of_base() {
    let merged = merge_arrays(&strings(&["a", "a"]), &strings(&["b"]));
    assert_eq!(merged, strings(&["a", "b"]));
    let merged = merge_arrays(&strings(&["x", "y", "x"]), &strings(&["y", "z", "x", "z"]));
    assert_eq!(merged, strings(&["x", "y", "z"]));
}

#[test]
fn merge_arrays_is_idempotent() {
    let base = strings(&["x", "y"]);
    let over = strings(&["y", "z"]);
    let once = merge_arrays(&base, &over);
    let twice = merge_arrays(&once, &over);
    assert_eq!(once, twice);
    assert_eq!(merge_arrays(&base, &base), base);
}

#[test]
fn project_config_overrides_user_config() {
    let user = config(Some(5), &["build-out"], &[("pull", "git pull"), ("st", "git status")]);
    let project = config(Some(2), &["logs", "build-out"], &[("st", "git status -s"), ("co", "git checkout")]);
    let merged = merge_configs(&user, &project);
    assert_eq!(merged.default_depth, Some(2));
    assert_eq!(merged.exclude.names, strings(&["build-out", "logs"]));
    assert_eq!(
        pairs(&merged.shortcuts),
        vec![
            ("co".to_string(), "git checkout".to_string()),
            ("pull".to_string(), "git pull".to_string()),
            ("st".to_string(), "git status -s".to_string()),
        ]
    );
}

#[test]
fn merging_the_same_project_twice_changes_nothing() {
    let user = config(Some(5), &["a"], &[("pull", "git pull")]);
    let project = config(Some(2), &["b"], &[("pull", "git pull --rebase")]);
    let once = merge_configs(&user, &project);
    let twice = merge_configs(&once, &project);
    assert_eq!(once.default_depth, twice.default_depth);
    assert_eq!(once.exclude.names, twice.exclude.names);
    assert_eq!(pairs(&once.shortcuts), pairs(&twice.shortcuts));
}

#[test]
fn loaded_configs_fall_back_to_defaults() {
    let none = merge_loaded_configs(None, None);
    assert_eq!(none.default_depth, Some(3));
    let project_only = merge_loaded_configs(None, Some(config(Some(7), &["x"], &[])));
    assert_eq!(project_only.default_depth, Some(7));
    assert_eq!(project_only.exclude.names, strings(&["x"]));
    let user_only = merge_loaded_configs(Some(config(Some(4), &["u"], &[])), None);
    assert_eq!(user_only.default_depth, Some(4));
    assert_eq!(user_only.exclude.names, strings(&["u"]));
}

#[test]
fn project_without_depth_keeps_user_depth() {
    let user = config(Some(5), &[], &[]);
    let project = config(None, &[], &[("st", "git status")]);
    let merged = merge_loaded_configs(Some(user), Some(project));
    assert_eq!(merged.default_depth, Some(5));
    assert_eq!(merged.shortcuts.get("st"), Some("git status".to_string()));
    let neither = merge_loaded_configs(Some(config(None, &[], &[])), Some(config(None, &[], &[])));
    assert_eq!(neither.default_depth, Some(3));
    assert_eq!(search_depth(None, &config(None, &[], &[])), 3);
}

#[test]
fn command_line_depth_beats_config() {
    let c = config(Some(5), &[], &[]);
    assert_eq!(search_depth(Some(1), &c), 1);
    assert_eq!(search_depth(None, &c), 5);
}

#[test]
fn add_shortcut_requires_git_command() {
    let mut c = config(Some(3), &[], &[]);
    match add_shortcut(&mut c, "pull", "pull") {
        Err(ShortcutError::NotGitCommand) => {}
        _ => panic!("expected NotGitCommand"),
    }
    assert!(c.shortcuts.is_empty());
    match add_shortcut(&mut c, "g", "git") {
        Err(e) => assert_eq!(e.message(), "Shortcut command must start with 'git'. Example: 'git pull'"),
        Ok(_) => panic!("a bare 'git' is refused"),
    }
}

#[test]
fn add_then_lookup_then_update() {
    let mut c = config(Some(3), &[], &[]);
    assert!(matches!(add_shortcut(&mut c, "pull", "git pull"), Ok(false)));
    assert_eq!(c.shortcuts.get("pull"), Some("git pull".to_string()));
    assert!(matches!(add_shortcut(&mut c, "pull", "git pull --rebase"), Ok(true)));
    assert_eq!(c.shortcuts.get("pull"), Some("git pull --rebase".to_string()));
    assert_eq!(c.shortcuts.len(), 1);
}

#[test]
fn remove_undoes_add() {
    let mut c = config(Some(3), &[], &[("st", "git status")]);
    let before = pairs(&c.shortcuts);
    add_shortcut(&mut c, "pull", "git pull").ok().unwrap();
    remove_shortcut(&mut c, "pull").ok().unwrap();
    assert_eq!(pairs(&c.shortcuts), before);
}

#[test]
fn remove_missing_shortcut_fails() {
    let mut c = config(Some(3), &[], &[]);
    match remove_shortcut(&mut c, "nope") {
        Err(e) => {
            assert!(matches!(e, ShortcutError::NotFound(ref n) if n == "nope"));
            assert_eq!(e.message(), "Shortcut 'nope' not found");
        }
        Ok(()) => panic!("expected an error"),
    }
}

#[test]
fn clear_counts_and_empties() {
    let mut c = config(Some(3), &[], &[("a", "git a"), ("b", "git b")]);
    assert_eq!(clear_shortcuts(&mut c), 2);
    assert!(c.shortcuts.is_empty());
    assert_eq!(clear_shortcuts(&mut c), 0);
    assert_eq!(shortcuts_cleared_message(0), "No shortcuts to clear.");
    assert_eq!(shortcuts_cleared_message(2), "\x1b[32mCleared\x1b[0m 2 shortcut(s)");
}

#[test]
fn shortcut_messages() {
    assert_eq!(
        shortcut_added_message(false, "pull", "git pull"),
        "\x1b[32mAdded\x1b[0m shortcut: \x1b[36mpull\x1b[0m → git pull"
    );
    assert_eq!(
        shortcut_added_message(true, "pull", "git pull"),
        "\x1b[33mUpdated\x1b[0m shortcut: \x1b[36mpull\x1b[0m → git pull"
    );
    assert_eq!(
        shortcut_removed_message("st"),
        "\x1b[32mRemoved\x1b[0m shortcut: \x1b[36mst\x1b[0m"
    );
}

#[test]
fn list_shortcuts_empty_hint() {
    let c = config(Some(3), &[], &[]);
    assert_eq!(
        list_shortcuts(&c),
        vec![
            "No shortcuts defined.".to_string(),
            "Add one with: gx shortcut add <name> \"git <command>\"".to_string(),
        ]
    );
}

#[test]
fn list_shortcuts_sorted_and_padded_by_bytes() {
    let c = config(Some(3), &[], &[("st", "git status"), ("co", "git checkout")]);
    assert_eq!(
        list_shortcuts(&c),
        vec![
            "\x1b[1mShortcuts:\x1b[0m".to_string(),
            "  \x1b[36mco\x1b[0m  git checkout".to_string(),
            "  \x1b[36mst\x1b[0m  git status".to_string(),
        ]
    );
    // A name wider in bytes than the colored name in characters gets padding.
    let wide = "名前名前名前名前";
    let c = config(Some(3), &[], &[("a", "git a"), (wide, "git b")]);
    let lines = list_shortcuts(&c);
    let padded = format!("{:<width$}", "\x1b[36ma\x1b[0m", width = wide.len());
    assert_eq!(lines[1], format!("  {}  git a", padded));
}

#[test]
fn shortcut_map_orders_like_btreemap() {
    let mut m = ShortcutMap::new();
    for k in ["b", "a", "ab", "B", "é", ""] {
        m.insert(k.to_string(), format!("git {}", k));
    }
    let keys: Vec<String> = m.entry_list().into_iter().map(|(k, _)| k).collect();
    let mut expected: Vec<String> = ["b", "a", "ab", "B", "é", ""].iter().map(|s| s.to_string()).collect();
    expected.sort();
    assert_eq!(keys, expected);
    assert!(m.contains_key("ab"));
    assert_eq!(m.remove("ab"), Some("git ab".to_string()));
    assert!(!m.contains_key("ab"));
    assert_eq!(m.remove("ab"), None);
}

#[test]
fn config_source_lines() {
    assert_eq!(config_source_line(0, false, "/home/u/.gx/gx.json"), "  1. [User] /home/u/.gx/gx.json");
    assert_eq!(config_source_line(1, true, ".gx/gx.json"), "  2. [Project] .gx/gx.json");
}

#[test]
fn saved_shortcut_changes_survive_the_next_load() {
    let project = || config(None, &[], &[("co", "git checkout")]);
    let user = config(Some(4), &[], &[("st", "git status")]);
    let mut merged = merge_loaded_configs(Some(user), Some(project()));
    assert!(matches!(add_shortcut(&mut merged, "pull", "git pull"), Ok(false)));
    let next = merge_loaded_configs(Some(merged), Some(project()));
    assert_eq!(next.shortcuts.get("pull"), Some("git pull".to_string()));
    assert_eq!(next.shortcuts.get("st"), Some("git status".to_string()));
    assert_eq!(next.default_depth, Some(4));
    let mut again = merge_loaded_configs(Some(next), Some(project()));
    assert!(remove_shortcut(&mut again, "co").is_ok());
    let after_rm = merge_loaded_configs(Some(again), Some(project()));
    assert_eq!(after_rm.shortcuts.get("co"), Some("git checkout".to_string()));
    let mut cleared = merge_loaded_configs(Some(after_rm), Some(project()));
    assert_eq!(clear_shortcuts(&mut cleared), 3);
    let after_clear = merge_loaded_configs(Some(cleared), Some(project()));
    assert_eq!(pairs(&after_clear.shortcuts), vec![("co".to_string(), "git checkout".to_string())]);
}
