use gx::cli::{
    dispatch_command, parse_log_count, parse_log_request, parse_shortcut_command, split_command_groups, CommandError,
    Dispatch, ShortcutCommand,
};
use gx::config::{Config, ExcludePatterns};
use gx::shortcut_map::ShortcutMap;

fn strings(items: &[&str]) -> Vec<String> {
    items.iter().map(|s| s.to_string()).collect()
}

fn config_with(shortcuts: &[(&str, &str)]) -> Config {
    let mut map = ShortcutMap::new();
    for (k, v) in shortcuts {
        map.insert(k.to_string(), v.to_string());
    }
    Config {
        default_depth: Some(3),
        exclude: ExcludePatterns { names: Vec::new(), globs: Vec::new(), regexes: Vec::new() },
        shortcuts: map,
    }
}

#[test]
fn groups_split_at_shortcuts() {
    let c = config_with(&[("pull", "git pull"), ("push", "git push")]);
    let groups = split_command_groups(&strings(&["pull", "push"]), &c);
    assert_eq!(groups, vec![strings(&["pull"]), strings(&["push"])]);
    let groups = split_command_groups(&strings(&["pull", "origin", "main", "push"]), &c);
    assert_eq!(groups, vec![strings(&["pull", "origin", "main"]), strings(&["push"])]);
}

#[test]
fn groups_do_not_split_after_shortcut_or_config() {
    let c = config_with(&[("pull", "git pull")]);
    let groups = split_command_groups(&strings(&["shortcut", "add", "pull", "git", "pull"]), &c);
    assert_eq!(groups, vec![strings(&["shortcut", "add", "pull", "git", "pull"])]);
    let groups = split_command_groups(&strings(&["info", "config", "log"]), &c);
    assert_eq!(groups, vec![strings(&["info"]), strings(&["config", "log"])]);
}

#[test]
fn groups_concatenate_back_to_commands() {
    let c = config_with(&[("st", "git status")]);
    let cmds = strings(&["st", "-s", "info", "last", "log", "-5", "git", "pull", "--rebase"]);
    let groups = split_command_groups(&cmds, &c);
    let flat: Vec<String> = groups.iter().flatten().cloned().collect();
    assert_eq!(flat, cmds);
    assert!(groups.iter().all(|g| !g.is_empty()));
    assert_eq!(groups.len(), 5);
}

#[test]
fn git_group_keeps_every_word() {
    let c = config_with(&[("st", "git status")]);
    let groups = split_command_groups(&strings(&["git", "log", "-1", "--oneline"]), &c);
    assert_eq!(groups, vec![strings(&["git", "log", "-1", "--oneline"])]);
    let groups = split_command_groups(&strings(&["st", "git", "pull", "st"]), &c);
    assert_eq!(groups, vec![strings(&["st"]), strings(&["git", "pull", "st"])]);
}

#[test]
fn groups_of_nothing() {
    let c = config_with(&[]);
    assert!(split_command_groups(&Vec::new(), &c).is_empty());
}

#[test]
fn log_count_default_and_last_wins() {
    assert_eq!(parse_log_count(&Vec::new()), 3);
    assert_eq!(parse_log_count(&strings(&["-5"])), 5);
    assert_eq!(parse_log_count(&strings(&["-5", "-10"])), 10);
    assert_eq!(parse_log_count(&strings(&["-0"])), 1);
    assert_eq!(parse_log_count(&strings(&["-x", "5", "-"])), 3);
    assert_eq!(parse_log_count(&strings(&["-+7"])), 7);
    assert_eq!(parse_log_count(&strings(&["-99999999999999999999999"])), 3);
}

#[test]
fn log_count_from_dash_n() {
    assert_eq!(parse_log_count(&strings(&["-n", "5"])), 5);
    assert_eq!(parse_log_count(&strings(&["-n", "0"])), 1);
    assert_eq!(parse_log_count(&strings(&["-n", "7", "-2"])), 2);
    assert_eq!(parse_log_count(&strings(&["-n"])), 3);
    assert_eq!(parse_log_count(&strings(&["-n", "x"])), 3);
}

#[test]
fn log_request_keeps_filters_for_git() {
    let (count, remote, extra) = parse_log_request(&strings(&[
        "-5", "--author", "rock", "--since", "2026-04-01", "--remote",
    ]));
    assert_eq!(count, 5);
    assert!(remote);
    assert_eq!(extra, strings(&["--author", "rock", "--since", "2026-04-01"]));
    let (count, remote, extra) = parse_log_request(&strings(&["-n", "x", "--until", "2026-04-09"]));
    assert_eq!(count, 3);
    assert!(!remote);
    assert_eq!(extra, strings(&["--until", "2026-04-09"]));
    let (count, _, extra) = parse_log_request(&strings(&["--author=ann", "--grep", "-5", "-2"]));
    assert_eq!(count, 2);
    assert_eq!(extra, strings(&["--author=ann", "--grep", "-5"]));
    let c = config_with(&[]);
    match dispatch_command(&c, &strings(&["last", "--remote", "--author", "ann"])) {
        Ok(Dispatch::Last { remote, extra }) => {
            assert!(remote);
            assert_eq!(extra, strings(&["--author", "ann"]));
        }
        _ => panic!("expected Last"),
    }
}

#[test]
fn shortcut_subcommands() {
    assert!(matches!(parse_shortcut_command(&Vec::new()), Err(CommandError::ShortcutUsage)));
    assert!(matches!(
        parse_shortcut_command(&strings(&["add", "pull"])),
        Err(CommandError::ShortcutAddUsage)
    ));
    match parse_shortcut_command(&strings(&["add", "pull", "git", "pull", "--rebase"])) {
        Ok(ShortcutCommand::Add { name, command }) => {
            assert_eq!(name, "pull");
            assert_eq!(command, "git pull --rebase");
        }
        _ => panic!("expected Add"),
    }
    assert!(matches!(parse_shortcut_command(&strings(&["rm"])), Err(CommandError::ShortcutRemoveUsage)));
    assert!(matches!(
        parse_shortcut_command(&strings(&["rm", "pull"])),
        Ok(ShortcutCommand::Remove { name }) if name == "pull"
    ));
    assert!(matches!(parse_shortcut_command(&strings(&["list"])), Ok(ShortcutCommand::List)));
    assert!(matches!(parse_shortcut_command(&strings(&["clear"])), Ok(ShortcutCommand::Clear)));
    match parse_shortcut_command(&strings(&["show"])) {
        Err(e) => assert_eq!(e.message(), "Unknown shortcut command 'show'. Use: add, rm, list, clear"),
        Ok(_) => panic!("expected an error"),
    }
}

#[test]
fn usage_messages() {
    assert_eq!(CommandError::ShortcutUsage.message(), "Usage: gx shortcut <add|rm|list> [args]");
    assert_eq!(
        CommandError::ShortcutAddUsage.message(),
        "Usage: gx shortcut add <name> \"git <command>\""
    );
    assert_eq!(CommandError::ShortcutRemoveUsage.message(), "Usage: gx shortcut rm <name>");
}

#[test]
fn dispatch_builtins() {
    let c = config_with(&[]);
    assert!(matches!(dispatch_command(&c, &strings(&["info"])), Ok(Dispatch::Info)));
    match dispatch_command(&c, &strings(&["last"])) {
        Ok(Dispatch::Last { remote, extra }) => {
            assert!(!remote);
            assert!(extra.is_empty());
        }
        _ => panic!("expected Last"),
    }
    match dispatch_command(&c, &strings(&["log", "-7"])) {
        Ok(Dispatch::Log { count, remote, extra }) => {
            assert_eq!(count, 7);
            assert!(!remote);
            assert!(extra.is_empty());
        }
        _ => panic!("expected Log"),
    }
    assert!(matches!(dispatch_command(&c, &strings(&["config"])), Ok(Dispatch::ShowConfig)));
    assert!(matches!(
        dispatch_command(&c, &strings(&["shortcut", "list"])),
        Ok(Dispatch::Shortcut(ShortcutCommand::List))
    ));
    match dispatch_command(&c, &strings(&["git", "pull", "origin", "main"])) {
        Ok(Dispatch::Git(a)) => assert_eq!(a, strings(&["pull", "origin", "main"])),
        _ => panic!("expected Git"),
    }
}

#[test]
fn dispatch_git_without_command() {
    let c = config_with(&[]);
    match dispatch_command(&c, &strings(&["git"])) {
        Err(e) => {
            assert!(matches!(e, CommandError::MissingGitCommand));
            assert_eq!(e.message(), "Missing git command. Usage: gx git <command> [args]");
        }
        _ => panic!("expected an error"),
    }
}

#[test]
fn dispatch_expands_shortcuts() {
    let c = config_with(&[("pull", "git pull"), ("bad", "pull --all"), ("info", "git status")]);
    match dispatch_command(&c, &strings(&["pull", "origin", "main"])) {
        Ok(Dispatch::Git(a)) => assert_eq!(a, strings(&["pull", "origin", "main"])),
        _ => panic!("expected Git"),
    }
    match dispatch_command(&c, &strings(&["bad"])) {
        Err(e) => assert_eq!(e.message(), "Shortcut 'bad' must expand to a git command"),
        _ => panic!("expected an error"),
    }
    // A built-in wins over a shortcut of the same name.
    assert!(matches!(dispatch_command(&c, &strings(&["info"])), Ok(Dispatch::Info)));
}

#[test]
fn dispatch_unknown_command() {
    let c = config_with(&[]);
    match dispatch_command(&c, &strings(&["frobnicate"])) {
        Err(e) => assert_eq!(
            e.message(),
            "Unknown command 'frobnicate'. Available: info, config, shortcut, git, <shortcut_name>"
        ),
        _ => panic!("expected an error"),
    }
}

#[test]
fn log_request_ignores_gx_options() {
    let (count, remote, extra) =
        parse_log_request(&strings(&["--depth", "5", "--remote", "--branch", "-7", "--dry-run", "--oneline"]));
    assert_eq!(count, 3);
    assert!(remote);
    assert!(extra.is_empty());
    let (count, _, extra) = parse_log_request(&strings(&["-d", "2", "-p", "/src", "-4"]));
    assert_eq!(count, 4);
    assert!(extra.is_empty());
}
