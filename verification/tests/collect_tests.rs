use gx::collect::{compile_exclude_regexes, should_skip_dir};
use gx::config::{Config, ExcludePatterns};
use gx::shortcut_map::ShortcutMap;

fn strings(items: &[&str]) -> Vec<String> {
    items.iter().map(|s| s.to_string()).collect()
}

fn excluding(names: &[&str], globs: &[&str], regexes: &[&str]) -> Config {
    Config {
        default_depth: Some(3),
        exclude: ExcludePatterns {
            names: strings(names),
            globs: strings(globs),
            regexes: strings(regexes),
        },
        shortcuts: ShortcutMap::new(),
    }
}

#[test]
fn root_dot_is_never_skipped() {
    let c = excluding(&["."], &["*"], &[]);
    let rx = compile_exclude_regexes(&c).unwrap();
    assert!(!should_skip_dir(".", Some("."), &c, &rx));
}

#[test]
fn hidden_directories_skipped_except_git() {
    let c = excluding(&[], &[], &[]);
    let rx = Vec::new();
    assert!(should_skip_dir(".cache", Some("/r/.cache"), &c, &rx));
    assert!(should_skip_dir(".github", Some("/r/.github"), &c, &rx));
    assert!(!should_skip_dir(".git", Some("/r/.git"), &c, &rx));
}

#[test]
fn builtin_directories_skipped() {
    let c = excluding(&[], &[], &[]);
    let rx = Vec::new();
    for name in ["node_modules", "target", "vendor", "dist", "build", "cache", "tmp", "temp"] {
        assert!(should_skip_dir(name, Some(&format!("/r/{}", name)), &c, &rx), "{}", name);
    }
    assert!(!should_skip_dir("src", Some("/r/src"), &c, &rx));
    assert!(!should_skip_dir("Target", Some("/r/Target"), &c, &rx));
}

#[test]
fn excluded_names_match_name_or_path() {
    let c = excluding(&["legacy", "work/old", "C:\\repos\\big"], &[], &[]);
    let rx = Vec::new();
    assert!(should_skip_dir("legacy", Some("/home/u/legacy"), &c, &rx));
    assert!(should_skip_dir("old", Some("/home/u/work/old"), &c, &rx));
    assert!(should_skip_dir("x", Some("work/old/x"), &c, &rx));
    assert!(should_skip_dir("big", Some("C:/repos/big"), &c, &rx));
    assert!(should_skip_dir("sub", Some("C:\\repos\\big\\sub"), &c, &rx));
    assert!(!should_skip_dir("older", Some("/home/u/work/older"), &c, &rx));
    assert!(!should_skip_dir("old", None, &excluding(&["work/old"], &[], &[]), &rx));
}

#[test]
fn glob_patterns_match_full_path() {
    let c = excluding(&[], &["**/archive-*", "["], &[]);
    let rx = Vec::new();
    assert!(should_skip_dir("archive-2020", Some("/home/u/archive-2020"), &c, &rx));
    assert!(!should_skip_dir("archive", Some("/home/u/archive"), &c, &rx));
    assert!(!should_skip_dir("archive-2020", None, &c, &rx));
}

#[test]
fn regexes_match_name_or_path() {
    let c = excluding(&[], &[], &["^gen", "/third_party/"]);
    let rx = compile_exclude_regexes(&c).unwrap();
    assert_eq!(rx.len(), 2);
    assert!(should_skip_dir("generated", Some("/r/generated"), &c, &rx));
    assert!(should_skip_dir("lib", Some("/r/third_party/lib"), &c, &rx));
    assert!(!should_skip_dir("lib", Some("/r/src/lib"), &c, &rx));
    assert!(!should_skip_dir("regen", None, &c, &rx));
}

#[test]
fn invalid_regex_is_reported() {
    let c = excluding(&[], &[], &["ok", "(", "[z"]);
    let err = compile_exclude_regexes(&c).err().unwrap();
    assert_eq!(err.pattern, "(");
    assert_eq!(err.message(), "Invalid regex pattern: (");
}

#[test]
fn no_regexes_compile_to_nothing() {
    let c = excluding(&[], &[], &[]);
    assert!(compile_exclude_regexes(&c).unwrap().is_empty());
}
