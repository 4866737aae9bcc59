use gx::git::{CommitInfo, RepoStatus};
use gx::report::{
    commit_string, dry_run_line, filter_repos_by_branch, info_lines, last_lines, log_lines,
    progress_label, repo_heading, run_preamble, stopped_line, summary_lines, RunTally,
};

fn strings(items: &[&str]) -> Vec<String> {
    items.iter().map(|s| s.to_string()).collect()
}

fn status(branch: Option<&str>, dirty: bool, ahead: usize, behind: usize) -> RepoStatus {
    RepoStatus {
        branch: branch.map(|b| b.to_string()),
        is_dirty: dirty,
        ahead,
        behind,
        modified: 0,
        deleted: 0,
        added: 0,
    }
}

fn commit(hash: &str, author: &str, date: &str, message: &str) -> CommitInfo {
    CommitInfo {
        hash: hash.to_string(),
        author: author.to_string(),
        date: date.to_string(),
        message: message.to_string(),
    }
}

#[test]
fn branch_filter_keeps_matching_indices() {
    let branches = vec![Some("main".to_string()), None, Some("dev".to_string()), Some("main".to_string())];
    assert_eq!(filter_repos_by_branch(4, &branches, &Some("main".to_string())), vec![0, 3]);
    assert_eq!(filter_repos_by_branch(4, &branches, &Some("feature".to_string())), Vec::<usize>::new());
}

#[test]
fn no_branch_filter_keeps_everything() {
    assert_eq!(filter_repos_by_branch(3, &Vec::new(), &None), vec![0, 1, 2]);
    assert_eq!(filter_repos_by_branch(0, &Vec::new(), &None), Vec::<usize>::new());
}

#[test]
fn tally_counts_and_stops_on_error() {
    let mut t = RunTally::new(3);
    assert!(t.record(true, true));
    assert!(!t.record(false, true));
    assert_eq!((t.total, t.succeeded, t.failed), (3, 1, 1));
    let mut t = RunTally::new(2);
    assert!(t.record(false, false));
    assert!(t.record(true, false));
    assert_eq!((t.succeeded, t.failed), (1, 1));
}

#[test]
fn summary_of_clean_run() {
    let mut t = RunTally::new(2);
    t.record(true, false);
    t.record(true, false);
    assert_eq!(
        summary_lines(&t, false),
        vec!["\x1b[32m\u{2713}\x1b[0m Summary: \x1b[36m2\x1b[0m processed, \x1b[32m2\x1b[0m succeeded, \x1b[31m0\x1b[0m failed".to_string()]
    );
}

#[test]
fn summary_of_stopped_run_counts_skipped() {
    let mut t = RunTally::new(5);
    t.record(true, true);
    t.record(false, true);
    assert_eq!(
        summary_lines(&t, false),
        vec![
            "\x1b[33m\u{26a0}\x1b[0m Summary: \x1b[36m2\x1b[0m processed, \x1b[32m1\x1b[0m succeeded, \x1b[31m1\x1b[0m failed".to_string(),
            "\x1b[33m  3 repositories skipped (stopped early)\x1b[0m".to_string(),
        ]
    );
}

#[test]
fn summary_of_dry_run() {
    let t = RunTally::new(4);
    assert_eq!(
        summary_lines(&t, true),
        vec!["\x1b[33m[DRY RUN] Summary: 4 repositories would be affected\x1b[0m".to_string()]
    );
}

#[test]
fn headings_and_progress() {
    assert_eq!(
        repo_heading("  ", "./a", &Some("main".to_string())),
        "  \u{1f4c1} ./a => \x1b[36mmain\x1b[0m"
    );
    assert_eq!(repo_heading("[1/2] ", "./b", &None), "[1/2] \u{1f4c1} ./b");
    assert_eq!(progress_label(0, 2), "[1/2] ");
    assert_eq!(progress_label(9, 10), "[10/10] ");
}

#[test]
fn dry_run_and_stop_lines() {
    assert_eq!(
        dry_run_line(&strings(&["pull", "--rebase"]), "./a"),
        "  [DRY RUN] Would execute: git pull --rebase in ./a"
    );
    assert_eq!(
        stopped_line("./a"),
        "\x1b[31m\u{2717} Stopped at ./a (default: continue on error, use --stop-on-error to stop)\x1b[0m"
    );
}

#[test]
fn info_table_aligns_columns() {
    let infos = vec![
        ("/a/repo1".to_string(), status(Some("main"), false, 0, 0)),
        ("/b/r2".to_string(), status(None, false, 0, 0)),
        ("/c/r3".to_string(), status(Some("dev"), true, 2, 1)),
    ];
    let lines = info_lines(&infos, &None);
    assert_eq!(lines.len(), 5);
    assert_eq!(
        lines[0],
        "  \u{1f4c1} /a/repo1  \x1b[36mmain\x1b[0m      \x1b[32m\u{2713} clean\x1b[0m     \u{2191}0 \u{2193}0"
    );
    assert_eq!(
        lines[1],
        "  \u{1f4c1} /b/r2     \x1b[90mdetached\x1b[0m  \x1b[31m\u{2717} detached\x1b[0m  "
    );
    assert_eq!(
        lines[2],
        "  \u{1f4c1} /c/r3     \x1b[36mdev\x1b[0m       \x1b[33m\u{26a0} dirty\x1b[0m    \u{2191}2 \u{2193}1"
    );
    assert_eq!(lines[3], "");
    assert_eq!(
        lines[4],
        "  Total: 3 repos | \x1b[33m1 dirty\x1b[0m | \x1b[32m1 ahead\x1b[0m | \x1b[31m1 behind\x1b[0m"
    );
}

#[test]
fn info_table_minimum_widths_and_filter() {
    let infos = vec![
        ("./x".to_string(), status(Some("ab"), false, 0, 0)),
        ("./longer".to_string(), status(Some("other"), false, 0, 0)),
    ];
    let lines = info_lines(&infos, &Some("ab".to_string()));
    assert_eq!(
        lines,
        vec![
            "  \u{1f4c1} ./x     \x1b[36mab\x1b[0m      \x1b[32m\u{2713} clean\x1b[0m     \u{2191}0 \u{2193}0".to_string(),
            String::new(),
            "  Total: 1 repos".to_string(),
        ]
    );
}

#[test]
fn info_table_without_match() {
    let infos = vec![("./x".to_string(), status(Some("main"), false, 0, 0))];
    assert_eq!(
        info_lines(&infos, &Some("dev".to_string())),
        vec!["No git repositories matching branch 'dev'.".to_string()]
    );
    assert_eq!(info_lines(&Vec::new(), &None), vec!["No git repositories matching branch ''.".to_string()]);
}

#[test]
fn commit_display() {
    let c = commit("abc1234", "Ann", "2024-01-02 10:00", "Fix");
    assert_eq!(
        commit_string(&c),
        "\x1b[33mabc1234\x1b[0m  \x1b[36mAnn\x1b[0m  \x1b[90m2024-01-02 10:00\x1b[0m  Fix"
    );
}

#[test]
fn last_listing_pads_paths() {
    let paths = strings(&["./a", "./longer/path"]);
    let commits = vec![Some(commit("h", "A", "D", "m")), None];
    let lines = last_lines(&paths, &commits);
    assert_eq!(
        lines,
        vec![
            "  \u{1f4c1} ./a            \x1b[33mh\x1b[0m  \x1b[36mA\x1b[0m  \x1b[90mD\x1b[0m  m".to_string(),
            "  \u{1f4c1} ./longer/path  \x1b[90m(no commits)\x1b[0m".to_string(),
        ]
    );
    let lines = last_lines(&strings(&["./a"]), &vec![None]);
    assert_eq!(lines, vec!["  \u{1f4c1} ./a     \x1b[90m(no commits)\x1b[0m".to_string()]);
}

#[test]
fn log_listing() {
    let commits = vec![commit("h1", "A", "D1", "one"), commit("h2", "B", "D2", "two")];
    assert_eq!(
        log_lines("./r", &commits),
        vec![
            "  \u{1f4c1} ./r:".to_string(),
            "    \x1b[33mh1\x1b[0m  \x1b[36mA\x1b[0m  \x1b[90mD1\x1b[0m  one".to_string(),
            "    \x1b[33mh2\x1b[0m  \x1b[36mB\x1b[0m  \x1b[90mD2\x1b[0m  two".to_string(),
            String::new(),
        ]
    );
    assert_eq!(log_lines("./r", &Vec::new()), vec!["  \u{1f4c1} ./r  \x1b[90m(no commits)\x1b[0m".to_string()]);
}

#[test]
fn run_preamble_lines() {
    assert_eq!(
        run_preamble(".", 3, &None, &strings(&["pull"]), false),
        vec![
            "Searching for git repositories in: .".to_string(),
            "Max depth: 3".to_string(),
            "Command: git pull\n".to_string(),
        ]
    );
    assert_eq!(
        run_preamble("/src", 5, &Some("main".to_string()), &strings(&["log", "-1"]), true),
        vec![
            "Searching for git repositories in: /src".to_string(),
            "Max depth: 5".to_string(),
            "Branch filter: main".to_string(),
            "Command: git log -1\n".to_string(),
            "\x1b[33m[DRY RUN] Showing what would be done without executing\x1b[0m\n".to_string(),
        ]
    );
}

#[test]
fn run_over_outcomes_stops_at_first_failure() {
    let outcomes = [true, true, false, true, false];
    let run = |stop: bool| {
        let mut t = RunTally::new(outcomes.len());
        for ok in outcomes {
            if !t.record(ok, stop) {
                break;
            }
        }
        t
    };
    let stopped = run(true);
    assert_eq!((stopped.succeeded, stopped.failed), (2, 1));
    assert_eq!(
        summary_lines(&stopped, false)[1],
        "\x1b[33m  2 repositories skipped (stopped early)\x1b[0m"
    );
    let full = run(false);
    assert_eq!((full.succeeded, full.failed), (3, 2));
    assert_eq!(summary_lines(&full, false).len(), 1);
}
