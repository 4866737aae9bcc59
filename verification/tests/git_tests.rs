use gx::git::{
    ahead_behind_from_text, branch_from_text, log_ref, commits_from_text, marked_error,
    porcelain_from_text, upstream_from_text, ahead_behind_args, current_branch_args, get_ahead_behind, get_commits, get_commits_from_ref,
    get_current_branch, get_latest_commit, get_repo_status, get_upstream_branch,
    parse_porcelain_status, porcelain_status_args, report_git_output, upstream_branch_args,
    CommandOutput,
};

fn ok(stdout: &str) -> CommandOutput {
    CommandOutput { success: true, stdout: stdout.as_bytes().to_vec(), stderr: Vec::new() }
}

fn failed(stdout: &str, stderr: &str) -> CommandOutput {
    CommandOutput {
        success: false,
        stdout: stdout.as_bytes().to_vec(),
        stderr: stderr.as_bytes().to_vec(),
    }
}

fn strings(items: &[&str]) -> Vec<String> {
    items.iter().map(|s| s.to_string()).collect()
}

#[test]
fn branch_question_arguments() {
    assert_eq!(current_branch_args(), strings(&["rev-parse", "--abbrev-ref", "HEAD"]));
    assert_eq!(upstream_branch_args(), strings(&["rev-parse", "--abbrev-ref", "@{upstream}"]));
    assert_eq!(
        ahead_behind_args(),
        strings(&["rev-list", "--count", "--left-right", "@{upstream}...HEAD"])
    );
    assert_eq!(porcelain_status_args(), strings(&["status", "--porcelain=v1"]));
}

#[test]
fn current_branch_is_trimmed_output() {
    assert_eq!(get_current_branch(&ok("main\n")), Some("main".to_string()));
    assert_eq!(get_current_branch(&ok("  feature/x \r\n")), Some("feature/x".to_string()));
}

#[test]
fn current_branch_absent_when_detached_empty_or_failed() {
    assert_eq!(get_current_branch(&ok("HEAD\n")), None);
    assert_eq!(get_current_branch(&ok("   \n")), None);
    assert_eq!(get_current_branch(&ok("")), None);
    assert_eq!(get_current_branch(&failed("main\n", "fatal")), None);
}

#[test]
fn upstream_branch_keeps_head_but_not_empty() {
    assert_eq!(get_upstream_branch(&ok("origin/main\n")), Some("origin/main".to_string()));
    assert_eq!(get_upstream_branch(&ok("HEAD\n")), Some("HEAD".to_string()));
    assert_eq!(get_upstream_branch(&ok("\n")), None);
    assert_eq!(get_upstream_branch(&failed("origin/main", "no upstream")), None);
}

#[test]
fn ahead_behind_reads_behind_then_ahead() {
    assert_eq!(get_ahead_behind(&ok("3\t5\n")), (5, 3));
    assert_eq!(get_ahead_behind(&ok("0 0")), (0, 0));
    assert_eq!(get_ahead_behind(&ok("  12   7  \n")), (7, 12));
}

#[test]
fn ahead_behind_single_number_is_behind() {
    assert_eq!(get_ahead_behind(&ok("4\n")), (0, 4));
    assert_eq!(get_ahead_behind(&ok("x\n")), (0, 0));
}

#[test]
fn ahead_behind_bad_numbers_count_as_zero() {
    assert_eq!(get_ahead_behind(&ok("a\t5")), (5, 0));
    assert_eq!(get_ahead_behind(&ok("3\t-1")), (0, 3));
    assert_eq!(get_ahead_behind(&ok("1 2 3")), (0, 0));
    assert_eq!(get_ahead_behind(&ok("")), (0, 0));
    assert_eq!(get_ahead_behind(&failed("3\t5", "")), (0, 0));
}

#[test]
fn porcelain_counts_each_line_once() {
    let out = ok(" M src/a.rs\nM  src/b.rs\n D gone.rs\n?? new.rs\nA  staged.rs\nR  old -> new\nUU conflict\n");
    assert_eq!(parse_porcelain_status(&out), (true, 4, 1, 2));
}

#[test]
fn porcelain_added_wins_over_deleted_and_modified() {
    assert_eq!(parse_porcelain_status(&ok("AD both\n")), (true, 0, 0, 1));
    assert_eq!(parse_porcelain_status(&ok("MD both\n")), (true, 0, 1, 0));
    assert_eq!(parse_porcelain_status(&ok("AM both\n")), (true, 0, 0, 1));
}

#[test]
fn porcelain_clean_and_failed() {
    assert_eq!(parse_porcelain_status(&ok("")), (false, 0, 0, 0));
    assert_eq!(parse_porcelain_status(&ok("\n   \n")), (false, 0, 0, 0));
    assert_eq!(parse_porcelain_status(&ok("!! ignored\n")), (false, 0, 0, 0));
    assert_eq!(parse_porcelain_status(&ok("   \n")), (false, 0, 0, 0));
    assert_eq!(parse_porcelain_status(&ok(" \t\n\t \n")), (false, 0, 0, 0));
    assert_eq!(parse_porcelain_status(&failed(" M a", "fatal")), (false, 0, 0, 0));
}

#[test]
fn porcelain_handles_crlf_and_short_lines() {
    assert_eq!(parse_porcelain_status(&ok(" M a\r\nM\r\n")), (true, 1, 0, 0));
    assert_eq!(parse_porcelain_status(&ok("\u{e9}M x\n")), (false, 0, 0, 0));
}

#[test]
fn repo_status_combines_three_answers() {
    let status = get_repo_status(&ok("dev\n"), &ok("1\t2\n"), &ok(" M a\n?? b\n"));
    assert_eq!(status.branch, Some("dev".to_string()));
    assert_eq!((status.ahead, status.behind), (2, 1));
    assert!(status.is_dirty);
    assert_eq!((status.modified, status.deleted, status.added), (1, 0, 1));
}

#[test]
fn log_arguments_put_extra_before_ref() {
    let args = get_commits_from_ref(5, "origin/main", &strings(&["--author=bob"]));
    assert_eq!(
        args,
        strings(&[
            "log",
            "-5",
            "--format=%h|%an|%ad|%s",
            "--date=format:%Y-%m-%d %H:%M",
            "--author=bob",
            "origin/main",
        ])
    );
    let args = get_commits_from_ref(120, "HEAD", &Vec::new());
    assert_eq!(args[1], "-120");
    assert_eq!(args.len(), 5);
    assert_eq!(args[4], "HEAD");
}

#[test]
fn commits_split_into_four_fields() {
    let out = ok("abc123|Ann|2024-01-02 10:00|Fix: a|b\n\n  def456|Bob|2024-01-01 09:30|Start  \nbroken line\n");
    let commits = get_commits(&out);
    assert_eq!(commits.len(), 2);
    assert_eq!(commits[0].hash, "abc123");
    assert_eq!(commits[0].author, "Ann");
    assert_eq!(commits[0].date, "2024-01-02 10:00");
    assert_eq!(commits[0].message, "Fix: a|b");
    assert_eq!(commits[1].hash, "def456");
    assert_eq!(commits[1].message, "Start");
}

#[test]
fn commits_empty_on_failure() {
    assert!(get_commits(&failed("abc|a|d|m\n", "fatal")).is_empty());
    assert!(get_commits(&ok("")).is_empty());
}

#[test]
fn latest_commit_is_first() {
    let c = get_latest_commit(&ok("h1|A|D|first\nh2|B|E|second\n")).unwrap();
    assert_eq!(c.hash, "h1");
    assert_eq!(c.message, "first");
    assert!(get_latest_commit(&ok("no fields\n")).is_none());
}

#[test]
fn report_of_successful_command() {
    let r = report_git_output(&ok("Already up to date.\n"));
    assert_eq!(r.stdout, Some("Already up to date.\n".to_string()));
    assert_eq!(r.stderr, None);
    assert!(r.blank_line);
    assert!(!r.failed);
    let r = report_git_output(&CommandOutput { success: true, stdout: Vec::new(), stderr: b"note\n".to_vec() });
    assert_eq!(r.stderr, Some("note\n".to_string()));
}

#[test]
fn report_of_failed_command_marks_error() {
    let r = report_git_output(&failed("", "fatal: bad\n"));
    assert_eq!(r.stdout, None);
    assert_eq!(r.stderr, Some("  \x1b[31m\u{2717} Error:\x1b[0m fatal: bad\n".to_string()));
    assert!(r.blank_line);
    assert!(r.failed);
}

#[test]
fn report_of_silent_command_has_no_blank_line() {
    let r = report_git_output(&ok(""));
    assert!(!r.blank_line);
    assert!(r.stdout.is_none() && r.stderr.is_none());
    let r = report_git_output(&failed("", ""));
    assert!(!r.blank_line);
    assert!(r.failed);
}

#[test]
fn invalid_utf8_is_replaced() {
    let out = CommandOutput { success: true, stdout: vec![b'm', 0xff, b'n'], stderr: Vec::new() };
    assert_eq!(get_current_branch(&out), Some("m\u{fffd}n".to_string()));
}

#[test]
fn readers_of_answer_text() {
    assert_eq!(branch_from_text(" main \n"), Some("main".to_string()));
    assert_eq!(branch_from_text("HEAD"), None);
    assert_eq!(upstream_from_text("origin/dev\n"), Some("origin/dev".to_string()));
    assert_eq!(upstream_from_text(""), None);
    assert_eq!(ahead_behind_from_text("2 9"), (9, 2));
    assert_eq!(porcelain_from_text("?? x\n D y\n"), (true, 0, 1, 1));
    let commits = commits_from_text("a|b|c|d|e\n");
    assert_eq!(commits.len(), 1);
    assert_eq!(commits[0].message, "d|e");
    assert_eq!(marked_error("boom"), "  \x1b[31m\u{2717} Error:\x1b[0m boom");
}

#[test]
fn porcelain_other_codes_count_as_changes() {
    assert_eq!(parse_porcelain_status(&ok(" T run.sh\n")), (true, 1, 0, 0));
    assert_eq!(parse_porcelain_status(&ok("C  a -> b\n")), (true, 1, 0, 0));
}

#[test]
fn log_ref_choice() {
    assert_eq!(log_ref(false, &Some("origin/main".to_string())), Some("HEAD".to_string()));
    assert_eq!(log_ref(true, &Some("origin/main".to_string())), Some("origin/main".to_string()));
    assert_eq!(log_ref(true, &None), None);
}
