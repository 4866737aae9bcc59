//! What `gx` asks git and how it reads git's answers.
use vstd::prelude::*;
use crate::color::{c, colored, Color};
use crate::text::{
    decimal, lines, lines_of, parse_usize, parse_usize_chars, split_once, split_once_chars,
    text_from_bytes, to_chars, to_string, trim, trim_chars, usize_to_string, utf8_lossy, views,
    lemma_split_once_first, is_ws, is_whitespace, lemma_trim_empty_all_ws,
    words, words_of, from_chars, chars_eq,
};

verus! {

/// What a finished git process left behind. A process that could not be
/// started counts as unsuccessful with no output.
pub struct CommandOutput {
    pub success: bool,
    pub stdout: Vec<u8>,
    pub stderr: Vec<u8>,
}

impl CommandOutput {
    /// The text of the standard output.
    pub open spec fn stdout_text(&self) -> Seq<char> {
        utf8_lossy(self.stdout@)
    }

    /// The text of the standard error.
    pub open spec fn stderr_text(&self) -> Seq<char> {
        utf8_lossy(self.stderr@)
    }
}

// ---------------------------------------------------------------------------
// Branches
// ---------------------------------------------------------------------------

/// The branch that `git rev-parse --abbrev-ref HEAD` reports: none on
/// failure, for an empty answer, or for a detached `HEAD`.
pub open spec fn branch_from(success: bool, text: Seq<char>) -> Option<Seq<char>> {
    if !success {
        None
    } else {
        let b = trim(text);
        if b.len() == 0 || b == "HEAD"@ {
            None
        } else {
            Some(b)
        }
    }
}

/// The upstream that `git rev-parse --abbrev-ref @{upstream}` reports: none
/// on failure or for an empty answer.
pub open spec fn upstream_from(success: bool, text: Seq<char>) -> Option<Seq<char>> {
    if !success {
        None
    } else {
        let b = trim(text);
        if b.len() == 0 {
            None
        } else {
            Some(b)
        }
    }
}

pub open spec fn opt_view(o: Option<String>) -> Option<Seq<char>> {
    match o {
        Some(s) => Some(s@),
        None => None,
    }
}

/// The arguments that ask git for the current branch.
pub fn current_branch_args() -> (r: Vec<String>)
    ensures
        views(r@) == seq!["rev-parse"@, "--abbrev-ref"@, "HEAD"@],
{
    let r = vec![to_string("rev-parse"), to_string("--abbrev-ref"), to_string("HEAD")];
    assert(views(r@) =~= seq!["rev-parse"@, "--abbrev-ref"@, "HEAD"@]);
    r
}

/// The branch named by the text of a successful
/// `git rev-parse --abbrev-ref HEAD`.
pub fn branch_from_text(text: &str) -> (r: Option<String>)
    ensures
        opt_view(r) == branch_from(true, text@),
{
    let branch = trim_chars(&to_chars(text));
    if branch.len() == 0 || chars_eq(&branch, &to_chars("HEAD")) {
        None
    } else {
        Some(from_chars(&branch))
    }
}

/// Get the current branch name of a git repository, from the output of
/// `git rev-parse --abbrev-ref HEAD`.
pub fn get_current_branch(output: &CommandOutput) -> (r: Option<String>)
    ensures
        opt_view(r) == branch_from(output.success, output.stdout_text()),
{
    if !output.success {
        return None;
    }
    branch_from_text(text_from_bytes(&output.stdout).as_str())
}

/// The arguments that ask git for the upstream branch.
pub fn upstream_branch_args() -> (r: Vec<String>)
    ensures
        views(r@) == seq!["rev-parse"@, "--abbrev-ref"@, "@{upstream}"@],
{
    let r = vec![to_string("rev-parse"), to_string("--abbrev-ref"), to_string("@{upstream}")];
    assert(views(r@) =~= seq!["rev-parse"@, "--abbrev-ref"@, "@{upstream}"@]);
    r
}

/// Get the upstream tracking branch name (e.g. "origin/main"), from the
/// output of `git rev-parse --abbrev-ref @{upstream}`.
pub fn get_upstream_branch(output: &CommandOutput) -> (r: Option<String>)
    ensures
        opt_view(r) == upstream_from(output.success, output.stdout_text()),
{
    if !output.success {
        return None;
    }
    upstream_from_text(text_from_bytes(&output.stdout).as_str())
}

/// The upstream named by the text of a successful
/// `git rev-parse --abbrev-ref @{upstream}`.
pub fn upstream_from_text(text: &str) -> (r: Option<String>)
    ensures
        opt_view(r) == upstream_from(true, text@),
{
    let branch = trim_chars(&to_chars(text));
    if branch.len() == 0 {
        None
    } else {
        Some(from_chars(&branch))
    }
}

// ---------------------------------------------------------------------------
// Ahead / behind
// ---------------------------------------------------------------------------

pub open spec fn usize_or_zero(p: Option<usize>) -> usize {
    match p {
        Some(n) => n,
        None => 0,
    }
}

/// (ahead, behind) from `git rev-list --count --left-right @{upstream}...HEAD`,
/// which prints the behind count, then the ahead count.
pub open spec fn ahead_behind_from(success: bool, text: Seq<char>) -> (usize, usize) {
    if !success {
        (0, 0)
    } else {
        let parts = words(trim(text));
        if parts.len() == 2 {
            (usize_or_zero(parse_usize(parts[1])), usize_or_zero(parse_usize(parts[0])))
        } else if parts.len() == 1 && parse_usize(parts[0]) is Some {
            (0, parse_usize(parts[0])->0)
        } else {
            (0, 0)
        }
    }
}

/// The arguments that ask git how far the branch is from its upstream.
pub fn ahead_behind_args() -> (r: Vec<String>)
    ensures
        views(r@) == seq!["rev-list"@, "--count"@, "--left-right"@, "@{upstream}...HEAD"@],
{
    let r = vec![
        to_string("rev-list"),
        to_string("--count"),
        to_string("--left-right"),
        to_string("@{upstream}...HEAD"),
    ];
    assert(views(r@) =~= seq!["rev-list"@, "--count"@, "--left-right"@, "@{upstream}...HEAD"@]);
    r
}

/// Get ahead/behind counts relative to upstream
pub fn get_ahead_behind(output: &CommandOutput) -> (r: (usize, usize))
    ensures
        r == ahead_behind_from(output.success, output.stdout_text()),
{
    if !output.success {
        return (0, 0);
    }
    ahead_behind_from_text(text_from_bytes(&output.stdout).as_str())
}

/// (ahead, behind) read from the text of a successful
/// `git rev-list --count --left-right @{upstream}...HEAD`.
pub fn ahead_behind_from_text(text: &str) -> (r: (usize, usize))
    ensures
        r == ahead_behind_from(true, text@),
{
    let parts = words_of(&trim_chars(&to_chars(text)));
    if parts.len() == 2 {
        let behind = match parse_usize_chars(&parts[0]) {
            Some(n) => n,
            None => 0,
        };
        let ahead = match parse_usize_chars(&parts[1]) {
            Some(n) => n,
            None => 0,
        };
        return (ahead, behind);
    }
    if parts.len() == 1 {
        match parse_usize_chars(&parts[0]) {
            Some(n) => {
                return (0, n);
            },
            None => {},
        }
    }
    (0, 0)
}

// ---------------------------------------------------------------------------
// Working tree status
// ---------------------------------------------------------------------------

pub open spec fn is_ascii_char(c: char) -> bool {
    c <= '\x7f'
}

/// A porcelain line `XY path` carries status `ch` in X or in Y. The codes
/// are read from the first two bytes of the line, so Y is only seen when X
/// is a one-byte character.
pub open spec fn has_code(l: Seq<char>, ch: char) -> bool {
    l[0] == ch || (is_ascii_char(l[0]) && l[1] == ch)
}

/// A status letter of a porcelain line that marks a change: any ASCII
/// character but whitespace (a space marks no change) and `!` (ignored).
pub open spec fn is_change_code(c: char) -> bool {
    is_ascii_char(c) && !is_ws(c) && c != '!'
}

/// A porcelain line `XY path` reports a change in X or in Y (Y is read only
/// when X is a one-byte character).
pub open spec fn has_change(l: Seq<char>) -> bool {
    is_change_code(l[0]) || (is_ascii_char(l[0]) && is_change_code(l[1]))
}

/// How one porcelain line counts: 1 added (or untracked), 2 deleted,
/// 3 modified (renamed, copied, type-changed, unmerged and any other
/// change), 0 not counted.
pub open spec fn line_kind(l: Seq<char>) -> int {
    if l.len() < 2 {
        0
    } else if has_code(l, 'A') || has_code(l, '?') {
        1
    } else if has_code(l, 'D') {
        2
    } else if has_change(l) {
        3
    } else {
        0
    }
}

/// Number of lines of the given kind.
pub open spec fn count_kind(ls: Seq<Seq<char>>, kind: int) -> nat
    decreases ls.len(),
{
    if ls.len() == 0 {
        0
    } else {
        count_kind(ls.drop_last(), kind) + if line_kind(ls.last()) == kind {
            1nat
        } else {
            0nat
        }
    }
}

/// (dirty, modified, deleted, added) from `git status --porcelain=v1`.
pub open spec fn porcelain_from(success: bool, text: Seq<char>) -> (bool, nat, nat, nat) {
    if !success {
        (false, 0, 0, 0)
    } else {
        let ls = lines(text);
        let m = count_kind(ls, 3);
        let d = count_kind(ls, 2);
        let a = count_kind(ls, 1);
        (m > 0 || d > 0 || a > 0, m, d, a)
    }
}

/// How a porcelain line `XY path` counts, by its status letters X and Y
/// (Y read only when X is a one-byte character): added when either is `A`
/// or `?`; else deleted when either is `D`; else modified when either is
/// any other ASCII character but whitespace and `!`; else not at all. A
/// line shorter than two characters does not count.
pub proof fn law_porcelain_line_kinds(l: Seq<char>)
    ensures
        l.len() < 2 ==> line_kind(l) == 0,
        l.len() >= 2 ==> ((line_kind(l) == 1) <==> (l[0] == 'A' || l[0] == '?' || (l[0] <= '\x7f' && (
        l[1] == 'A' || l[1] == '?')))),
        l.len() >= 2 ==> ((line_kind(l) == 2) <==> (!(l[0] == 'A' || l[0] == '?' || (l[0] <= '\x7f'
            && (l[1] == 'A' || l[1] == '?'))) && (l[0] == 'D' || (l[0] <= '\x7f' && l[1] == 'D')))),
        l.len() >= 2 ==> ((line_kind(l) == 3) <==> (!(l[0] == 'A' || l[0] == '?' || (l[0] <= '\x7f'
            && (l[1] == 'A' || l[1] == '?'))) && !(l[0] == 'D' || (l[0] <= '\x7f' && l[1] == 'D'))
            && ((l[0] <= '\x7f' && !is_ws(l[0]) && l[0] != '!') || (l[0] <= '\x7f' && l[1]
            <= '\x7f' && !is_ws(l[1]) && l[1] != '!')))),
{
}

/// A line that is blank once trimmed counts for nothing, as a blank line of
/// the answer is skipped.
pub proof fn law_blank_line_not_counted(l: Seq<char>)
    requires
        trim(l).len() == 0,
    ensures
        line_kind(l) == 0,
{
    if l.len() >= 2 {
        lemma_trim_empty_all_ws(l);
        assert(is_ws(l[0]) && is_ws(l[1]));
    }
}

/// A line counts exactly when it reports a change.
pub open spec fn reports_change(l: Seq<char>) -> bool {
    l.len() >= 2 && has_change(l)
}

proof fn lemma_counted_lines(ls: Seq<Seq<char>>)
    ensures
        (count_kind(ls, 1) > 0 || count_kind(ls, 2) > 0 || count_kind(ls, 3) > 0) <==> exists|i: int|
            0 <= i < ls.len() && reports_change(#[trigger] ls[i]),
    decreases ls.len(),
{
    if ls.len() > 0 {
        let init = ls.drop_last();
        lemma_counted_lines(init);
        let l = ls.last();
        assert(line_kind(l) != 0 <==> reports_change(l));
        if exists|i: int| 0 <= i < init.len() && reports_change(#[trigger] init[i]) {
            let i = choose|i: int| 0 <= i < init.len() && reports_change(#[trigger] init[i]);
            assert(ls[i] == init[i]);
        }
        if reports_change(l) {
            assert(ls[ls.len() - 1] == l);
        }
        if exists|i: int| 0 <= i < ls.len() && reports_change(#[trigger] ls[i]) {
            let i = choose|i: int| 0 <= i < ls.len() && reports_change(#[trigger] ls[i]);
            if i < ls.len() - 1 {
                assert(init[i] == ls[i]);
            }
        }
    }
}

/// A repository is dirty exactly when a line of its status reports a
/// change of any kind.
pub proof fn law_dirty_iff_changed(text: Seq<char>)
    ensures
        porcelain_from(true, text).0 <==> exists|i: int|
            0 <= i < lines(text).len() && reports_change(#[trigger] lines(text)[i]),
{
    lemma_counted_lines(lines(text));
}

proof fn lemma_count_kind_bound(ls: Seq<Seq<char>>, kind: int)
    ensures
        count_kind(ls, kind) <= ls.len(),
    decreases ls.len(),
{
    if ls.len() > 0 {
        lemma_count_kind_bound(ls.drop_last(), kind);
    }
}

fn has_code_exec(l: &Vec<char>, ch: char) -> (r: bool)
    requires
        l@.len() >= 2,
    ensures
        r == has_code(l@, ch),
{
    l[0] == ch || (l[0] <= '\x7f' && l[1] == ch)
}

fn is_change_code_exec(c: char) -> (r: bool)
    ensures
        r == is_change_code(c),
{
    c <= '\x7f' && !is_whitespace(c) && c != '!'
}

fn line_kind_exec(l: &Vec<char>) -> (r: u8)
    ensures
        r as int == line_kind(l@),
{
    if l.len() < 2 {
        0
    } else if has_code_exec(l, 'A') || has_code_exec(l, '?') {
        1
    } else if has_code_exec(l, 'D') {
        2
    } else if is_change_code_exec(l[0]) || (l[0] <= '\x7f' && is_change_code_exec(l[1])) {
        3
    } else {
        0
    }
}

/// The arguments that ask git for the working tree status.
pub fn porcelain_status_args() -> (r: Vec<String>)
    ensures
        views(r@) == seq!["status"@, "--porcelain=v1"@],
{
    let r = vec![to_string("status"), to_string("--porcelain=v1")];
    assert(views(r@) =~= seq!["status"@, "--porcelain=v1"@]);
    r
}

/// Parse porcelain status to get dirty flag and file change counts
pub fn parse_porcelain_status(output: &CommandOutput) -> (r: (bool, usize, usize, usize))
    ensures
        (r.0, r.1 as nat, r.2 as nat, r.3 as nat) == porcelain_from(
            output.success,
            output.stdout_text(),
        ),
{
    if !output.success {
        return (false, 0, 0, 0);
    }
    porcelain_from_text(text_from_bytes(&output.stdout).as_str())
}

/// (dirty, modified, deleted, added) counted in the text of a successful
/// `git status --porcelain=v1`.
pub fn porcelain_from_text(text: &str) -> (r: (bool, usize, usize, usize))
    ensures
        (r.0, r.1 as nat, r.2 as nat, r.3 as nat) == porcelain_from(true, text@),
{
    let ls = lines_of(&to_chars(text));
    let ghost lv = views(ls@);
    let mut modified: usize = 0;
    let mut deleted: usize = 0;
    let mut added: usize = 0;
    let mut i: usize = 0;
    assert(lv.take(0) =~= Seq::<Seq<char>>::empty());
    while i < ls.len()
        invariant
            i <= ls@.len(),
            lv == views(ls@),
            modified as nat == count_kind(lv.take(i as int), 3),
            deleted as nat == count_kind(lv.take(i as int), 2),
            added as nat == count_kind(lv.take(i as int), 1),
        decreases ls@.len() - i,
    {
        assert(lv.take(i + 1).drop_last() =~= lv.take(i as int));
        assert(lv.take(i + 1).last() == ls@[i as int]@);
        proof {
            lemma_count_kind_bound(lv.take(i as int), 3);
            lemma_count_kind_bound(lv.take(i as int), 2);
            lemma_count_kind_bound(lv.take(i as int), 1);
        }
        let kind = line_kind_exec(&ls[i]);
        if kind == 1 {
            added = added + 1;
        } else if kind == 2 {
            deleted = deleted + 1;
        } else if kind == 3 {
            modified = modified + 1;
        }
        i = i + 1;
    }
    assert(lv.take(ls@.len() as int) =~= lv);
    let is_dirty = modified > 0 || deleted > 0 || added > 0;
    (is_dirty, modified, deleted, added)
}

/// Repository status info for overview display
pub struct RepoStatus {
    pub branch: Option<String>,
    pub is_dirty: bool,
    pub ahead: usize,
    pub behind: usize,
    pub modified: usize,
    pub deleted: usize,
    pub added: usize,
}

/// Get detailed status of a git repository from the answers to the branch,
/// ahead/behind and porcelain status questions.
pub fn get_repo_status(
    branch_output: &CommandOutput,
    ahead_behind_output: &CommandOutput,
    status_output: &CommandOutput,
) -> (r: RepoStatus)
    ensures
        opt_view(r.branch) == branch_from(branch_output.success, branch_output.stdout_text()),
        (r.ahead, r.behind) == ahead_behind_from(
            ahead_behind_output.success,
            ahead_behind_output.stdout_text(),
        ),
        (r.is_dirty, r.modified as nat, r.deleted as nat, r.added as nat) == porcelain_from(
            status_output.success,
            status_output.stdout_text(),
        ),
{
    let branch = get_current_branch(branch_output);
    let (ahead, behind) = get_ahead_behind(ahead_behind_output);
    let (is_dirty, modified, deleted, added) = parse_porcelain_status(status_output);
    RepoStatus { branch, is_dirty, ahead, behind, modified, deleted, added }
}

// ---------------------------------------------------------------------------
// Commits
// ---------------------------------------------------------------------------

/// Latest commit info
pub struct CommitInfo {
    pub hash: String,
    pub author: String,
    pub date: String,
    pub message: String,
}

impl View for CommitInfo {
    type V = (Seq<char>, Seq<char>, Seq<char>, Seq<char>);

    open spec fn view(&self) -> (Seq<char>, Seq<char>, Seq<char>, Seq<char>) {
        (self.hash@, self.author@, self.date@, self.message@)
    }
}

/// The four fields of a `%h|%an|%ad|%s` line: the text before the first,
/// second and third `|`, and the rest.
pub open spec fn commit_fields(t: Seq<char>) -> Option<(Seq<char>, Seq<char>, Seq<char>, Seq<char>)> {
    match split_once(t, '|') {
        None => None,
        Some((h, r1)) => match split_once(r1, '|') {
            None => None,
            Some((a, r2)) => match split_once(r2, '|') {
                None => None,
                Some((d, m)) => Some((h, a, d, m)),
            },
        },
    }
}

/// A line written as `hash|author|date|message` reads back as those four
/// fields, whatever the message holds, when the first three hold no `|`.
pub proof fn law_commit_fields_round_trip(h: Seq<char>, a: Seq<char>, d: Seq<char>, m: Seq<char>)
    requires
        !h.contains('|'),
        !a.contains('|'),
        !d.contains('|'),
    ensures
        commit_fields(h + seq!['|'] + a + seq!['|'] + d + seq!['|'] + m) == Some((h, a, d, m)),
{
    let r2 = d + seq!['|'] + m;
    let r1 = a + seq!['|'] + r2;
    lemma_split_once_first(h, '|', r1);
    lemma_split_once_first(a, '|', r2);
    lemma_split_once_first(d, '|', m);
    assert(h + seq!['|'] + a + seq!['|'] + d + seq!['|'] + m =~= h + seq!['|'] + r1);
}

/// The commits of a `git log` answer: one per line whose trimmed text has
/// four fields, in order.
pub open spec fn commits_of(ls: Seq<Seq<char>>) -> Seq<(Seq<char>, Seq<char>, Seq<char>, Seq<char>)>
    decreases ls.len(),
{
    if ls.len() == 0 {
        Seq::empty()
    } else {
        let init = commits_of(ls.drop_last());
        match commit_fields(trim(ls.last())) {
            Some(f) => init.push(f),
            None => init,
        }
    }
}

pub open spec fn commits_from(success: bool, text: Seq<char>) -> Seq<(Seq<char>, Seq<char>, Seq<char>, Seq<char>)> {
    if success {
        commits_of(lines(text))
    } else {
        Seq::empty()
    }
}

/// The arguments of `git log` for the `n` latest commits of `git_ref`
pub open spec fn log_args(n: usize, git_ref: Seq<char>, extra: Seq<Seq<char>>) -> Seq<Seq<char>> {
    seq!["log"@, "-"@ + decimal(n as nat), "--format=%h|%an|%ad|%s"@, "--date=format:%Y-%m-%d %H:%M"@]
        + extra + seq![git_ref]
}

/// Get the arguments that ask for the N latest commits from a specific ref
/// (e.g. "origin/main")
pub fn get_commits_from_ref(n: usize, git_ref: &str, extra_args: &Vec<String>) -> (r: Vec<String>)
    ensures
        views(r@) == log_args(n, git_ref@, views(extra_args@)),
{
    let mut count = to_string("-");
    count.append(usize_to_string(n).as_str());
    let mut args = vec![
        to_string("log"),
        count,
        to_string("--format=%h|%an|%ad|%s"),
        to_string("--date=format:%Y-%m-%d %H:%M"),
    ];
    let ghost head = views(args@);
    let mut i: usize = 0;
    while i < extra_args.len()
        invariant
            i <= extra_args@.len(),
            views(args@) =~= head + views(extra_args@).take(i as int),
        decreases extra_args@.len() - i,
    {
        let a = extra_args[i].clone();
        let ghost before = views(args@);
        args.push(a);
        assert(views(args@) =~= before.push(extra_args@[i as int]@));
        i = i + 1;
    }
    assert(views(extra_args@).take(extra_args@.len() as int) =~= views(extra_args@));
    let ghost before = views(args@);
    args.push(to_string(git_ref));
    assert(views(args@) =~= before.push(git_ref@));
    assert(views(args@) =~= log_args(n, git_ref@, views(extra_args@)));
    args
}

/// The ref whose commits `log` and `last` show: `HEAD`, or with `--remote`
/// the upstream branch (none when there is no upstream).
pub fn log_ref(remote: bool, upstream: &Option<String>) -> (r: Option<String>)
    ensures
        !remote ==> opt_view(r) == Some("HEAD"@),
        remote ==> opt_view(r) == opt_view(*upstream),
{
    if remote {
        match upstream {
            Some(u) => Some(u.clone()),
            None => None,
        }
    } else {
        Some(to_string("HEAD"))
    }
}

fn commit_fields_exec(t: &Vec<char>) -> (r: Option<CommitInfo>)
    ensures
        match r {
            Some(ci) => commit_fields(t@) == Some(ci@),
            None => commit_fields(t@) is None,
        },
{
    match split_once_chars(t, '|') {
        None => None,
        Some((h, r1)) => match split_once_chars(&r1, '|') {
            None => None,
            Some((a, r2)) => match split_once_chars(&r2, '|') {
                None => None,
                Some((d, m)) => Some(
                    CommitInfo {
                        hash: from_chars(&h),
                        author: from_chars(&a),
                        date: from_chars(&d),
                        message: from_chars(&m),
                    },
                ),
            },
        },
    }
}

/// Get the commits listed in the output of `git log --format=%h|%an|%ad|%s`.
pub fn get_commits(output: &CommandOutput) -> (r: Vec<CommitInfo>)
    ensures
        views(r@) == commits_from(output.success, output.stdout_text()),
{
    if !output.success {
        let commits: Vec<CommitInfo> = Vec::new();
        assert(views(commits@) =~= Seq::<(Seq<char>, Seq<char>, Seq<char>, Seq<char>)>::empty());
        return commits;
    }
    commits_from_text(text_from_bytes(&output.stdout).as_str())
}

/// The commits listed in the text of a successful
/// `git log --format=%h|%an|%ad|%s`.
pub fn commits_from_text(text: &str) -> (r: Vec<CommitInfo>)
    ensures
        views(r@) == commits_from(true, text@),
{
    let mut commits: Vec<CommitInfo> = Vec::new();
    let ls = lines_of(&to_chars(text));
    let ghost lv = views(ls@);
    let mut i: usize = 0;
    assert(lv.take(0) =~= Seq::<Seq<char>>::empty());
    assert(views(commits@) =~= commits_of(lv.take(0)));
    while i < ls.len()
        invariant
            i <= ls@.len(),
            lv == views(ls@),
            views(commits@) == commits_of(lv.take(i as int)),
        decreases ls@.len() - i,
    {
        assert(lv.take(i + 1).drop_last() =~= lv.take(i as int));
        assert(lv.take(i + 1).last() == ls@[i as int]@);
        let t = trim_chars(&ls[i]);
        match commit_fields_exec(&t) {
            Some(ci) => {
                let ghost before = views(commits@);
                let ghost civ = ci@;
                commits.push(ci);
                assert(views(commits@) =~= before.push(civ));
            },
            None => {},
        }
        i = i + 1;
    }
    assert(lv.take(ls@.len() as int) =~= lv);
    commits
}

/// Get the latest commit of a git repository: the first commit of a
/// `git log -1` answer.
pub fn get_latest_commit(output: &CommandOutput) -> (r: Option<CommitInfo>)
    ensures
        match r {
            Some(ci) => commits_from(output.success, output.stdout_text()).len() > 0 && ci@
                == commits_from(output.success, output.stdout_text())[0],
            None => commits_from(output.success, output.stdout_text()).len() == 0,
        },
{
    let mut commits = get_commits(output);
    if commits.len() == 0 {
        None
    } else {
        assert(views(commits@)[0] == commits@[0]@);
        Some(commits.remove(0))
    }
}

// ---------------------------------------------------------------------------
// Running a git command
// ---------------------------------------------------------------------------

/// What to show after a git command ran in one repository.
pub struct GitReport {
    /// Printed as is on standard output, when the command wrote any.
    pub stdout: Option<String>,
    /// Printed on standard error, when the command wrote any there.
    pub stderr: Option<String>,
    /// Whether an empty line follows, to separate repositories.
    pub blank_line: bool,
    /// Whether the command failed.
    pub failed: bool,
}

/// The mark put before the error output of a failed command.
pub open spec fn error_prefix() -> Seq<char> {
    "  "@ + colored(Color::Red, "✗ Error:"@) + " "@
}

/// The error output of a failed command, with the error mark before it.
pub fn marked_error(text: &str) -> (r: String)
    ensures
        r@ == error_prefix() + text@,
{
    let mut s = to_string("  ");
    s.append(c(Color::Red, "✗ Error:").as_str());
    s.append(" ");
    s.append(text);
    s
}

/// Display of a git command's output: standard output as is; standard
/// error, marked as an error when the command failed; an empty line after
/// any output; and the failure itself.
pub fn report_git_output(output: &CommandOutput) -> (r: GitReport)
    ensures
        opt_view(r.stdout) == (if output.stdout@.len() > 0 {
            Some(output.stdout_text())
        } else {
            None
        }),
        opt_view(r.stderr) == (if output.stderr@.len() > 0 {
            Some(
                if output.success {
                    output.stderr_text()
                } else {
                    error_prefix() + output.stderr_text()
                },
            )
        } else {
            None
        }),
        r.blank_line == (output.stdout@.len() > 0 || output.stderr@.len() > 0),
        r.failed == !output.success,
{
    let stdout = if output.stdout.len() > 0 {
        Some(text_from_bytes(&output.stdout))
    } else {
        None
    };
    let stderr = if output.stderr.len() > 0 {
        let text = text_from_bytes(&output.stderr);
        if output.success {
            Some(text)
        } else {
            Some(marked_error(text.as_str()))
        }
    } else {
        None
    };
    GitReport {
        stdout,
        stderr,
        blank_line: output.stdout.len() > 0 || output.stderr.len() > 0,
        failed: !output.success,
    }
}

} // verus!
