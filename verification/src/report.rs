//! What `gx` prints: repository headings, the run summary, and the
//! `info`, `last` and `log` tables.
use vstd::prelude::*;
use crate::git::{opt_view, CommitInfo, RepoStatus};
use crate::text::{
    byte_len, concat2, decimal, join, join_strings, pad_right, pad_right_string, push_spaces,
    spaces, to_string, usize_to_string, utf8_len, views,
};

verus! {

// ---------------------------------------------------------------------------
// Branch filter
// ---------------------------------------------------------------------------

/// A repository passes the branch filter when there is none, or when its
/// current branch is the one asked for.
pub open spec fn branch_matches(branch: Option<Seq<char>>, filter: Option<Seq<char>>) -> bool {
    match filter {
        None => true,
        Some(f) => branch == Some(f),
    }
}

pub open spec fn opt_views(v: Seq<Option<String>>) -> Seq<Option<Seq<char>>> {
    Seq::new(v.len(), |i: int| opt_view(v[i]))
}

/// The indices below `n`, in order, of the repositories that pass the filter.
pub open spec fn kept_indices(n: nat, branches: Seq<Option<Seq<char>>>, filter: Option<Seq<char>>) -> Seq<usize>
    decreases n,
{
    if n == 0 {
        Seq::empty()
    } else {
        let prev = kept_indices((n - 1) as nat, branches, filter);
        let keep = match filter {
            None => true,
            Some(f) => branches[n - 1] == Some(f),
        };
        if keep {
            prev.push((n - 1) as usize)
        } else {
            prev
        }
    }
}

/// Without a branch filter every repository is kept, in order.
pub proof fn law_no_filter_keeps_all(n: nat, branches: Seq<Option<Seq<char>>>)
    requires
        n <= usize::MAX,
    ensures
        kept_indices(n, branches, None) == Seq::new(n, |i: int| i as usize),
    decreases n,
{
    if n > 0 {
        law_no_filter_keeps_all((n - 1) as nat, branches);
        assert(kept_indices(n, branches, None) =~= Seq::new(n, |i: int| i as usize));
    }
}

/// With a branch filter a repository is kept exactly when it is on that
/// branch, and the kept indices come in increasing order.
pub proof fn law_filter_keeps_matching(n: nat, branches: Seq<Option<Seq<char>>>, f: Seq<char>)
    requires
        n <= usize::MAX,
        branches.len() == n,
    ensures
        forall|i: int|
            0 <= i < n ==> (kept_indices(n, branches, Some(f)).contains(i as usize) <==> branches[i]
                == Some(f)),
        forall|j: int, k: int|
            0 <= j < k < kept_indices(n, branches, Some(f)).len() ==> kept_indices(n, branches, Some(f))[j]
                < kept_indices(n, branches, Some(f))[k],
{
    lemma_kept_below(n, branches, Some(f));
    lemma_kept_matching(n, branches, f);
}

/// The kept indices below `n` of a branch list at least that long.
proof fn lemma_kept_matching(n: nat, branches: Seq<Option<Seq<char>>>, f: Seq<char>)
    requires
        n <= usize::MAX,
        branches.len() >= n,
    ensures
        forall|i: int|
            0 <= i < n ==> (kept_indices(n, branches, Some(f)).contains(i as usize) <==> branches[i]
                == Some(f)),
    decreases n,
{
    lemma_kept_below(n, branches, Some(f));
    if n > 0 {
        let m = (n - 1) as nat;
        let prev = kept_indices(m, branches, Some(f));
        let cur = kept_indices(n, branches, Some(f));
        lemma_kept_below(m, branches, Some(f));
        lemma_kept_matching(m, branches, f);
        assert forall|i: int| 0 <= i < n implies (cur.contains(i as usize) <==> branches[i] == Some(f)) by {
            if i < m {
                if cur.contains(i as usize) {
                    let q = choose|q: int| 0 <= q < cur.len() && cur[q] == i as usize;
                    if q < prev.len() {
                        assert(prev[q] == i as usize);
                    }
                }
                if prev.contains(i as usize) {
                    let q = choose|q: int| 0 <= q < prev.len() && prev[q] == i as usize;
                    assert(cur[q] == i as usize);
                }
            } else {
                if branches[m as int] == Some(f) {
                    assert(cur[prev.len() as int] == m as usize);
                } else {
                    assert(!prev.contains(m as usize));
                }
            }
        }
    }
}

/// Kept indices are below `n` and increasing.
proof fn lemma_kept_below(n: nat, branches: Seq<Option<Seq<char>>>, filter: Option<Seq<char>>)
    requires
        n <= usize::MAX,
    ensures
        kept_indices(n, branches, filter).len() <= n,
        forall|j: int|
            0 <= j < kept_indices(n, branches, filter).len() ==> #[trigger] kept_indices(n, branches, filter)[j]
                < n,
        forall|j: int, k: int|
            0 <= j < k < kept_indices(n, branches, filter).len() ==> kept_indices(n, branches, filter)[j]
                < kept_indices(n, branches, filter)[k],
    decreases n,
{
    if n > 0 {
        lemma_kept_below((n - 1) as nat, branches, filter);
    }
}

fn matches_filter(branch: &Option<String>, filter: &Option<String>) -> (r: bool)
    ensures
        r == branch_matches(opt_view(*branch), opt_view(*filter)),
{
    match filter {
        None => true,
        Some(f) => match branch {
            Some(b) => *b == *f,
            None => false,
        },
    }
}

/// The repositories to work in: the indices of those whose current branch
/// passes the filter (`branches` is consulted only when there is a filter).
pub fn filter_repos_by_branch(
    repo_count: usize,
    branches: &Vec<Option<String>>,
    branch_filter: &Option<String>,
) -> (r: Vec<usize>)
    requires
        branch_filter is Some ==> branches@.len() == repo_count,
    ensures
        r@ == kept_indices(repo_count as nat, opt_views(branches@), opt_view(*branch_filter)),
{
    let ghost bv = opt_views(branches@);
    let mut r: Vec<usize> = Vec::new();
    let mut i: usize = 0;
    while i < repo_count
        invariant
            i <= repo_count,
            bv == opt_views(branches@),
            branch_filter is Some ==> branches@.len() == repo_count,
            r@ == kept_indices(i as nat, bv, opt_view(*branch_filter)),
        decreases repo_count - i,
    {
        let keep = match branch_filter {
            None => true,
            Some(_) => {
                assert(bv[i as int] == opt_view(branches@[i as int]));
                matches_filter(&branches[i], branch_filter)
            },
        };
        if keep {
            r.push(i);
        }
        i = i + 1;
    }
    r
}

// ---------------------------------------------------------------------------
// Running a git command in every repository
// ---------------------------------------------------------------------------

/// Counts of a run over `total` repositories.
pub struct RunTally {
    pub total: usize,
    pub succeeded: usize,
    pub failed: usize,
}

impl RunTally {
    pub fn new(total: usize) -> (r: Self)
        ensures
            r.total == total,
            r.succeeded == 0,
            r.failed == 0,
    {
        RunTally { total, succeeded: 0, failed: 0 }
    }

    /// Repositories where the command ran.
    pub open spec fn processed(&self) -> int {
        self.succeeded + self.failed
    }

    /// Records the outcome in one more repository; tells whether the run
    /// goes on (always, unless it failed and the run stops on error).
    pub fn record(&mut self, ok: bool, stop_on_error: bool) -> (go_on: bool)
        requires
            old(self).processed() < old(self).total,
        ensures
            final(self).total == old(self).total,
            ok ==> final(self).succeeded == old(self).succeeded + 1 && final(self).failed == old(
                self,
            ).failed,
            !ok ==> final(self).failed == old(self).failed + 1 && final(self).succeeded == old(
                self,
            ).succeeded,
            final(self).processed() == old(self).processed() + 1,
            go_on == (ok || !stop_on_error),
    {
        if ok {
            self.succeeded = self.succeeded + 1;
            true
        } else {
            self.failed = self.failed + 1;
            !stop_on_error
        }
    }
}

/// Whether a run over these outcomes has stopped: it stops on error and one
/// repository failed.
pub open spec fn run_halted(outcomes: Seq<bool>, stop_on_error: bool) -> bool {
    stop_on_error && outcomes.contains(false)
}

/// (succeeded, failed) after running in repositories with these outcomes,
/// one by one, recording each with `RunTally::record` while the run goes
/// on.
pub open spec fn tally_run(outcomes: Seq<bool>, stop_on_error: bool) -> (nat, nat)
    decreases outcomes.len(),
{
    if outcomes.len() == 0 {
        (0, 0)
    } else {
        let (s, f) = tally_run(outcomes.drop_last(), stop_on_error);
        if run_halted(outcomes.drop_last(), stop_on_error) {
            (s, f)
        } else if outcomes.last() {
            (s + 1, f)
        } else {
            (s, f + 1)
        }
    }
}

/// Number of outcomes equal to `ok`.
pub open spec fn count_outcomes(outcomes: Seq<bool>, ok: bool) -> nat
    decreases outcomes.len(),
{
    if outcomes.len() == 0 {
        0
    } else {
        count_outcomes(outcomes.drop_last(), ok) + if outcomes.last() == ok {
            1nat
        } else {
            0nat
        }
    }
}

/// One step of the run is one call of `RunTally::record`: while the run has
/// not stopped, the outcome adds one success or one failure, and the run
/// stops after it exactly when `record` says not to go on.
pub proof fn law_run_step(outcomes: Seq<bool>, ok: bool, stop_on_error: bool)
    requires
        !run_halted(outcomes, stop_on_error),
    ensures
        tally_run(outcomes.push(ok), stop_on_error) == (if ok {
            (tally_run(outcomes, stop_on_error).0 + 1, tally_run(outcomes, stop_on_error).1)
        } else {
            (tally_run(outcomes, stop_on_error).0, tally_run(outcomes, stop_on_error).1 + 1)
        }),
        run_halted(outcomes.push(ok), stop_on_error) == !(ok || !stop_on_error),
{
    let o2 = outcomes.push(ok);
    assert(o2.drop_last() =~= outcomes);
    if !ok {
        assert(o2[outcomes.len() as int] == false);
    }
    if o2.contains(false) && ok {
        let i = choose|i: int| 0 <= i < o2.len() && o2[i] == false;
        assert(outcomes[i] == false);
    }
}

/// Without `--stop-on-error` every repository is processed: the successes
/// and failures are the outcomes counted.
pub proof fn law_run_without_stop(outcomes: Seq<bool>)
    ensures
        tally_run(outcomes, false) == (count_outcomes(outcomes, true), count_outcomes(
            outcomes,
            false,
        )),
    decreases outcomes.len(),
{
    if outcomes.len() > 0 {
        law_run_without_stop(outcomes.drop_last());
    }
}

proof fn lemma_run_all_ok(outcomes: Seq<bool>, stop_on_error: bool)
    requires
        forall|j: int| 0 <= j < outcomes.len() ==> #[trigger] outcomes[j],
    ensures
        tally_run(outcomes, stop_on_error) == (outcomes.len(), 0nat),
        !run_halted(outcomes, stop_on_error),
    decreases outcomes.len(),
{
    if outcomes.len() > 0 {
        let d = outcomes.drop_last();
        assert forall|j: int| 0 <= j < d.len() implies #[trigger] d[j] by {
            assert(d[j] == outcomes[j]);
        }
        lemma_run_all_ok(d, stop_on_error);
        assert(outcomes[outcomes.len() - 1]);
    }
    if outcomes.contains(false) {
        let i = choose|i: int| 0 <= i < outcomes.len() && outcomes[i] == false;
        assert(outcomes[i]);
    }
}

/// With `--stop-on-error` the run stops at the first failure: the
/// repositories before it succeeded, it failed, and none after it runs.
/// When none fails, all are processed.
pub proof fn law_run_stops_at_first_failure(outcomes: Seq<bool>, k: int)
    requires
        0 <= k <= outcomes.len(),
        forall|j: int| 0 <= j < k ==> #[trigger] outcomes[j],
        k < outcomes.len() ==> !outcomes[k],
    ensures
        tally_run(outcomes, true) == (if k < outcomes.len() {
            (k as nat, 1nat)
        } else {
            (outcomes.len(), 0nat)
        }),
    decreases outcomes.len(),
{
    if k == outcomes.len() {
        lemma_run_all_ok(outcomes, true);
    } else {
        let d = outcomes.drop_last();
        if k == outcomes.len() - 1 {
            assert forall|j: int| 0 <= j < d.len() implies #[trigger] d[j] by {
                assert(d[j] == outcomes[j]);
            }
            lemma_run_all_ok(d, true);
        } else {
            assert forall|j: int| 0 <= j < k implies #[trigger] d[j] by {
                assert(d[j] == outcomes[j]);
            }
            assert(d[k] == outcomes[k]);
            law_run_stops_at_first_failure(d, k);
            assert(d.contains(false));
        }
    }
}

/// The summary printed after a run.
pub open spec fn summary_text(total: usize, succeeded: usize, failed: usize, dry_run: bool) -> Seq<Seq<char>> {
    if dry_run {
        seq!["\x1b[33m[DRY RUN] Summary: "@ + decimal(total as nat) + " repositories would be affected\x1b[0m"@]
    } else {
        let processed = (succeeded + failed) as nat;
        let status = if failed == 0 {
            "\x1b[32m✓\x1b[0m"@
        } else {
            "\x1b[33m⚠\x1b[0m"@
        };
        let line = status + " Summary: \x1b[36m"@ + decimal(processed) + "\x1b[0m processed, \x1b[32m"@
            + decimal(succeeded as nat) + "\x1b[0m succeeded, \x1b[31m"@ + decimal(failed as nat)
            + "\x1b[0m failed"@;
        if processed < total {
            seq![line, "\x1b[33m  "@ + decimal((total - processed) as nat) + " repositories skipped (stopped early)\x1b[0m"@]
        } else {
            seq![line]
        }
    }
}

/// Show summary
pub fn summary_lines(tally: &RunTally, dry_run: bool) -> (r: Vec<String>)
    requires
        tally.processed() <= tally.total,
    ensures
        views(r@) == summary_text(tally.total, tally.succeeded, tally.failed, dry_run),
{
    let mut r: Vec<String> = Vec::new();
    if dry_run {
        let mut line = to_string("\x1b[33m[DRY RUN] Summary: ");
        line.append(usize_to_string(tally.total).as_str());
        line.append(" repositories would be affected\x1b[0m");
        r.push(line);
        assert(views(r@) =~= summary_text(tally.total, tally.succeeded, tally.failed, dry_run));
        return r;
    }
    let processed = tally.succeeded + tally.failed;
    let mut line = if tally.failed == 0 {
        to_string("\x1b[32m✓\x1b[0m")
    } else {
        to_string("\x1b[33m⚠\x1b[0m")
    };
    line.append(" Summary: \x1b[36m");
    line.append(usize_to_string(processed).as_str());
    line.append("\x1b[0m processed, \x1b[32m");
    line.append(usize_to_string(tally.succeeded).as_str());
    line.append("\x1b[0m succeeded, \x1b[31m");
    line.append(usize_to_string(tally.failed).as_str());
    line.append("\x1b[0m failed");
    r.push(line);
    if processed < tally.total {
        let mut skipped = to_string("\x1b[33m  ");
        skipped.append(usize_to_string(tally.total - processed).as_str());
        skipped.append(" repositories skipped (stopped early)\x1b[0m");
        r.push(skipped);
    }
    assert(views(r@) =~= summary_text(tally.total, tally.succeeded, tally.failed, dry_run));
    r
}

/// What a git run prints before it looks for repositories: where it
/// searches, how deep, the branch filter when there is one, the command
/// (each of the last two lines ends in a newline of its own), and the
/// dry-run notice.
pub open spec fn preamble_text(
    start: Seq<char>,
    depth: usize,
    branch: Option<Seq<char>>,
    git_cmd: Seq<Seq<char>>,
    dry_run: bool,
) -> Seq<Seq<char>> {
    seq!["Searching for git repositories in: "@ + start, "Max depth: "@ + decimal(depth as nat)]
        + (match branch {
        Some(b) => seq!["Branch filter: "@ + b],
        None => Seq::empty(),
    }) + seq!["Command: git "@ + join(git_cmd, " "@) + "\n"@] + (if dry_run {
        seq!["\x1b[33m[DRY RUN] Showing what would be done without executing\x1b[0m\n"@]
    } else {
        Seq::empty()
    })
}

pub fn run_preamble(
    start: &str,
    depth: usize,
    branch: &Option<String>,
    git_cmd: &Vec<String>,
    dry_run: bool,
) -> (r: Vec<String>)
    ensures
        views(r@) == preamble_text(start@, depth, opt_view(*branch), views(git_cmd@), dry_run),
{
    let mut r: Vec<String> = Vec::new();
    r.push(concat2("Searching for git repositories in: ", start));
    r.push(concat2("Max depth: ", usize_to_string(depth).as_str()));
    match branch {
        Some(b) => {
            r.push(concat2("Branch filter: ", b.as_str()));
        },
        None => {},
    }
    let mut command = to_string("Command: git ");
    command.append(join_strings(git_cmd.as_slice(), " ").as_str());
    command.append("\n");
    r.push(command);
    if dry_run {
        r.push(to_string("\x1b[33m[DRY RUN] Showing what would be done without executing\x1b[0m\n"));
    }
    assert(views(r@) =~= preamble_text(start@, depth, opt_view(*branch), views(git_cmd@), dry_run));
    r
}

/// A repository heading: the prefix, the folder mark and the path, then the
/// branch in cyan when there is one.
pub open spec fn heading_text(prefix: Seq<char>, path: Seq<char>, branch: Option<Seq<char>>) -> Seq<char> {
    prefix + "📁 "@ + path + match branch {
        Some(b) => " => \x1b[36m"@ + b + "\x1b[0m"@,
        None => Seq::empty(),
    }
}

pub fn repo_heading(prefix: &str, path: &str, branch: &Option<String>) -> (r: String)
    ensures
        r@ == heading_text(prefix@, path@, opt_view(*branch)),
{
    let mut r = to_string(prefix);
    r.append("📁 ");
    r.append(path);
    match branch {
        Some(b) => {
            r.append(" => \x1b[36m");
            r.append(b.as_str());
            r.append("\x1b[0m");
        },
        None => {
            assert(r@ =~= r@ + Seq::<char>::empty());
        },
    }
    r
}

/// The progress mark of the repository at `index` (from 0) of `total`,
/// e.g. `[1/2] `.
pub fn progress_label(index: usize, total: usize) -> (r: String)
    requires
        index < total,
    ensures
        r@ == "["@ + decimal((index + 1) as nat) + "/"@ + decimal(total as nat) + "] "@,
{
    let mut r = to_string("[");
    r.append(usize_to_string(index + 1).as_str());
    r.append("/");
    r.append(usize_to_string(total).as_str());
    r.append("] ");
    r
}

/// The line shown instead of running the command in a dry run.
pub fn dry_run_line(git_cmd: &Vec<String>, path: &str) -> (r: String)
    ensures
        r@ == "  [DRY RUN] Would execute: git "@ + join(views(git_cmd@), " "@) + " in "@ + path@,
{
    let mut r = to_string("  [DRY RUN] Would execute: git ");
    r.append(join_strings(git_cmd.as_slice(), " ").as_str());
    r.append(" in ");
    r.append(path);
    r
}

/// The line shown when a failure stops the run.
pub fn stopped_line(path: &str) -> (r: String)
    ensures
        r@ == "\x1b[31m✗ Stopped at "@ + path@
            + " (default: continue on error, use --stop-on-error to stop)\x1b[0m"@,
{
    let mut r = to_string("\x1b[31m✗ Stopped at ");
    r.append(path);
    r.append(" (default: continue on error, use --stop-on-error to stop)\x1b[0m");
    r
}

// ---------------------------------------------------------------------------
// Column widths
// ---------------------------------------------------------------------------

/// The widest text of a list, in bytes (0 for none).
pub open spec fn max_bytes(v: Seq<Seq<char>>) -> nat
    decreases v.len(),
{
    if v.len() == 0 {
        0
    } else {
        let m = max_bytes(v.drop_last());
        let w = utf8_len(v.last());
        if w > m {
            w
        } else {
            m
        }
    }
}

pub open spec fn at_least(a: nat, b: nat) -> nat {
    if a > b {
        a
    } else {
        b
    }
}

fn max_bytes_of(v: &Vec<String>) -> (r: usize)
    ensures
        r as nat == max_bytes(views(v@)),
{
    let ghost vv = views(v@);
    let mut m: usize = 0;
    let mut i: usize = 0;
    assert(vv.take(0) =~= Seq::<Seq<char>>::empty());
    while i < v.len()
        invariant
            i <= v@.len(),
            vv == views(v@),
            m as nat == max_bytes(vv.take(i as int)),
        decreases v@.len() - i,
    {
        assert(vv.take(i + 1).drop_last() =~= vv.take(i as int));
        assert(vv.take(i + 1).last() == v@[i as int]@);
        let w = byte_len(v[i].as_str());
        if w > m {
            m = w;
        }
        i = i + 1;
    }
    assert(vv.take(v@.len() as int) =~= vv);
    m
}

// ---------------------------------------------------------------------------
// `info`
// ---------------------------------------------------------------------------

/// What the `info` table shows of a repository:
/// (path, branch, dirty, ahead, behind).
pub type InfoModel = (Seq<char>, Option<Seq<char>>, bool, usize, usize);

pub open spec fn info_models(v: Seq<(String, RepoStatus)>) -> Seq<InfoModel> {
    Seq::new(
        v.len(),
        |i: int| (v[i].0@, opt_view(v[i].1.branch), v[i].1.is_dirty, v[i].1.ahead, v[i].1.behind),
    )
}

/// The repositories that pass the branch filter, in order.
pub open spec fn kept_infos(v: Seq<InfoModel>, filter: Option<Seq<char>>) -> Seq<InfoModel>
    decreases v.len(),
{
    if v.len() == 0 {
        Seq::empty()
    } else {
        let prev = kept_infos(v.drop_last(), filter);
        if branch_matches(v.last().1, filter) {
            prev.push(v.last())
        } else {
            prev
        }
    }
}

/// The widest branch column entry in bytes (`detached` counts 8).
pub open spec fn max_branch_bytes(v: Seq<InfoModel>) -> nat
    decreases v.len(),
{
    if v.len() == 0 {
        0
    } else {
        let m = max_branch_bytes(v.drop_last());
        let w = match v.last().1 {
            Some(b) => utf8_len(b),
            None => 8,
        };
        if w > m {
            w
        } else {
            m
        }
    }
}

pub open spec fn info_paths(v: Seq<InfoModel>) -> Seq<Seq<char>> {
    Seq::new(v.len(), |i: int| v[i].0)
}

/// One row of the `info` table.
pub open spec fn info_row(m: InfoModel, path_width: nat, branch_width: nat) -> Seq<char> {
    let (path, branch, dirty, ahead, behind) = m;
    let branch_display = match branch {
        Some(b) => "\x1b[36m"@ + b + "\x1b[0m"@,
        None => "\x1b[90mdetached\x1b[0m"@,
    };
    let branch_len: nat = match branch {
        Some(b) => utf8_len(b),
        None => 8,
    };
    let status_display = if branch is None {
        "\x1b[31m✗ detached\x1b[0m"@
    } else if dirty {
        "\x1b[33m⚠ dirty\x1b[0m"@
    } else {
        "\x1b[32m✓ clean\x1b[0m"@
    };
    let status_len: nat = if branch is None {
        10
    } else if dirty {
        8
    } else {
        7
    };
    let sync = if branch is Some {
        "↑"@ + decimal(ahead as nat) + " ↓"@ + decimal(behind as nat)
    } else {
        Seq::empty()
    };
    "  📁 "@ + pad_right(path, path_width) + "  "@ + branch_display + spaces(
        (branch_width - branch_len) as nat,
    ) + "  "@ + status_display + spaces((10 - status_len) as nat) + "  "@ + sync
}

/// Number of repositories with a property.
pub open spec fn count_dirty(v: Seq<InfoModel>) -> nat
    decreases v.len(),
{
    if v.len() == 0 {
        0
    } else {
        count_dirty(v.drop_last()) + if v.last().2 {
            1nat
        } else {
            0nat
        }
    }
}

pub open spec fn count_ahead(v: Seq<InfoModel>) -> nat
    decreases v.len(),
{
    if v.len() == 0 {
        0
    } else {
        count_ahead(v.drop_last()) + if v.last().3 > 0 {
            1nat
        } else {
            0nat
        }
    }
}

pub open spec fn count_behind(v: Seq<InfoModel>) -> nat
    decreases v.len(),
{
    if v.len() == 0 {
        0
    } else {
        count_behind(v.drop_last()) + if v.last().4 > 0 {
            1nat
        } else {
            0nat
        }
    }
}

/// The totals of the `info` table count repositories by their own status:
/// dirty ones, those ahead of their upstream and those behind it, each
/// count independent of the other two.
pub proof fn law_info_totals_count_repositories(v: Seq<InfoModel>)
    ensures
        count_dirty(v) == v.filter(|m: InfoModel| m.2).len(),
        count_ahead(v) == v.filter(|m: InfoModel| m.3 > 0).len(),
        count_behind(v) == v.filter(|m: InfoModel| m.4 > 0).len(),
    decreases v.len(),
{
    reveal(Seq::filter);
    if v.len() > 0 {
        law_info_totals_count_repositories(v.drop_last());
    }
}

/// The totals line under the `info` table.
pub open spec fn info_total(v: Seq<InfoModel>) -> Seq<char> {
    "  Total: "@ + decimal(v.len()) + " repos"@ + (if count_dirty(v) > 0 {
        " | \x1b[33m"@ + decimal(count_dirty(v)) + " dirty\x1b[0m"@
    } else {
        Seq::empty()
    }) + (if count_ahead(v) > 0 {
        " | \x1b[32m"@ + decimal(count_ahead(v)) + " ahead\x1b[0m"@
    } else {
        Seq::empty()
    }) + (if count_behind(v) > 0 {
        " | \x1b[31m"@ + decimal(count_behind(v)) + " behind\x1b[0m"@
    } else {
        Seq::empty()
    })
}

/// What `info` prints for the repositories found (with their status): the
/// rows of those passing the branch filter, columns aligned, an empty line
/// and the totals; or a note that none matches the branch.
pub open spec fn info_text(v: Seq<InfoModel>, filter: Option<Seq<char>>) -> Seq<Seq<char>> {
    let kept = kept_infos(v, filter);
    if kept.len() == 0 {
        seq![
            "No git repositories matching branch '"@ + (match filter {
                Some(f) => f,
                None => Seq::empty(),
            }) + "'."@,
        ]
    } else {
        let pw = at_least(max_bytes(info_paths(kept)), 6);
        let bw = at_least(max_branch_bytes(kept), 6);
        Seq::new(kept.len(), |i: int| info_row(kept[i], pw, bw)) + seq![Seq::empty(), info_total(kept)]
    }
}

fn info_row_string(path: &str, status: &RepoStatus, path_width: usize, branch_width: usize) -> (r: String)
    requires
        (match opt_view(status.branch) {
            Some(b) => utf8_len(b),
            None => 8,
        }) <= branch_width,
    ensures
        r@ == info_row(
            (path@, opt_view(status.branch), status.is_dirty, status.ahead, status.behind),
            path_width as nat,
            branch_width as nat,
        ),
{
    let mut r = to_string("  📁 ");
    r.append(pad_right_string(path, path_width).as_str());
    r.append("  ");
    match &status.branch {
        Some(b) => {
            r.append("\x1b[36m");
            r.append(b.as_str());
            r.append("\x1b[0m");
            let bl = byte_len(b.as_str());
            push_spaces(&mut r, branch_width - bl);
        },
        None => {
            r.append("\x1b[90mdetached\x1b[0m");
            push_spaces(&mut r, branch_width - 8);
        },
    }
    r.append("  ");
    if status.branch.is_none() {
        r.append("\x1b[31m✗ detached\x1b[0m");
        push_spaces(&mut r, 0);
    } else if status.is_dirty {
        r.append("\x1b[33m⚠ dirty\x1b[0m");
        push_spaces(&mut r, 2);
    } else {
        r.append("\x1b[32m✓ clean\x1b[0m");
        push_spaces(&mut r, 3);
    }
    r.append("  ");
    if status.branch.is_some() {
        r.append("↑");
        r.append(usize_to_string(status.ahead).as_str());
        r.append(" ↓");
        r.append(usize_to_string(status.behind).as_str());
    } else {
        assert(r@ =~= r@ + Seq::<char>::empty());
    }
    r
}

/// The indices of the repositories that pass the branch filter.
fn kept_info_indices(infos: &Vec<(String, RepoStatus)>, branch_filter: &Option<String>) -> (idx: Vec<usize>)
    ensures
        idx@.len() == kept_infos(info_models(infos@), opt_view(*branch_filter)).len(),
        forall|j: int|
            0 <= j < idx@.len() ==> #[trigger] idx@[j] < infos@.len() && info_models(infos@)[idx@[j] as int]
                == kept_infos(info_models(infos@), opt_view(*branch_filter))[j],
{
    let ghost models = info_models(infos@);
    let ghost filter = opt_view(*branch_filter);
    let mut kept_idx: Vec<usize> = Vec::new();
    let mut i: usize = 0;
    assert(models.take(0) =~= Seq::<InfoModel>::empty());
    while i < infos.len()
        invariant
            i <= infos@.len(),
            models == info_models(infos@),
            filter == opt_view(*branch_filter),
            kept_idx@.len() == kept_infos(models.take(i as int), filter).len(),
            forall|j: int|
                0 <= j < kept_idx@.len() ==> #[trigger] kept_idx@[j] < i && models[kept_idx@[j] as int]
                    == kept_infos(models.take(i as int), filter)[j],
        decreases infos@.len() - i,
    {
        assert(models.take(i + 1).drop_last() =~= models.take(i as int));
        assert(models.take(i + 1).last() == models[i as int]);
        if matches_filter(&infos[i].1.branch, branch_filter) {
            kept_idx.push(i);
        }
        i = i + 1;
    }
    assert(models.take(infos@.len() as int) =~= models);
    kept_idx
}

/// Widths of the path and branch columns of the kept repositories.
fn info_widths(
    infos: &Vec<(String, RepoStatus)>,
    kept_idx: &Vec<usize>,
    Ghost(kept): Ghost<Seq<InfoModel>>,
) -> (r: (usize, usize))
    requires
        kept_idx@.len() == kept.len(),
        forall|k: int|
            0 <= k < kept.len() ==> #[trigger] kept_idx@[k] < infos@.len() && info_models(
                infos@,
            )[kept_idx@[k] as int] == kept[k],
    ensures
        r.0 as nat == at_least(max_bytes(info_paths(kept)), 6),
        r.1 as nat == at_least(max_branch_bytes(kept), 6),
{
    let ghost models = info_models(infos@);
    let n = kept_idx.len();
    let mut max_path: usize = 0;
    let mut max_branch: usize = 0;
    let mut j: usize = 0;
    assert(kept.take(0) =~= Seq::<InfoModel>::empty());
    assert(info_paths(kept.take(0)) =~= Seq::<Seq<char>>::empty());
    while j < n
        invariant
            j <= n,
            n == kept_idx@.len(),
            n == kept.len(),
            forall|k: int|
                0 <= k < n ==> #[trigger] kept_idx@[k] < infos@.len() && models[kept_idx@[k] as int]
                    == kept[k],
            models == info_models(infos@),
            max_path as nat == max_bytes(info_paths(kept.take(j as int))),
            max_branch as nat == max_branch_bytes(kept.take(j as int)),
        decreases n - j,
    {
        let idx = kept_idx[j];
        assert(models[idx as int] == kept[j as int]);
        assert(kept.take(j + 1).drop_last() =~= kept.take(j as int));
        assert(info_paths(kept.take(j + 1)).drop_last() =~= info_paths(kept.take(j as int)));
        assert(info_paths(kept.take(j + 1)).last() == infos@[idx as int].0@);
        let w = byte_len(infos[idx].0.as_str());
        if w > max_path {
            max_path = w;
        }
        let bw = match &infos[idx].1.branch {
            Some(b) => byte_len(b.as_str()),
            None => 8,
        };
        if bw > max_branch {
            max_branch = bw;
        }
        j = j + 1;
    }
    assert(kept.take(n as int) =~= kept);
    let path_width = if max_path > 6 {
        max_path
    } else {
        6
    };
    let branch_width = if max_branch > 6 {
        max_branch
    } else {
        6
    };
    (path_width, branch_width)
}

/// The rows of the kept repositories and their dirty/ahead/behind counts.
fn info_rows(
    infos: &Vec<(String, RepoStatus)>,
    kept_idx: &Vec<usize>,
    Ghost(kept): Ghost<Seq<InfoModel>>,
    path_width: usize,
    branch_width: usize,
) -> (r: (Vec<String>, usize, usize, usize))
    requires
        kept_idx@.len() == kept.len(),
        forall|k: int|
            0 <= k < kept.len() ==> #[trigger] kept_idx@[k] < infos@.len() && info_models(
                infos@,
            )[kept_idx@[k] as int] == kept[k],
        branch_width as nat == at_least(max_branch_bytes(kept), 6),
    ensures
        views(r.0@) == Seq::new(
            kept.len(),
            |q: int| info_row(kept[q], path_width as nat, branch_width as nat),
        ),
        r.1 as nat == count_dirty(kept),
        r.2 as nat == count_ahead(kept),
        r.3 as nat == count_behind(kept),
{
    let ghost models = info_models(infos@);
    let n = kept_idx.len();
    let mut r: Vec<String> = Vec::new();
    let mut dirty: usize = 0;
    let mut ahead: usize = 0;
    let mut behind: usize = 0;
    let mut k: usize = 0;
    assert(kept.take(0) =~= Seq::<InfoModel>::empty());
    while k < n
        invariant
            k <= n,
            n == kept_idx@.len(),
            n == kept.len(),
            forall|q: int|
                0 <= q < n ==> #[trigger] kept_idx@[q] < infos@.len() && models[kept_idx@[q] as int]
                    == kept[q],
            models == info_models(infos@),
            branch_width as nat == at_least(max_branch_bytes(kept), 6),
            views(r@) =~= Seq::new(
                k as nat,
                |q: int| info_row(kept[q], path_width as nat, branch_width as nat),
            ),
            dirty as nat == count_dirty(kept.take(k as int)),
            ahead as nat == count_ahead(kept.take(k as int)),
            behind as nat == count_behind(kept.take(k as int)),
            dirty <= k && ahead <= k && behind <= k,
        decreases n - k,
    {
        let idx = kept_idx[k];
        assert(models[idx as int] == kept[k as int]);
        proof {
            lemma_max_branch_bytes(kept, k as int);
        }
        let row = info_row_string(infos[idx].0.as_str(), &infos[idx].1, path_width, branch_width);
        let ghost before = views(r@);
        r.push(row);
        assert(views(r@) =~= before.push(info_row(kept[k as int], path_width as nat, branch_width as nat)));
        assert(kept.take(k + 1).drop_last() =~= kept.take(k as int));
        assert(kept.take(k + 1).last() == kept[k as int]);
        if infos[idx].1.is_dirty {
            dirty = dirty + 1;
        }
        if infos[idx].1.ahead > 0 {
            ahead = ahead + 1;
        }
        if infos[idx].1.behind > 0 {
            behind = behind + 1;
        }
        k = k + 1;
    }
    assert(kept.take(n as int) =~= kept);
    (r, dirty, ahead, behind)
}

/// The lines `info` prints for the repositories found and their status.
pub fn info_lines(infos: &Vec<(String, RepoStatus)>, branch_filter: &Option<String>) -> (r: Vec<String>)
    ensures
        views(r@) == info_text(info_models(infos@), opt_view(*branch_filter)),
{
    let ghost models = info_models(infos@);
    let ghost filter = opt_view(*branch_filter);
    let ghost kept = kept_infos(models, filter);
    let kept_idx = kept_info_indices(infos, branch_filter);
    if kept_idx.len() == 0 {
        let mut r: Vec<String> = Vec::new();
        let mut line = to_string("No git repositories matching branch '");
        match branch_filter {
            Some(f) => line.append(f.as_str()),
            None => {
                assert(line@ =~= line@ + Seq::<char>::empty());
            },
        }
        line.append("'.");
        r.push(line);
        assert(views(r@) =~= info_text(models, filter));
        return r;
    }
    let n = kept_idx.len();
    let (path_width, branch_width) = info_widths(infos, &kept_idx, Ghost(kept));
    let (mut r, dirty, ahead, behind) = info_rows(
        infos,
        &kept_idx,
        Ghost(kept),
        path_width,
        branch_width,
    );
    let ghost rows = views(r@);
    let empty = String::new();
    r.push(empty);
    let mut total = to_string("  Total: ");
    total.append(usize_to_string(n).as_str());
    total.append(" repos");
    if dirty > 0 {
        total.append(" | \x1b[33m");
        total.append(usize_to_string(dirty).as_str());
        total.append(" dirty\x1b[0m");
    }
    if ahead > 0 {
        total.append(" | \x1b[32m");
        total.append(usize_to_string(ahead).as_str());
        total.append(" ahead\x1b[0m");
    }
    if behind > 0 {
        total.append(" | \x1b[31m");
        total.append(usize_to_string(behind).as_str());
        total.append(" behind\x1b[0m");
    }
    assert(total@ =~= info_total(kept));
    r.push(total);
    assert(views(r@) =~= rows + seq![Seq::<char>::empty(), info_total(kept)]);
    assert(views(r@) =~= info_text(models, filter));
    r
}

proof fn lemma_max_branch_bytes(v: Seq<InfoModel>, i: int)
    requires
        0 <= i < v.len(),
    ensures
        (match v[i].1 {
            Some(b) => utf8_len(b),
            None => 8,
        }) <= max_branch_bytes(v),
    decreases v.len(),
{
    if i < v.len() - 1 {
        lemma_max_branch_bytes(v.drop_last(), i);
    }
}

// ---------------------------------------------------------------------------
// `last` and `log`
// ---------------------------------------------------------------------------

/// A commit as the `last` and `log` listings show it.
pub open spec fn commit_text(c: (Seq<char>, Seq<char>, Seq<char>, Seq<char>)) -> Seq<char> {
    "\x1b[33m"@ + c.0 + "\x1b[0m  \x1b[36m"@ + c.1 + "\x1b[0m  \x1b[90m"@ + c.2 + "\x1b[0m  "@ + c.3
}

pub fn commit_string(c: &CommitInfo) -> (r: String)
    ensures
        r@ == commit_text(c@),
{
    let mut r = to_string("\x1b[33m");
    r.append(c.hash.as_str());
    r.append("\x1b[0m  \x1b[36m");
    r.append(c.author.as_str());
    r.append("\x1b[0m  \x1b[90m");
    r.append(c.date.as_str());
    r.append("\x1b[0m  ");
    r.append(c.message.as_str());
    r
}

pub open spec fn commit_opt_view(c: Option<CommitInfo>) -> Option<(Seq<char>, Seq<char>, Seq<char>, Seq<char>)> {
    match c {
        Some(ci) => Some(ci@),
        None => None,
    }
}

/// One row of `last`: the padded path, then the latest commit or a note.
pub open spec fn last_row(path: Seq<char>, commit: Option<(Seq<char>, Seq<char>, Seq<char>, Seq<char>)>, width: nat) -> Seq<char> {
    "  📁 "@ + pad_right(path, width) + "  "@ + match commit {
        Some(c) => commit_text(c),
        None => "\x1b[90m(no commits)\x1b[0m"@,
    }
}

/// The lines `last` prints: one per repository, paths padded to the widest
/// path (at least 6 bytes).
pub fn last_lines(paths: &Vec<String>, commits: &Vec<Option<CommitInfo>>) -> (r: Vec<String>)
    requires
        paths@.len() == commits@.len(),
    ensures
        views(r@) == Seq::new(
            paths@.len(),
            |i: int|
                last_row(
                    paths@[i]@,
                    commit_opt_view(commits@[i]),
                    at_least(max_bytes(views(paths@)), 6),
                ),
        ),
{
    let m = max_bytes_of(paths);
    let width = if m > 6 {
        m
    } else {
        6
    };
    let mut r: Vec<String> = Vec::new();
    let mut i: usize = 0;
    while i < paths.len()
        invariant
            i <= paths@.len(),
            paths@.len() == commits@.len(),
            width as nat == at_least(max_bytes(views(paths@)), 6),
            views(r@) =~= Seq::new(
                i as nat,
                |q: int| last_row(paths@[q]@, commit_opt_view(commits@[q]), width as nat),
            ),
        decreases paths@.len() - i,
    {
        let mut line = to_string("  📁 ");
        line.append(pad_right_string(paths[i].as_str(), width).as_str());
        line.append("  ");
        match &commits[i] {
            Some(c) => line.append(commit_string(c).as_str()),
            None => line.append("\x1b[90m(no commits)\x1b[0m"),
        }
        let ghost before = views(r@);
        r.push(line);
        assert(views(r@) =~= before.push(last_row(paths@[i as int]@, commit_opt_view(commits@[i as int]), width as nat)));
        i = i + 1;
    }
    r
}

/// What `log` prints for one repository: a note when it has no commit;
/// else its path, one line per commit, and an empty line.
pub open spec fn log_text(path: Seq<char>, commits: Seq<(Seq<char>, Seq<char>, Seq<char>, Seq<char>)>) -> Seq<Seq<char>> {
    if commits.len() == 0 {
        seq!["  📁 "@ + path + "  \x1b[90m(no commits)\x1b[0m"@]
    } else {
        seq!["  📁 "@ + path + ":"@] + Seq::new(commits.len(), |i: int| "    "@ + commit_text(commits[i]))
            + seq![Seq::<char>::empty()]
    }
}

pub fn log_lines(path: &str, commits: &Vec<CommitInfo>) -> (r: Vec<String>)
    ensures
        views(r@) == log_text(path@, views(commits@)),
{
    let mut r: Vec<String> = Vec::new();
    if commits.len() == 0 {
        let mut line = to_string("  📁 ");
        line.append(path);
        line.append("  \x1b[90m(no commits)\x1b[0m");
        r.push(line);
        assert(views(r@) =~= log_text(path@, views(commits@)));
        return r;
    }
    let mut head = to_string("  📁 ");
    head.append(path);
    head.append(":");
    r.push(head);
    let mut i: usize = 0;
    while i < commits.len()
        invariant
            i <= commits@.len(),
            commits@.len() > 0,
            views(r@) =~= log_text(path@, views(commits@)).take(i + 1),
        decreases commits@.len() - i,
    {
        let line = concat2("    ", commit_string(&commits[i]).as_str());
        let ghost before = views(r@);
        r.push(line);
        assert(views(r@) =~= before.push(line@));
        i = i + 1;
    }
    let ghost before = views(r@);
    let empty = String::new();
    r.push(empty);
    assert(views(r@) =~= before.push(Seq::<char>::empty()));
    assert(views(r@) =~= log_text(path@, views(commits@)));
    r
}

} // verus!
