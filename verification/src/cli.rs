//! How `gx` reads its command line: command groups, subcommands and the
//! `shortcut` and `log` arguments.
use vstd::prelude::*;
use crate::config::Config;
use crate::text::{
    concat2, concat3, join, join_strings, parse_usize, parse_usize_chars, slice_chars, str_eq,
    to_chars, to_string, views, words, words_of, from_chars, chars_eq, starts_with,
    starts_with_chars,
};

verus! {

/// The built-in subcommands.
pub open spec fn is_builtin(a: Seq<char>) -> bool {
    a == "info"@ || a == "config"@ || a == "log"@ || a == "last"@ || a == "shortcut"@ || a == "git"@
}

/// Subcommands that take all the words after them: `git` hands them all to
/// git (`gx git log -1 --oneline`), `shortcut` and `config` read them.
pub open spec fn is_no_split(a: Seq<char>) -> bool {
    a == "shortcut"@ || a == "config"@ || a == "git"@
}

/// A word that begins a new command group: a built-in or a shortcut name.
pub open spec fn starts_group(a: Seq<char>, shortcuts: Set<Seq<char>>) -> bool {
    is_builtin(a) || shortcuts.contains(a)
}

/// The command groups of the command words: each command word begins a new
/// group, except after a `git`, `shortcut` or `config` group, which takes
/// every word after it.
pub open spec fn command_groups(cmds: Seq<Seq<char>>, shortcuts: Set<Seq<char>>) -> Seq<Seq<Seq<char>>>
    decreases cmds.len(),
{
    if cmds.len() == 0 {
        Seq::empty()
    } else {
        let g = command_groups(cmds.drop_last(), shortcuts);
        let a = cmds.last();
        if g.len() == 0 {
            seq![seq![a]]
        } else if !is_no_split(g.last()[0]) && starts_group(a, shortcuts) {
            g.push(seq![a])
        } else {
            g.update(g.len() - 1, g.last().push(a))
        }
    }
}

/// The views of a list of lists of strings.
pub open spec fn group_views(v: Seq<Vec<String>>) -> Seq<Seq<Seq<char>>> {
    Seq::new(v.len(), |i: int| views(v[i]@))
}

/// All groups concatenated.
pub open spec fn flatten(gs: Seq<Seq<Seq<char>>>) -> Seq<Seq<char>>
    decreases gs.len(),
{
    if gs.len() == 0 {
        Seq::empty()
    } else {
        flatten(gs.drop_last()) + gs.last()
    }
}

fn is_builtin_exec(a: &str) -> (r: bool)
    ensures
        r == is_builtin(a@),
{
    str_eq(a, "info") || str_eq(a, "config") || str_eq(a, "log") || str_eq(a, "last") || str_eq(
        a,
        "shortcut",
    ) || str_eq(a, "git")
}

fn is_no_split_exec(a: &str) -> (r: bool)
    ensures
        r == is_no_split(a@),
{
    str_eq(a, "shortcut") || str_eq(a, "config") || str_eq(a, "git")
}

/// Split args into command groups: each known command word starts a new group.
/// e.g. ["pull", "push"] → [["pull"], ["push"]]
/// e.g. ["pull", "origin", "main", "push"] → [["pull", "origin", "main"], ["push"]]
/// Does NOT split inside non-chaining commands (git, shortcut, config).
pub fn split_command_groups(commands: &Vec<String>, config: &Config) -> (r: Vec<Vec<String>>)
    ensures
        group_views(r@) == command_groups(views(commands@), config@.shortcuts.dom()),
{
    let ghost cv = views(commands@);
    let ghost sc = config@.shortcuts.dom();
    let mut groups: Vec<Vec<String>> = Vec::new();
    let mut current: Vec<String> = Vec::new();
    let mut in_no_split = false;
    let mut i: usize = 0;
    assert(cv.take(0) =~= Seq::<Seq<char>>::empty());
    assert(group_views(groups@) =~= Seq::<Seq<Seq<char>>>::empty());
    while i < commands.len()
        invariant
            i <= commands@.len(),
            cv == views(commands@),
            sc == config@.shortcuts.dom(),
            current@.len() == 0 ==> groups@.len() == 0,
            in_no_split == (current@.len() > 0 && is_no_split(current@[0]@)),
            command_groups(cv.take(i as int), sc) == (if current@.len() > 0 {
                group_views(groups@).push(views(current@))
            } else {
                group_views(groups@)
            }),
        decreases commands@.len() - i,
    {
        let arg = &commands[i];
        let ghost prev = command_groups(cv.take(i as int), sc);
        assert(cv.take(i + 1).drop_last() =~= cv.take(i as int));
        assert(cv.take(i + 1).last() == arg@);
        let boundary = is_builtin_exec(arg.as_str()) || config.shortcuts.contains_key(arg.as_str());
        let ghost gv = group_views(groups@);
        let ghost cur_v = views(current@);
        if current.len() == 0 {
            assert(gv =~= Seq::<Seq<Seq<char>>>::empty());
            current.push(arg.clone());
            assert(views(current@) =~= seq![arg@]);
            assert(views(current@)[0] == current@[0]@);
            assert(command_groups(cv.take(i + 1), sc) == group_views(groups@).push(views(current@)));
        } else if !in_no_split && boundary {
            assert(prev == gv.push(cur_v));
            assert(cur_v[0] == current@[0]@);
            let done = current;
            groups.push(done);
            assert(group_views(groups@) =~= gv.push(cur_v));
            current = Vec::new();
            current.push(arg.clone());
            assert(views(current@) =~= seq![arg@]);
            assert(views(current@)[0] == current@[0]@);
            assert(command_groups(cv.take(i + 1), sc) == group_views(groups@).push(views(current@)));
        } else {
            assert(prev == gv.push(cur_v));
            assert(cur_v[0] == current@[0]@);
            current.push(arg.clone());
            assert(views(current@) =~= cur_v.push(arg@));
            assert(views(current@)[0] == current@[0]@);
            assert(gv.push(cur_v).update(gv.len() as int, cur_v.push(arg@)) =~= gv.push(views(current@)));
            assert(command_groups(cv.take(i + 1), sc) == group_views(groups@).push(views(current@)));
        }
        if current.len() == 1 && is_no_split_exec(arg.as_str()) {
            in_no_split = true;
        }
        i = i + 1;
    }
    assert(cv.take(commands@.len() as int) =~= cv);
    if current.len() > 0 {
        let ghost cur_v = views(current@);
        let ghost old_g = group_views(groups@);
        groups.push(current);
        assert(group_views(groups@) =~= old_g.push(cur_v));
    }
    groups
}

/// The groups give back the command words, in order, and none is empty.
pub proof fn law_groups_partition_commands(cmds: Seq<Seq<char>>, shortcuts: Set<Seq<char>>)
    ensures
        flatten(command_groups(cmds, shortcuts)) == cmds,
        forall|i: int|
            0 <= i < command_groups(cmds, shortcuts).len() ==> #[trigger] command_groups(
                cmds,
                shortcuts,
            )[i].len() > 0,
    decreases cmds.len(),
{
    if cmds.len() > 0 {
        let c0 = cmds.drop_last();
        law_groups_partition_commands(c0, shortcuts);
        let g = command_groups(c0, shortcuts);
        let a = cmds.last();
        if g.len() == 0 {
            assert(c0.len() == 0) by {
                if c0.len() > 0 {
                    lemma_groups_nonempty(c0, shortcuts);
                }
            }
            assert(flatten(seq![seq![a]]) =~= seq![a]) by {
                assert(seq![seq![a]].drop_last() =~= Seq::<Seq<Seq<char>>>::empty());
            }
            assert(cmds =~= seq![a]);
        } else if !is_no_split(g.last()[0]) && starts_group(a, shortcuts) {
            assert(g.push(seq![a]).drop_last() =~= g);
            assert(cmds =~= c0 + seq![a]);
        } else {
            let g2 = g.update(g.len() - 1, g.last().push(a));
            assert(g2.drop_last() =~= g.drop_last());
            assert(flatten(g) == flatten(g.drop_last()) + g.last());
            assert(cmds =~= c0.push(a));
            assert(flatten(g2) =~= flatten(g.drop_last()) + g.last().push(a));
        }
    }
}

proof fn lemma_groups_nonempty(cmds: Seq<Seq<char>>, shortcuts: Set<Seq<char>>)
    requires
        cmds.len() > 0,
    ensures
        command_groups(cmds, shortcuts).len() > 0,
    decreases cmds.len(),
{
    if cmds.len() > 1 {
        lemma_groups_nonempty(cmds.drop_last(), shortcuts);
    }
}

/// Every group after the first begins with a command word, and a `git`,
/// `shortcut` or `config` group is the last one.
pub proof fn law_groups_begin_with_commands(cmds: Seq<Seq<char>>, shortcuts: Set<Seq<char>>)
    ensures
        forall|i: int|
            1 <= i < command_groups(cmds, shortcuts).len() ==> starts_group(
                #[trigger] command_groups(cmds, shortcuts)[i][0],
                shortcuts,
            ),
        forall|i: int|
            0 <= i < command_groups(cmds, shortcuts).len() - 1 ==> !is_no_split(
                #[trigger] command_groups(cmds, shortcuts)[i][0],
            ),
    decreases cmds.len(),
{
    law_groups_partition_commands(cmds, shortcuts);
    if cmds.len() > 0 {
        let c0 = cmds.drop_last();
        law_groups_begin_with_commands(c0, shortcuts);
        law_groups_partition_commands(c0, shortcuts);
        let g = command_groups(c0, shortcuts);
        let a = cmds.last();
        let g2 = command_groups(cmds, shortcuts);
        if g.len() > 0 && !(!is_no_split(g.last()[0]) && starts_group(a, shortcuts)) {
            assert forall|i: int| 0 <= i < g2.len() implies #[trigger] g2[i][0] == g[i][0] by {
                if i == g.len() - 1 {
                    assert(g[i].len() > 0);
                    assert(g2[i] == g[i].push(a));
                }
            }
        }
        if g.len() > 0 && !is_no_split(g.last()[0]) && starts_group(a, shortcuts) {
            assert forall|i: int| 0 <= i < g.len() implies #[trigger] g2[i] == g[i] by {}
            assert(g2[g.len() as int] == seq![a]);
        }
    }
}

/// Where group `k` begins among the command words.
pub open spec fn group_offset(gs: Seq<Seq<Seq<char>>>, k: int) -> nat {
    flatten(gs.take(k)).len()
}

/// Whether the command word at `i` begins a group: the first word does, and
/// so does every built-in or shortcut name with no `git`, `shortcut` or
/// `config` word before it.
pub open spec fn begins_group(cmds: Seq<Seq<char>>, i: int, shortcuts: Set<Seq<char>>) -> bool {
    i == 0 || (starts_group(cmds[i], shortcuts) && forall|j: int| 0 <= j < i ==> !is_no_split(#[trigger] cmds[j]))
}

/// The last group takes every word after it exactly when a `git`,
/// `shortcut` or `config` word came before.
proof fn lemma_last_group_no_split(cmds: Seq<Seq<char>>, shortcuts: Set<Seq<char>>)
    requires
        cmds.len() > 0,
    ensures
        command_groups(cmds, shortcuts).len() > 0,
        command_groups(cmds, shortcuts).last().len() > 0,
        is_no_split(command_groups(cmds, shortcuts).last()[0]) <==> exists|j: int|
            0 <= j < cmds.len() && is_no_split(#[trigger] cmds[j]),
    decreases cmds.len(),
{
    let c0 = cmds.drop_last();
    let a = cmds.last();
    let g = command_groups(c0, shortcuts);
    let ex0 = exists|j: int| 0 <= j < c0.len() && is_no_split(#[trigger] c0[j]);
    let ex = exists|j: int| 0 <= j < cmds.len() && is_no_split(#[trigger] cmds[j]);
    if ex0 {
        let j = choose|j: int| 0 <= j < c0.len() && is_no_split(#[trigger] c0[j]);
        assert(cmds[j] == c0[j]);
    }
    if is_no_split(a) {
        assert(is_no_split(cmds[cmds.len() - 1]));
    }
    if ex && !is_no_split(a) {
        let j = choose|j: int| 0 <= j < cmds.len() && is_no_split(#[trigger] cmds[j]);
        assert(j < c0.len());
        assert(c0[j] == cmds[j]);
    }
    if c0.len() == 0 {
        assert(g.len() == 0);
    } else {
        lemma_last_group_no_split(c0, shortcuts);
        law_groups_partition_commands(c0, shortcuts);
        if !is_no_split(g.last()[0]) && starts_group(a, shortcuts) {
        } else {
            let g2 = g.update(g.len() - 1, g.last().push(a));
            assert(g2.last()[0] == g.last()[0]);
        }
    }
}

proof fn lemma_group_offset_below(gs: Seq<Seq<Seq<char>>>, k: int)
    requires
        0 <= k < gs.len(),
        forall|i: int| 0 <= i < gs.len() ==> #[trigger] gs[i].len() > 0,
    ensures
        group_offset(gs, k) < flatten(gs).len(),
    decreases gs.len(),
{
    let d = gs.drop_last();
    if k == gs.len() - 1 {
        assert(gs.take(k) =~= d);
    } else {
        assert(d.take(k) =~= gs.take(k));
        assert forall|i: int| 0 <= i < d.len() implies #[trigger] d[i].len() > 0 by {
            assert(d[i] == gs[i]);
        }
        lemma_group_offset_below(d, k);
    }
}

/// A command word begins a group exactly when it is the first word, or a
/// built-in or shortcut name with no `git`, `shortcut` or `config` word
/// before it: `info pull` with a `pull` shortcut is two groups, and
/// `git log -1` one.
pub proof fn law_group_starts(cmds: Seq<Seq<char>>, shortcuts: Set<Seq<char>>, i: int)
    requires
        0 <= i < cmds.len(),
    ensures
        begins_group(cmds, i, shortcuts) <==> exists|k: int|
            0 <= k < command_groups(cmds, shortcuts).len() && group_offset(
                command_groups(cmds, shortcuts),
                k,
            ) == i,
    decreases cmds.len(),
{
    let c0 = cmds.drop_last();
    let a = cmds.last();
    let g = command_groups(c0, shortcuts);
    let gg = command_groups(cmds, shortcuts);
    let n = cmds.len() - 1;
    law_groups_partition_commands(cmds, shortcuts);
    law_groups_partition_commands(c0, shortcuts);
    if c0.len() == 0 {
        assert(g.len() == 0);
        assert(gg == seq![seq![a]]);
        assert(gg.take(0) =~= Seq::<Seq<Seq<char>>>::empty());
        assert(group_offset(gg, 0) == 0);
    } else {
        lemma_last_group_no_split(c0, shortcuts);
        let split = !is_no_split(g.last()[0]) && starts_group(a, shortcuts);
        // groups of the shorter list keep their offsets
        assert forall|k: int| 0 <= k < g.len() implies #[trigger] group_offset(gg, k) == group_offset(g, k) by {
            assert(gg.take(k) =~= g.take(k));
        }
        assert forall|k: int| 0 <= k < g.len() implies #[trigger] group_offset(g, k) < n by {
            lemma_group_offset_below(g, k);
        }
        if split {
            assert(gg.take(g.len() as int) =~= g);
            assert(group_offset(gg, g.len() as int) == n);
        }
        // whether word `i` begins a group depends only on the words up to `i`
        if i < n {
            law_group_starts(c0, shortcuts, i);
            assert(c0[i] == cmds[i]);
            assert((forall|j: int| 0 <= j < i ==> !is_no_split(#[trigger] cmds[j])) <==> (forall|j: int|
                0 <= j < i ==> !is_no_split(#[trigger] c0[j]))) by {
                assert forall|j: int| 0 <= j < i implies cmds[j] == c0[j] by {}
            }
            if exists|k: int| 0 <= k < gg.len() && group_offset(gg, k) == i {
                let k = choose|k: int| 0 <= k < gg.len() && group_offset(gg, k) == i;
                if k >= g.len() {
                    assert(split && k == g.len());
                }
            }
            if exists|k: int| 0 <= k < g.len() && group_offset(g, k) == i {
                let k = choose|k: int| 0 <= k < g.len() && group_offset(g, k) == i;
                assert(group_offset(gg, k) == i);
            }
        } else {
            assert(cmds[n] == a);
            assert((forall|j: int| 0 <= j < n ==> !is_no_split(#[trigger] cmds[j])) <==> !(exists|j: int|
                0 <= j < c0.len() && is_no_split(#[trigger] c0[j]))) by {
                assert forall|j: int| 0 <= j < n implies cmds[j] == c0[j] by {}
                if exists|j: int| 0 <= j < c0.len() && is_no_split(#[trigger] c0[j]) {
                    let j = choose|j: int| 0 <= j < c0.len() && is_no_split(#[trigger] c0[j]);
                    assert(is_no_split(cmds[j]));
                }
            }
            if exists|k: int| 0 <= k < gg.len() && group_offset(gg, k) == i {
                let k = choose|k: int| 0 <= k < gg.len() && group_offset(gg, k) == i;
                if k < g.len() {
                    assert(group_offset(g, k) < n);
                }
            }
            if split {
                assert(0 <= g.len() < gg.len());
            }
        }
    }
}

// ---------------------------------------------------------------------------
// Subcommands
// ---------------------------------------------------------------------------

/// What a `shortcut` command asks for.
pub enum ShortcutCommand {
    Add { name: String, command: String },
    Remove { name: String },
    List,
    Clear,
}

/// What a command group asks for.
pub enum Dispatch {
    Info,
    /// The latest commit of each repository: of its upstream branch when
    /// `remote`, filtered by the `extra` words for `git log`.
    Last { remote: bool, extra: Vec<String> },
    /// The `count` latest commits of each repository, as for `Last`.
    Log { count: usize, remote: bool, extra: Vec<String> },
    ShowConfig,
    Shortcut(ShortcutCommand),
    /// Run git with these arguments in every repository.
    Git(Vec<String>),
}

/// A command line that cannot be carried out.
pub enum CommandError {
    /// `shortcut` with no action.
    ShortcutUsage,
    /// `shortcut add` without a name and a command.
    ShortcutAddUsage,
    /// `shortcut rm` without a name.
    ShortcutRemoveUsage,
    /// An unknown `shortcut` action.
    UnknownShortcutAction(String),
    /// `git` with nothing after it.
    MissingGitCommand,
    /// A shortcut whose command is not a git command.
    ShortcutNotGit(String),
    /// A word that is neither a subcommand nor a shortcut.
    UnknownCommand(String),
}

impl CommandError {
    pub open spec fn message_text(&self) -> Seq<char> {
        match self {
            CommandError::ShortcutUsage => "Usage: gx shortcut <add|rm|list> [args]"@,
            CommandError::ShortcutAddUsage => "Usage: gx shortcut add <name> \"git <command>\""@,
            CommandError::ShortcutRemoveUsage => "Usage: gx shortcut rm <name>"@,
            CommandError::UnknownShortcutAction(a) => "Unknown shortcut command '"@ + a@
                + "'. Use: add, rm, list, clear"@,
            CommandError::MissingGitCommand => "Missing git command. Usage: gx git <command> [args]"@,
            CommandError::ShortcutNotGit(n) => "Shortcut '"@ + n@ + "' must expand to a git command"@,
            CommandError::UnknownCommand(c) => "Unknown command '"@ + c@
                + "'. Available: info, config, shortcut, git, <shortcut_name>"@,
        }
    }

    /// The message shown for this error.
    pub fn message(&self) -> (r: String)
        ensures
            r@ == self.message_text(),
    {
        match self {
            CommandError::ShortcutUsage => to_string("Usage: gx shortcut <add|rm|list> [args]"),
            CommandError::ShortcutAddUsage => to_string(
                "Usage: gx shortcut add <name> \"git <command>\"",
            ),
            CommandError::ShortcutRemoveUsage => to_string("Usage: gx shortcut rm <name>"),
            CommandError::UnknownShortcutAction(a) => concat3(
                "Unknown shortcut command '",
                a.as_str(),
                "'. Use: add, rm, list, clear",
            ),
            CommandError::MissingGitCommand => to_string(
                "Missing git command. Usage: gx git <command> [args]",
            ),
            CommandError::ShortcutNotGit(n) => concat3(
                "Shortcut '",
                n.as_str(),
                "' must expand to a git command",
            ),
            CommandError::UnknownCommand(c) => concat3(
                "Unknown command '",
                c.as_str(),
                "'. Available: info, config, shortcut, git, <shortcut_name>",
            ),
        }
    }
}

/// At least one.
pub open spec fn at_least_one(n: usize) -> usize {
    if n >= 1 {
        n
    } else {
        1
    }
}

/// The `git log` options that filter commits and take a value, passed on to
/// git from the words after `log` or `last`.
pub open spec fn log_filter_options() -> Seq<Seq<char>> {
    seq![
        "--author"@,
        "--committer"@,
        "--since"@,
        "--after"@,
        "--until"@,
        "--before"@,
        "--grep"@,
    ]
}

/// A filter option followed by its value as a word of its own.
pub open spec fn is_filter_option(a: Seq<char>) -> bool {
    log_filter_options().contains(a)
}

/// A filter option with its value in the same word (`--author=rock`).
pub open spec fn is_filter_assignment(a: Seq<char>) -> bool {
    exists|i: int|
        0 <= i < log_filter_options().len() && starts_with(a, #[trigger] log_filter_options()[i].push('='))
}

/// An option of `gx` itself that takes a value; the command words may hold
/// it when it follows the subcommand.
pub open spec fn is_own_value_option(a: Seq<char>) -> bool {
    a == "--depth"@ || a == "-d"@ || a == "--path"@ || a == "-p"@ || a == "--branch"@
}

/// What the words after `log` (or `last`) ask for, read from left to right:
/// (count, what the next word is expected to be, whether `--remote` was
/// given, the words handed on to `git log`). The expectation is 0 for
/// nothing, 1 for the number of a `-n`, 2 for the value of a filter option
/// (kept) and 3 for the value of an option of `gx` (dropped).
/// `-N` and `-n N` (N a number) set the count, at least 1, the last one
/// winning (3 when none does); `--remote` asks for the upstream branch; the
/// filter options of `log_filter_options` go to git with their values; every
/// other word, `gx`'s own options among them, is ignored.
pub open spec fn log_scan(args: Seq<Seq<char>>) -> (usize, int, bool, Seq<Seq<char>>)
    decreases args.len(),
{
    if args.len() == 0 {
        (3, 0, false, Seq::empty())
    } else {
        let (n, wait, remote, extra) = log_scan(args.drop_last());
        let a = args.last();
        if wait == 2 {
            (n, 0, remote, extra.push(a))
        } else if wait == 3 {
            (n, 0, remote, extra)
        } else if wait == 1 && parse_usize(a) is Some {
            (at_least_one(parse_usize(a)->0), 0, remote, extra)
        } else if a == "-n"@ {
            (n, 1, remote, extra)
        } else if a == "--remote"@ {
            (n, 0, true, extra)
        } else if a.len() > 0 && a[0] == '-' && parse_usize(a.drop_first()) is Some {
            (at_least_one(parse_usize(a.drop_first())->0), 0, remote, extra)
        } else if is_filter_option(a) {
            (n, 2, remote, extra.push(a))
        } else if is_filter_assignment(a) {
            (n, 0, remote, extra.push(a))
        } else if is_own_value_option(a) {
            (n, 3, remote, extra)
        } else {
            (n, 0, remote, extra)
        }
    }
}

/// The commit count a `log` group asks for.
pub open spec fn log_count(args: Seq<Seq<char>>) -> usize {
    log_scan(args).0
}

/// Whether a `log` or `last` group asks for the upstream branch.
pub open spec fn log_remote(args: Seq<Seq<char>>) -> bool {
    log_scan(args).2
}

/// The words of a `log` or `last` group handed on to `git log`.
pub open spec fn log_extra(args: Seq<Seq<char>>) -> Seq<Seq<char>> {
    log_scan(args).3
}

/// `log` always asks for at least one commit.
pub proof fn law_log_count_positive(args: Seq<Seq<char>>)
    ensures
        log_count(args) >= 1,
    decreases args.len(),
{
    if args.len() > 0 {
        law_log_count_positive(args.drop_last());
    }
}

fn filter_option_words() -> (r: Vec<String>)
    ensures
        views(r@) == log_filter_options(),
{
    let r = vec![
        to_string("--author"),
        to_string("--committer"),
        to_string("--since"),
        to_string("--after"),
        to_string("--until"),
        to_string("--before"),
        to_string("--grep"),
    ];
    assert(views(r@) =~= log_filter_options());
    r
}

fn is_filter_option_exec(a: &str) -> (r: bool)
    ensures
        r == is_filter_option(a@),
{
    let opts = filter_option_words();
    let mut i: usize = 0;
    while i < opts.len()
        invariant
            i <= opts@.len(),
            views(opts@) == log_filter_options(),
            forall|j: int| 0 <= j < i ==> log_filter_options()[j] != a@,
        decreases opts@.len() - i,
    {
        assert(log_filter_options()[i as int] == opts@[i as int]@);
        if str_eq(opts[i].as_str(), a) {
            return true;
        }
        i = i + 1;
    }
    false
}

fn is_filter_assignment_exec(a: &Vec<char>) -> (r: bool)
    ensures
        r == is_filter_assignment(a@),
{
    let opts = filter_option_words();
    let mut i: usize = 0;
    while i < opts.len()
        invariant
            i <= opts@.len(),
            views(opts@) == log_filter_options(),
            forall|j: int|
                0 <= j < i ==> !starts_with(a@, #[trigger] log_filter_options()[j].push('=')),
        decreases opts@.len() - i,
    {
        assert(log_filter_options()[i as int] == opts@[i as int]@);
        let mut prefix = to_chars(opts[i].as_str());
        prefix.push('=');
        if starts_with_chars(a, &prefix) {
            return true;
        }
        i = i + 1;
    }
    false
}

fn is_own_value_option_exec(a: &str) -> (r: bool)
    ensures
        r == is_own_value_option(a@),
{
    str_eq(a, "--depth") || str_eq(a, "-d") || str_eq(a, "--path") || str_eq(a, "-p") || str_eq(
        a,
        "--branch",
    )
}

/// What the words after `log` ask for: (count, remote, words for git).
pub fn parse_log_request(args: &Vec<String>) -> (r: (usize, bool, Vec<String>))
    ensures
        r.0 == log_count(views(args@)),
        r.1 == log_remote(views(args@)),
        views(r.2@) == log_extra(views(args@)),
{
    proof {
        reveal_strlit("-n");
        reveal_strlit("--remote");
    }
    let ghost av = views(args@);
    let mut n: usize = 3;
    let mut wait: u8 = 0;
    let mut remote = false;
    let mut extra: Vec<String> = Vec::new();
    let dash_n = to_chars("-n");
    let remote_word = to_chars("--remote");
    let mut i: usize = 0;
    assert(av.take(0) =~= Seq::<Seq<char>>::empty());
    assert(views(extra@) =~= Seq::<Seq<char>>::empty());
    while i < args.len()
        invariant
            i <= args@.len(),
            av == views(args@),
            dash_n@ == "-n"@,
            remote_word@ == "--remote"@,
            log_scan(av.take(i as int)) == (n, wait as int, remote, views(extra@)),
        decreases args@.len() - i,
    {
        assert(av.take(i + 1).drop_last() =~= av.take(i as int));
        assert(av.take(i + 1).last() == args@[i as int]@);
        let a = to_chars(args[i].as_str());
        let ghost before = views(extra@);
        if wait == 2 {
            extra.push(args[i].clone());
            assert(views(extra@) =~= before.push(args@[i as int]@));
            wait = 0;
        } else if wait == 3 {
            wait = 0;
        } else {
            let as_number = if wait == 1 {
                parse_usize_chars(&a)
            } else {
                None
            };
            match as_number {
                Some(v) => {
                    n = if v >= 1 {
                        v
                    } else {
                        1
                    };
                    wait = 0;
                },
                None => {
                    let counted = if a.len() > 0 && a[0] == '-' {
                        let digits = slice_chars(&a, 1, a.len());
                        assert(digits@ =~= a@.drop_first());
                        parse_usize_chars(&digits)
                    } else {
                        None
                    };
                    if chars_eq(&a, &dash_n) {
                        wait = 1;
                    } else if chars_eq(&a, &remote_word) {
                        wait = 0;
                        remote = true;
                    } else if counted.is_some() {
                        let v = counted.unwrap();
                        n = if v >= 1 {
                            v
                        } else {
                            1
                        };
                        wait = 0;
                    } else if is_filter_option_exec(args[i].as_str()) {
                        extra.push(args[i].clone());
                        assert(views(extra@) =~= before.push(args@[i as int]@));
                        wait = 2;
                    } else if is_filter_assignment_exec(&a) {
                        extra.push(args[i].clone());
                        assert(views(extra@) =~= before.push(args@[i as int]@));
                        wait = 0;
                    } else if is_own_value_option_exec(args[i].as_str()) {
                        wait = 3;
                    } else {
                        wait = 0;
                    }
                },
            }
        }
        i = i + 1;
    }
    assert(av.take(args@.len() as int) =~= av);
    (n, remote, extra)
}

/// Parse -N (e.g. -5) or -n N from log subcommand args, default 3
pub fn parse_log_count(args: &Vec<String>) -> (n: usize)
    ensures
        n == log_count(views(args@)),
{
    let (n, _, _) = parse_log_request(args);
    n
}

/// What the words after `shortcut` ask for: `add <name> <command words>`,
/// `rm <name>`, `list` or `clear`, or the usage error that fits.
pub open spec fn shortcut_parse(args: Seq<Seq<char>>, r: Result<ShortcutCommand, CommandError>) -> bool {
    if args.len() == 0 {
        r matches Err(CommandError::ShortcutUsage)
    } else if args[0] == "add"@ {
        if args.len() < 3 {
            r matches Err(CommandError::ShortcutAddUsage)
        } else {
            r matches Ok(ShortcutCommand::Add { name, command }) && name@ == args[1] && command@
                == join(args.skip(2), " "@)
        }
    } else if args[0] == "rm"@ {
        if args.len() < 2 {
            r matches Err(CommandError::ShortcutRemoveUsage)
        } else {
            r matches Ok(ShortcutCommand::Remove { name }) && name@ == args[1]
        }
    } else if args[0] == "list"@ {
        r matches Ok(ShortcutCommand::List)
    } else if args[0] == "clear"@ {
        r matches Ok(ShortcutCommand::Clear)
    } else {
        r matches Err(CommandError::UnknownShortcutAction(a)) && a@ == args[0]
    }
}

/// Reads the words after `shortcut`.
pub fn parse_shortcut_command(args: &Vec<String>) -> (r: Result<ShortcutCommand, CommandError>)
    ensures
        shortcut_parse(views(args@), r),
{
    proof {
        reveal_strlit("add");
        reveal_strlit("rm");
        reveal_strlit("list");
        reveal_strlit("clear");
        assert("add"@.len() == 3 && "rm"@.len() == 2 && "list"@.len() == 4 && "clear"@.len() == 5);
    }
    if args.len() == 0 {
        return Err(CommandError::ShortcutUsage);
    }
    let action = args[0].as_str();
    if str_eq(action, "add") {
        if args.len() < 3 {
            return Err(CommandError::ShortcutAddUsage);
        }
        let rest = slice_strings(args, 2);
        let command = join_strings(rest.as_slice(), " ");
        Ok(ShortcutCommand::Add { name: args[1].clone(), command })
    } else if str_eq(action, "rm") {
        if args.len() < 2 {
            return Err(CommandError::ShortcutRemoveUsage);
        }
        Ok(ShortcutCommand::Remove { name: args[1].clone() })
    } else if str_eq(action, "list") {
        Ok(ShortcutCommand::List)
    } else if str_eq(action, "clear") {
        Ok(ShortcutCommand::Clear)
    } else {
        Err(CommandError::UnknownShortcutAction(args[0].clone()))
    }
}

/// The git arguments a shortcut gives: the words of its command then the
/// words after it, less the leading `git`; none unless that begins with `git`.
pub open spec fn shortcut_expansion(command: Seq<char>, rest: Seq<Seq<char>>) -> Option<Seq<Seq<char>>> {
    let expanded = words(command) + rest;
    if expanded.len() == 0 || expanded[0] != "git"@ {
        None
    } else {
        Some(expanded.skip(1))
    }
}

/// Decides what a command group asks for.
pub fn dispatch_command(config: &Config, group: &Vec<String>) -> (r: Result<Dispatch, CommandError>)
    requires
        group@.len() > 0,
    ensures
        ({
            let sub = group@[0]@;
            let rest = views(group@).skip(1);
            &&& sub == "info"@ ==> (r matches Ok(Dispatch::Info))
            &&& sub == "last"@ ==> (r matches Ok(Dispatch::Last { remote, extra }) && remote
                == log_remote(rest) && views(extra@) == log_extra(rest))
            &&& sub == "log"@ ==> (r matches Ok(Dispatch::Log { count, remote, extra }) && count
                == log_count(rest) && remote == log_remote(rest) && views(extra@) == log_extra(rest))
            &&& sub == "config"@ ==> (r matches Ok(Dispatch::ShowConfig))
            &&& sub == "shortcut"@ ==> match r {
                Ok(Dispatch::Shortcut(s)) => shortcut_parse(rest, Ok(s)),
                Err(e) => shortcut_parse(rest, Err(e)),
                _ => false,
            }
            &&& sub == "git"@ ==> if rest.len() == 0 {
                (r matches Err(CommandError::MissingGitCommand))
            } else {
                (r matches Ok(Dispatch::Git(a)) && views(a@) == rest)
            }
            &&& !is_builtin(sub) && config@.shortcuts.dom().contains(sub) ==> match shortcut_expansion(
                config@.shortcuts[sub],
                rest,
            ) {
                Some(a) => (r matches Ok(Dispatch::Git(g)) && views(g@) == a),
                None => (r matches Err(CommandError::ShortcutNotGit(n)) && n@ == sub),
            }
            &&& !is_builtin(sub) && !config@.shortcuts.dom().contains(sub) ==> (r matches Err(
                CommandError::UnknownCommand(n),
            ) && n@ == sub)
        }),
{
    proof {
        reveal_strlit("info");
        reveal_strlit("last");
        reveal_strlit("log");
        reveal_strlit("config");
        reveal_strlit("shortcut");
        reveal_strlit("git");
        assert("info"@.len() == 4 && "info"@[0] == 'i');
        assert("last"@.len() == 4 && "last"@[0] == 'l');
        assert("log"@.len() == 3 && "log"@[1] == 'o');
        assert("git"@.len() == 3 && "git"@[1] == 'i');
        assert("config"@.len() == 6 && "shortcut"@.len() == 8);
    }
    let subcmd = group[0].as_str();
    let rest = slice_strings(group, 1);
    if str_eq(subcmd, "info") {
        Ok(Dispatch::Info)
    } else if str_eq(subcmd, "last") {
        let (_, remote, extra) = parse_log_request(&rest);
        Ok(Dispatch::Last { remote, extra })
    } else if str_eq(subcmd, "log") {
        let (count, remote, extra) = parse_log_request(&rest);
        Ok(Dispatch::Log { count, remote, extra })
    } else if str_eq(subcmd, "config") {
        Ok(Dispatch::ShowConfig)
    } else if str_eq(subcmd, "shortcut") {
        match parse_shortcut_command(&rest) {
            Ok(s) => Ok(Dispatch::Shortcut(s)),
            Err(e) => Err(e),
        }
    } else if str_eq(subcmd, "git") {
        if rest.len() == 0 {
            return Err(CommandError::MissingGitCommand);
        }
        Ok(Dispatch::Git(rest))
    } else {
        match config.shortcuts.get(subcmd) {
            Some(full_cmd) => {
                let ws = words_of(&to_chars(full_cmd.as_str()));
                let mut expanded: Vec<String> = Vec::new();
                let mut i: usize = 0;
                while i < ws.len()
                    invariant
                        i <= ws@.len(),
                        views(expanded@) =~= views(ws@).take(i as int),
                    decreases ws@.len() - i,
                {
                    let w = from_chars(&ws[i]);
                    let ghost before = views(expanded@);
                    expanded.push(w);
                    assert(views(expanded@) =~= before.push(ws@[i as int]@));
                    i = i + 1;
                }
                assert(views(ws@).take(ws@.len() as int) =~= views(ws@));
                let mut k: usize = 0;
                let ghost w_v = views(expanded@);
                while k < rest.len()
                    invariant
                        k <= rest@.len(),
                        views(expanded@) =~= w_v + views(rest@).take(k as int),
                    decreases rest@.len() - k,
                {
                    let a = rest[k].clone();
                    let ghost before = views(expanded@);
                    expanded.push(a);
                    assert(views(expanded@) =~= before.push(rest@[k as int]@));
                    k = k + 1;
                }
                assert(views(rest@).take(rest@.len() as int) =~= views(rest@));
                if expanded.len() == 0 || !str_eq(expanded[0].as_str(), "git") {
                    proof {
                        if expanded@.len() > 0 {
                            assert(views(expanded@)[0] == expanded@[0]@);
                        }
                    }
                    return Err(CommandError::ShortcutNotGit(group[0].clone()));
                }
                assert(views(expanded@)[0] == expanded@[0]@);
                let git_args = slice_strings(&expanded, 1);
                Ok(Dispatch::Git(git_args))
            },
            None => Err(CommandError::UnknownCommand(group[0].clone())),
        }
    }
}

/// The strings of `v` from index `from` on.
fn slice_strings(v: &Vec<String>, from: usize) -> (r: Vec<String>)
    requires
        from <= v@.len(),
    ensures
        views(r@) == views(v@).skip(from as int),
{
    let mut r: Vec<String> = Vec::new();
    let mut i: usize = from;
    while i < v.len()
        invariant
            from <= i <= v@.len(),
            views(r@) =~= views(v@).subrange(from as int, i as int),
        decreases v@.len() - i,
    {
        let s = v[i].clone();
        let ghost before = views(r@);
        r.push(s);
        assert(views(r@) =~= before.push(v@[i as int]@));
        i = i + 1;
    }
    r
}

} // verus!
