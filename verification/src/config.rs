//! Configuration of `gx`: the default search depth, exclusion patterns and
//! shortcut commands, and how the user-level and project-level files merge.
use vstd::prelude::*;
use crate::color::{c, colored, Color};
use crate::shortcut_map::{map_of, pairs_view, strictly_sorted, ShortcutMap};
use crate::text::{
    byte_len, pad_right, pad_right_string, starts_with, starts_with_chars, to_chars, to_string,
    usize_to_string, decimal, utf8_len, views,
};

verus! {

/// Directories/patterns to exclude from search
pub struct ExcludePatterns {
    /// Directory names to exclude
    pub names: Vec<String>,
    /// Glob patterns to exclude
    pub globs: Vec<String>,
    /// Regex patterns to exclude
    pub regexes: Vec<String>,
}

/// Configuration file structure
pub struct Config {
    /// Default maximum directory depth to search (`None` where a file does
    /// not set it)
    pub default_depth: Option<usize>,
    /// Directories/patterns to exclude from search
    pub exclude: ExcludePatterns,
    /// Custom shortcut commands
    pub shortcuts: ShortcutMap,
}

/// The mathematical content of a configuration.
pub struct ConfigModel {
    pub default_depth: Option<usize>,
    pub names: Seq<Seq<char>>,
    pub globs: Seq<Seq<char>>,
    pub regexes: Seq<Seq<char>>,
    pub shortcuts: Map<Seq<char>, Seq<char>>,
}

impl View for Config {
    type V = ConfigModel;

    open spec fn view(&self) -> ConfigModel {
        ConfigModel {
            default_depth: self.default_depth,
            names: views(self.exclude.names@),
            globs: views(self.exclude.globs@),
            regexes: views(self.exclude.regexes@),
            shortcuts: self.shortcuts@,
        }
    }
}

/// The depth used when neither the command line nor a file sets one.
pub open spec fn spec_default_depth() -> usize {
    3
}

pub fn default_depth() -> (r: usize)
    ensures
        r == spec_default_depth(),
{
    3
}

/// The configuration used when no file sets anything.
pub open spec fn default_model() -> ConfigModel {
    ConfigModel {
        default_depth: Some(spec_default_depth()),
        names: Seq::empty(),
        globs: Seq::empty(),
        regexes: Seq::empty(),
        shortcuts: Map::empty(),
    }
}

impl Default for ExcludePatterns {
    fn default() -> (r: Self)
        ensures
            r.names@.len() == 0,
            r.globs@.len() == 0,
            r.regexes@.len() == 0,
    {
        ExcludePatterns { names: Vec::new(), globs: Vec::new(), regexes: Vec::new() }
    }
}

impl Default for Config {
    fn default() -> (r: Self)
        ensures
            r@ == default_model(),
    {
        let r = Config {
            default_depth: Some(default_depth()),
            exclude: ExcludePatterns { names: Vec::new(), globs: Vec::new(), regexes: Vec::new() },
            shortcuts: ShortcutMap::new(),
        };
        assert(r@.names =~= Seq::<Seq<char>>::empty());
        assert(r@.globs =~= Seq::<Seq<char>>::empty());
        assert(r@.regexes =~= Seq::<Seq<char>>::empty());
        r
    }
}

/// The search depth: the command line's when given, else the configured
/// one, else the built-in default.
pub fn search_depth(cli_depth: Option<usize>, config: &Config) -> (r: usize)
    ensures
        r == match cli_depth {
            Some(d) => d,
            None => match config.default_depth {
                Some(d) => d,
                None => spec_default_depth(),
            },
        },
{
    match cli_depth {
        Some(d) => d,
        None => match config.default_depth {
            Some(d) => d,
            None => default_depth(),
        },
    }
}

// ---------------------------------------------------------------------------
// Merging
// ---------------------------------------------------------------------------

/// `r` followed by the items of `items` that are not already there, in
/// order, each taken once.
pub open spec fn add_new(r: Seq<Seq<char>>, items: Seq<Seq<char>>) -> Seq<Seq<char>>
    decreases items.len(),
{
    if items.len() == 0 {
        r
    } else {
        let p = add_new(r, items.drop_last());
        if p.contains(items.last()) {
            p
        } else {
            p.push(items.last())
        }
    }
}

/// The items of a list, each taken once, in the order of first occurrence.
pub open spec fn distinct(items: Seq<Seq<char>>) -> Seq<Seq<char>> {
    add_new(Seq::empty(), items)
}

/// A lower-level list merged with a higher-level one: the items of both,
/// base first, each taken once (arrays are merged and deduplicated).
pub open spec fn merged_items(base: Seq<Seq<char>>, over: Seq<Seq<char>>) -> Seq<Seq<char>> {
    distinct(base + over)
}

/// Whether a list of strings holds the given string.
pub fn contains_string(v: &Vec<String>, s: &String) -> (r: bool)
    ensures
        r == views(v@).contains(s@),
{
    let mut i: usize = 0;
    while i < v.len()
        invariant
            i <= v@.len(),
            forall|j: int| 0 <= j < i ==> v@[j]@ != s@,
        decreases v@.len() - i,
    {
        if v[i] == *s {
            assert(views(v@)[i as int] == s@);
            return true;
        }
        i = i + 1;
    }
    assert forall|j: int| 0 <= j < views(v@).len() implies views(v@)[j] != s@ by {
        assert(views(v@)[j] == v@[j]@);
    }
    false
}

/// A copy of a list of strings.
pub fn copy_strings(v: &Vec<String>) -> (r: Vec<String>)
    ensures
        views(r@) == views(v@),
{
    let mut r: Vec<String> = Vec::new();
    let mut i: usize = 0;
    while i < v.len()
        invariant
            i <= v@.len(),
            views(r@) =~= views(v@).take(i as int),
        decreases v@.len() - i,
    {
        let item = v[i].clone();
        let ghost before = views(r@);
        r.push(item);
        assert(views(r@) =~= before.push(v@[i as int]@));
        i = i + 1;
    }
    assert(views(v@).take(v@.len() as int) =~= views(v@));
    r
}

/// Appends to `result` the items of `items` it does not hold yet.
fn add_new_items(result: &mut Vec<String>, items: &Vec<String>)
    ensures
        views(final(result)@) == add_new(views(old(result)@), views(items@)),
{
    let ghost start = views(result@);
    let mut i: usize = 0;
    assert(views(items@).take(0) =~= Seq::<Seq<char>>::empty());
    while i < items.len()
        invariant
            i <= items@.len(),
            views(result@) == add_new(start, views(items@).take(i as int)),
        decreases items@.len() - i,
    {
        let ghost o = views(items@).take(i + 1);
        assert(o.drop_last() =~= views(items@).take(i as int));
        assert(o.last() == items@[i as int]@);
        if !contains_string(result, &items[i]) {
            let ghost before = views(result@);
            result.push(items[i].clone());
            assert(views(result@) =~= before.push(items@[i as int]@));
        }
        i = i + 1;
    }
    assert(views(items@).take(items@.len() as int) =~= views(items@));
}

/// Merge arrays with deduplication
pub fn merge_arrays(base: &Vec<String>, override_: &Vec<String>) -> (r: Vec<String>)
    ensures
        views(r@) == merged_items(views(base@), views(override_@)),
{
    let mut result: Vec<String> = Vec::new();
    assert(views(result@) =~= Seq::<Seq<char>>::empty());
    add_new_items(&mut result, base);
    add_new_items(&mut result, override_);
    proof {
        lemma_add_new_concat(Seq::empty(), views(base@), views(override_@));
    }
    result
}

/// A setting of the higher level where it sets one, else the lower one's.
pub open spec fn over_setting(base: Option<usize>, over: Option<usize>) -> Option<usize> {
    match over {
        Some(d) => Some(d),
        None => base,
    }
}

/// The result of merging a higher-level configuration over a lower one:
/// the higher level overrides only what it sets.
pub open spec fn merge_models(base: ConfigModel, over: ConfigModel) -> ConfigModel {
    ConfigModel {
        default_depth: over_setting(base.default_depth, over.default_depth),
        names: merged_items(base.names, over.names),
        globs: merged_items(base.globs, over.globs),
        regexes: merged_items(base.regexes, over.regexes),
        shortcuts: base.shortcuts.union_prefer_right(over.shortcuts),
    }
}

/// Shortcuts of `base` with those of `over` set over them.
fn merge_shortcuts(base: &ShortcutMap, over: &ShortcutMap) -> (r: ShortcutMap)
    ensures
        r@ == base@.union_prefer_right(over@),
{
    let mut r = base.copied();
    let entries = over.entry_list();
    let ghost pv = pairs_view(entries@);
    let mut i: usize = 0;
    assert(pv.take(0) =~= Seq::<(Seq<char>, Seq<char>)>::empty());
    assert(base@.union_prefer_right(map_of(pv.take(0))) =~= base@);
    while i < entries.len()
        invariant
            i <= entries@.len(),
            pv == pairs_view(entries@),
            map_of(pv) == over@,
            r@ == base@.union_prefer_right(map_of(pv.take(i as int))),
        decreases entries@.len() - i,
    {
        let ghost m = map_of(pv.take(i as int));
        assert(pv.take(i + 1).drop_last() =~= pv.take(i as int));
        assert(pv.take(i + 1).last() == pv[i as int]);
        let name = entries[i].0.clone();
        let command = entries[i].1.clone();
        r.insert(name, command);
        assert(r@ =~= base@.union_prefer_right(map_of(pv.take(i + 1))));
        i = i + 1;
    }
    assert(pv.take(entries@.len() as int) =~= pv);
    r
}

/// Merge two configs (override takes precedence)
pub fn merge_configs(base: &Config, override_: &Config) -> (r: Config)
    ensures
        r@ == merge_models(base@, override_@),
{
    Config {
        default_depth: match override_.default_depth {
            Some(d) => Some(d),
            None => base.default_depth,
        },
        exclude: ExcludePatterns {
            names: merge_arrays(&base.exclude.names, &override_.exclude.names),
            globs: merge_arrays(&base.exclude.globs, &override_.exclude.globs),
            regexes: merge_arrays(&base.exclude.regexes, &override_.exclude.regexes),
        },
        shortcuts: merge_shortcuts(&base.shortcuts, &override_.shortcuts),
    }
}

/// The configuration in effect given what the user-level and project-level
/// files hold (`None` where a file is absent): the built-in defaults, the
/// user file merged over them, and the project file merged over that.
pub open spec fn effective_model(user: Option<ConfigModel>, project: Option<ConfigModel>) -> ConfigModel {
    let base = match user {
        Some(u) => merge_models(default_model(), u),
        None => default_model(),
    };
    match project {
        Some(p) => merge_models(base, p),
        None => base,
    }
}

/// Combines the loaded configuration files: the built-in defaults, the
/// user-level file over them, then the project-level file over that.
pub fn merge_loaded_configs(user: Option<Config>, project: Option<Config>) -> (r: Config)
    ensures
        r@ == effective_model(
            match user {
                Some(u) => Some(u@),
                None => None,
            },
            match project {
                Some(p) => Some(p@),
                None => None,
            },
        ),
{
    let base = match user {
        Some(u) => merge_configs(&Config::default(), &u),
        None => Config::default(),
    };
    match project {
        Some(p) => merge_configs(&base, &p),
        None => base,
    }
}

/// The line `config` shows for the loaded file at `index` (from 0): its
/// number, its level and its path.
pub fn config_source_line(index: usize, is_project: bool, path: &str) -> (r: String)
    requires
        index < usize::MAX,
    ensures
        r@ == "  "@ + decimal((index + 1) as nat) + ". ["@ + (if is_project {
            "Project"@
        } else {
            "User"@
        }) + "] "@ + path@,
{
    let mut r = to_string("  ");
    r.append(usize_to_string(index + 1).as_str());
    r.append(". [");
    if is_project {
        r.append("Project");
    } else {
        r.append("User");
    }
    r.append("] ");
    r.append(path);
    r
}

// ---------------------------------------------------------------------------
// Laws of merging
// ---------------------------------------------------------------------------

/// Adding items keeps what was there unchanged at the front.
proof fn lemma_add_new_keeps_front(r: Seq<Seq<char>>, items: Seq<Seq<char>>)
    ensures
        add_new(r, items).len() >= r.len(),
        add_new(r, items).take(r.len() as int) == r,
    decreases items.len(),
{
    if items.len() == 0 {
        assert(r.take(r.len() as int) =~= r);
    } else {
        lemma_add_new_keeps_front(r, items.drop_last());
        let p = add_new(r, items.drop_last());
        assert(p.push(items.last()).take(r.len() as int) =~= p.take(r.len() as int));
    }
}

/// An item is in the result exactly when it was there or is added.
proof fn lemma_add_new_union(r: Seq<Seq<char>>, items: Seq<Seq<char>>, x: Seq<char>)
    ensures
        add_new(r, items).contains(x) <==> (r.contains(x) || items.contains(x)),
    decreases items.len(),
{
    if items.len() > 0 {
        let o = items.drop_last();
        lemma_add_new_union(r, o, x);
        let p = add_new(r, o);
        let last = items.last();
        if o.contains(x) {
            let i = choose|i: int| 0 <= i < o.len() && o[i] == x;
            assert(items[i] == x);
        }
        if items.contains(x) && x != last {
            let i = choose|i: int| 0 <= i < items.len() && items[i] == x;
            assert(o[i] == x);
        }
        if x == last {
            assert(items[items.len() - 1] == x);
        }
        if !p.contains(last) {
            let p2 = p.push(last);
            assert(p2[p.len() as int] == last);
            if p.contains(x) {
                let i = choose|i: int| 0 <= i < p.len() && p[i] == x;
                assert(p2[i] == x);
            }
            if p2.contains(x) && x != last {
                let i = choose|i: int| 0 <= i < p2.len() && p2[i] == x;
                assert(p[i] == x);
            }
        }
    }
}

/// Adding items to a list without duplicates makes none.
proof fn lemma_add_new_no_duplicates(r: Seq<Seq<char>>, items: Seq<Seq<char>>)
    requires
        r.no_duplicates(),
    ensures
        add_new(r, items).no_duplicates(),
    decreases items.len(),
{
    if items.len() > 0 {
        lemma_add_new_no_duplicates(r, items.drop_last());
        let p = add_new(r, items.drop_last());
        if !p.contains(items.last()) {
            let p2 = p.push(items.last());
            assert forall|i: int, j: int| 0 <= i < p2.len() && 0 <= j < p2.len() && i != j implies p2[i]
                != p2[j] by {
                if i == p.len() && j < p.len() {
                    assert(p[j] == p2[j]);
                }
                if j == p.len() && i < p.len() {
                    assert(p[i] == p2[i]);
                }
            }
        }
    }
}

/// Adding items that are all present already changes nothing.
proof fn lemma_add_new_present(r: Seq<Seq<char>>, items: Seq<Seq<char>>)
    requires
        forall|i: int| 0 <= i < items.len() ==> r.contains(#[trigger] items[i]),
    ensures
        add_new(r, items) == r,
    decreases items.len(),
{
    if items.len() > 0 {
        let o = items.drop_last();
        assert forall|i: int| 0 <= i < o.len() implies r.contains(#[trigger] o[i]) by {
            assert(o[i] == items[i]);
        }
        lemma_add_new_present(r, o);
        assert(r.contains(items[items.len() - 1]));
    }
}

/// Adding two lists one after the other is adding them joined.
proof fn lemma_add_new_concat(r: Seq<Seq<char>>, x: Seq<Seq<char>>, y: Seq<Seq<char>>)
    ensures
        add_new(r, x + y) == add_new(add_new(r, x), y),
    decreases y.len(),
{
    if y.len() == 0 {
        assert(x + y =~= x);
    } else {
        lemma_add_new_concat(r, x, y.drop_last());
        assert((x + y).drop_last() =~= x + y.drop_last());
        assert((x + y).last() == y.last());
    }
}

/// A list without duplicates is its own distinct items.
proof fn lemma_distinct_of_distinct(items: Seq<Seq<char>>)
    requires
        items.no_duplicates(),
    ensures
        distinct(items) == items,
    decreases items.len(),
{
    if items.len() > 0 {
        let o = items.drop_last();
        assert(o.no_duplicates());
        lemma_distinct_of_distinct(o);
        if o.contains(items.last()) {
            let i = choose|i: int| 0 <= i < o.len() && o[i] == items.last();
            assert(items[i] == items[items.len() - 1]);
        }
        assert(o.push(items.last()) =~= items);
    }
}

/// The merged list holds no item twice.
pub proof fn law_merge_deduplicates(base: Seq<Seq<char>>, over: Seq<Seq<char>>)
    ensures
        merged_items(base, over).no_duplicates(),
{
    lemma_add_new_no_duplicates(Seq::empty(), base + over);
}

/// An item is in the merged list exactly when it is in one of the two lists.
pub proof fn law_merge_is_union(base: Seq<Seq<char>>, over: Seq<Seq<char>>, x: Seq<char>)
    ensures
        merged_items(base, over).contains(x) <==> (base.contains(x) || over.contains(x)),
{
    lemma_add_new_union(Seq::empty(), base + over, x);
    let both = base + over;
    if both.contains(x) {
        let i = choose|i: int| 0 <= i < both.len() && both[i] == x;
        if i >= base.len() {
            assert(over[i - base.len()] == x);
        } else {
            assert(base[i] == x);
        }
    }
    if base.contains(x) {
        let i = choose|i: int| 0 <= i < base.len() && base[i] == x;
        assert(both[i] == x);
    }
    if over.contains(x) {
        let i = choose|i: int| 0 <= i < over.len() && over[i] == x;
        assert(both[base.len() + i] == x);
    }
}

/// Merging keeps the lower-level list, without its duplicates, at the front.
pub proof fn law_merge_keeps_base_first(base: Seq<Seq<char>>, over: Seq<Seq<char>>)
    ensures
        merged_items(base, over).len() >= distinct(base).len(),
        merged_items(base, over).take(distinct(base).len() as int) == distinct(base),
        base.no_duplicates() ==> distinct(base) == base,
{
    lemma_add_new_concat(Seq::empty(), base, over);
    lemma_add_new_keeps_front(distinct(base), over);
    if base.no_duplicates() {
        lemma_distinct_of_distinct(base);
    }
}

/// Merging the same list a second time changes nothing.
pub proof fn law_merge_idempotent(base: Seq<Seq<char>>, over: Seq<Seq<char>>)
    ensures
        merged_items(merged_items(base, over), over) == merged_items(base, over),
{
    let m = merged_items(base, over);
    law_merge_deduplicates(base, over);
    lemma_add_new_concat(Seq::empty(), m, over);
    lemma_distinct_of_distinct(m);
    assert forall|i: int| 0 <= i < over.len() implies m.contains(#[trigger] over[i]) by {
        law_merge_is_union(base, over, over[i]);
        assert(over.contains(over[i]));
    }
    lemma_add_new_present(m, over);
}

/// Merging a list with itself gives its items each once; a list without
/// duplicates comes back unchanged.
pub proof fn law_merge_with_itself(items: Seq<Seq<char>>)
    ensures
        merged_items(items, items) == distinct(items),
        items.no_duplicates() ==> merged_items(items, items) == items,
{
    lemma_add_new_concat(Seq::empty(), items, items);
    let d = distinct(items);
    assert forall|i: int| 0 <= i < items.len() implies d.contains(#[trigger] items[i]) by {
        lemma_add_new_union(Seq::empty(), items, items[i]);
        assert(items.contains(items[i]));
    }
    lemma_add_new_present(d, items);
    if items.no_duplicates() {
        lemma_distinct_of_distinct(items);
    }
}

/// The project level wins where it sets something: a shortcut it defines
/// takes its command; any other shortcut keeps the user-level command; the
/// depth is the project's when it sets one, else the user's.
pub proof fn law_project_overrides_user(base: ConfigModel, over: ConfigModel, name: Seq<char>)
    ensures
        merge_models(base, over).default_depth == (match over.default_depth {
            Some(d) => Some(d),
            None => base.default_depth,
        }),
        merge_models(base, over).shortcuts.dom().contains(name) <==> (base.shortcuts.dom().contains(
            name,
        ) || over.shortcuts.dom().contains(name)),
        over.shortcuts.dom().contains(name) ==> merge_models(base, over).shortcuts[name]
            == over.shortcuts[name],
        base.shortcuts.dom().contains(name) && !over.shortcuts.dom().contains(name) ==> merge_models(
            base,
            over,
        ).shortcuts[name] == base.shortcuts[name],
{
}

/// The entries of one exclusion list of a configuration file (none without
/// the file): 0 names, 1 globs, 2 regexes.
pub open spec fn file_list(file: Option<ConfigModel>, which: int) -> Seq<Seq<char>> {
    match file {
        Some(f) => if which == 0 {
            f.names
        } else if which == 1 {
            f.globs
        } else {
            f.regexes
        },
        None => Seq::empty(),
    }
}

/// The same list of a configuration: 0 names, 1 globs, 2 regexes.
pub open spec fn model_list(m: ConfigModel, which: int) -> Seq<Seq<char>> {
    if which == 0 {
        m.names
    } else if which == 1 {
        m.globs
    } else {
        m.regexes
    }
}

proof fn lemma_two_level_list(un: Seq<Seq<char>>, pn: Seq<Seq<char>>, x: Seq<char>)
    ensures
        merged_items(merged_items(Seq::empty(), un), pn).contains(x) <==> (un.contains(x)
            || pn.contains(x)),
        merged_items(merged_items(Seq::empty(), un), pn).no_duplicates(),
        merged_items(merged_items(Seq::empty(), un), pn).len() >= distinct(un).len(),
        merged_items(merged_items(Seq::empty(), un), pn).take(distinct(un).len() as int) == distinct(
            un,
        ),
        merged_items(Seq::empty(), un) == distinct(un),
        distinct(un).no_duplicates(),
        distinct(un).contains(x) <==> un.contains(x),
{
    let b = merged_items(Seq::empty(), un);
    assert(Seq::<Seq<char>>::empty() + un =~= un);
    law_merge_is_union(Seq::empty(), un, x);
    law_merge_is_union(b, pn, x);
    law_merge_deduplicates(Seq::empty(), un);
    law_merge_deduplicates(b, pn);
    law_merge_keeps_base_first(b, pn);
}

/// The exclusion lists in effect hold exactly the entries of the user-level
/// and project-level files, each once, the user's entries first.
pub proof fn law_effective_exclusions(
    user: Option<ConfigModel>,
    project: Option<ConfigModel>,
    which: int,
    x: Seq<char>,
)
    requires
        0 <= which <= 2,
    ensures
        model_list(effective_model(user, project), which).contains(x) <==> (file_list(user, which).contains(x)
            || file_list(project, which).contains(x)),
        model_list(effective_model(user, project), which).no_duplicates(),
        model_list(effective_model(user, project), which).len() >= distinct(file_list(user, which)).len(),
        model_list(effective_model(user, project), which).take(
            distinct(file_list(user, which)).len() as int,
        ) == distinct(file_list(user, which)),
{
    let un = file_list(user, which);
    let pn = file_list(project, which);
    lemma_two_level_list(un, pn, x);
    let e = model_list(effective_model(user, project), which);
    let b = distinct(un);
    match project {
        Some(p) => {
            match user {
                Some(u) => {},
                None => {
                    assert(un =~= Seq::<Seq<char>>::empty());
                    assert(model_list(default_model(), which) =~= Seq::<Seq<char>>::empty());
                },
            }
        },
        None => {
            match user {
                Some(u) => {},
                None => {
                    assert(un =~= Seq::<Seq<char>>::empty());
                    assert(e =~= Seq::<Seq<char>>::empty());
                    assert(b =~= Seq::<Seq<char>>::empty());
                },
            }
            assert(b.take(b.len() as int) =~= b);
        },
    }
}

/// The depth in effect: the project's when it sets one, else the user's
/// when it sets one, else the built-in 3.
pub proof fn law_depth_priority(user: Option<ConfigModel>, project: Option<ConfigModel>)
    ensures
        effective_model(user, project).default_depth == Some(
            match project {
                Some(p) if p.default_depth is Some => p.default_depth->0,
                _ => match user {
                    Some(u) if u.default_depth is Some => u.default_depth->0,
                    _ => spec_default_depth(),
                },
            },
        ),
{
}

/// Merging the same project-level configuration twice changes nothing.
pub proof fn law_merge_configs_idempotent(base: ConfigModel, over: ConfigModel)
    ensures
        merge_models(merge_models(base, over), over) == merge_models(base, over),
{
    law_merge_idempotent(base.names, over.names);
    law_merge_idempotent(base.globs, over.globs);
    law_merge_idempotent(base.regexes, over.regexes);
    let m = merge_models(base, over);
    assert(m.shortcuts.union_prefer_right(over.shortcuts) =~= m.shortcuts);
}

/// Removing a shortcut that was just added under a new name gives back the
/// shortcuts as they were.
pub proof fn law_remove_undoes_add(
    shortcuts: Map<Seq<char>, Seq<char>>,
    name: Seq<char>,
    command: Seq<char>,
)
    requires
        !shortcuts.dom().contains(name),
    ensures
        shortcuts.insert(name, command).remove(name) == shortcuts,
{
    assert(shortcuts.insert(name, command).remove(name) =~= shortcuts);
}

/// Adding a shortcut makes its name give the command, whatever it gave before.
pub proof fn law_add_then_lookup(
    shortcuts: Map<Seq<char>, Seq<char>>,
    name: Seq<char>,
    command: Seq<char>,
    other: Seq<char>,
)
    ensures
        shortcuts.insert(name, command)[name] == command,
        other != name ==> (shortcuts.insert(name, command).dom().contains(other)
            == shortcuts.dom().contains(other)),
        other != name && shortcuts.dom().contains(other) ==> shortcuts.insert(name, command)[other]
            == shortcuts[other],
{
}

/// The shortcuts a project-level file defines (none without one).
pub open spec fn project_shortcuts(project: Option<ConfigModel>) -> Map<Seq<char>, Seq<char>> {
    match project {
        Some(p) => p.shortcuts,
        None => Map::empty(),
    }
}

/// The merged configuration with other shortcuts, as `shortcut add`, `rm`
/// and `clear` save it to the user-level file.
pub open spec fn with_shortcuts(m: ConfigModel, shortcuts: Map<Seq<char>, Seq<char>>) -> ConfigModel {
    ConfigModel { shortcuts, ..m }
}

proof fn lemma_effective_shortcuts(user: Option<ConfigModel>, project: Option<ConfigModel>)
    ensures
        effective_model(user, project).shortcuts == (match user {
            Some(u) => u.shortcuts,
            None => Map::<Seq<char>, Seq<char>>::empty(),
        }).union_prefer_right(project_shortcuts(project)),
{
    match user {
        Some(u) => {
            assert(Map::<Seq<char>, Seq<char>>::empty().union_prefer_right(u.shortcuts) =~= u.shortcuts);
        },
        None => {},
    }
    match project {
        Some(p) => {},
        None => {
            let b = match user {
                Some(u) => u.shortcuts,
                None => Map::<Seq<char>, Seq<char>>::empty(),
            };
            assert(b.union_prefer_right(Map::<Seq<char>, Seq<char>>::empty()) =~= b);
        },
    }
}

/// After `shortcut add` saves the merged configuration with the new
/// shortcut to the user-level file, the next load has the shortcut (unless
/// the project-level file defines that name, which then wins) and every
/// other shortcut as before.
pub proof fn law_added_shortcut_persists(
    user: Option<ConfigModel>,
    project: Option<ConfigModel>,
    name: Seq<char>,
    command: Seq<char>,
)
    ensures
        ({
            let m = effective_model(user, project);
            let next = effective_model(
                Some(with_shortcuts(m, m.shortcuts.insert(name, command))),
                project,
            );
            &&& !project_shortcuts(project).dom().contains(name) ==> next.shortcuts.dom().contains(name)
                && next.shortcuts[name] == command
            &&& forall|k: Seq<char>|
                k != name ==> (#[trigger] next.shortcuts.dom().contains(k) == m.shortcuts.dom().contains(k)
                    && (m.shortcuts.dom().contains(k) ==> next.shortcuts[k] == m.shortcuts[k]))
        }),
{
    let m = effective_model(user, project);
    let saved = with_shortcuts(m, m.shortcuts.insert(name, command));
    lemma_effective_shortcuts(user, project);
    lemma_effective_shortcuts(Some(saved), project);
}

/// After `shortcut rm` saves the merged configuration without the shortcut
/// to the user-level file, the next load no longer has it (unless the
/// project-level file defines it, which keeps it in effect) and has every
/// other shortcut as before.
pub proof fn law_removed_shortcut_gone(
    user: Option<ConfigModel>,
    project: Option<ConfigModel>,
    name: Seq<char>,
)
    ensures
        ({
            let m = effective_model(user, project);
            let next = effective_model(Some(with_shortcuts(m, m.shortcuts.remove(name))), project);
            &&& !project_shortcuts(project).dom().contains(name) ==> !next.shortcuts.dom().contains(name)
            &&& project_shortcuts(project).dom().contains(name) ==> next.shortcuts.dom().contains(name)
                && next.shortcuts[name] == project_shortcuts(project)[name]
            &&& forall|k: Seq<char>|
                k != name ==> (#[trigger] next.shortcuts.dom().contains(k) == m.shortcuts.dom().contains(k)
                    && (m.shortcuts.dom().contains(k) ==> next.shortcuts[k] == m.shortcuts[k]))
        }),
{
    let m = effective_model(user, project);
    let saved = with_shortcuts(m, m.shortcuts.remove(name));
    lemma_effective_shortcuts(user, project);
    lemma_effective_shortcuts(Some(saved), project);
}

/// After `shortcut clear` saves the merged configuration without shortcuts
/// to the user-level file, the next load has only the shortcuts of the
/// project-level file.
pub proof fn law_cleared_shortcuts_gone(user: Option<ConfigModel>, project: Option<ConfigModel>)
    ensures
        ({
            let m = effective_model(user, project);
            effective_model(Some(with_shortcuts(m, Map::empty())), project).shortcuts
                == project_shortcuts(project)
        }),
{
    let m = effective_model(user, project);
    let saved = with_shortcuts(m, Map::empty());
    lemma_effective_shortcuts(Some(saved), project);
    assert(Map::<Seq<char>, Seq<char>>::empty().union_prefer_right(project_shortcuts(project))
        =~= project_shortcuts(project));
}

// ---------------------------------------------------------------------------
// Shortcut management
// ---------------------------------------------------------------------------

/// Why a shortcut operation was refused.
pub enum ShortcutError {
    /// The command does not start with `git `.
    NotGitCommand,
    /// No shortcut has this name.
    NotFound(String),
}

impl ShortcutError {
    pub open spec fn message_text(&self) -> Seq<char> {
        match self {
            ShortcutError::NotGitCommand => "Shortcut command must start with 'git'. Example: 'git pull'"@,
            ShortcutError::NotFound(name) => "Shortcut '"@ + name@ + "' not found"@,
        }
    }

    /// The message shown for this error.
    pub fn message(&self) -> (r: String)
        ensures
            r@ == self.message_text(),
    {
        match self {
            ShortcutError::NotGitCommand => to_string(
                "Shortcut command must start with 'git'. Example: 'git pull'",
            ),
            ShortcutError::NotFound(name) => {
                let mut r = to_string("Shortcut '");
                r.append(name.as_str());
                r.append("' not found");
                r
            },
        }
    }
}

/// A shortcut command must be a git command: it begins with `git `.
pub open spec fn is_git_command(command: Seq<char>) -> bool {
    starts_with(command, "git "@)
}

/// Add a shortcut command; tells whether a shortcut of that name existed.
pub fn add_shortcut(config: &mut Config, name: &str, command: &str) -> (r: Result<bool, ShortcutError>)
    ensures
        r is Ok <==> is_git_command(command@),
        r matches Ok(existed) ==> existed == old(config)@.shortcuts.dom().contains(name@),
        r is Ok ==> final(config)@ == (ConfigModel {
            shortcuts: old(config)@.shortcuts.insert(name@, command@),
            ..old(config)@
        }),
        r matches Err(e) ==> e is NotGitCommand && final(config)@ == old(config)@,
{
    let prefix = to_chars("git ");
    if !starts_with_chars(&to_chars(command), &prefix) {
        return Err(ShortcutError::NotGitCommand);
    }
    let existed = config.shortcuts.insert(to_string(name), to_string(command));
    Ok(existed)
}

/// Remove a shortcut command
pub fn remove_shortcut(config: &mut Config, name: &str) -> (r: Result<(), ShortcutError>)
    ensures
        r is Ok <==> old(config)@.shortcuts.dom().contains(name@),
        final(config)@ == (ConfigModel {
            shortcuts: old(config)@.shortcuts.remove(name@),
            ..old(config)@
        }),
        r matches Err(e) ==> e matches ShortcutError::NotFound(n) && n@ == name@,
{
    match config.shortcuts.remove(name) {
        Some(_) => Ok(()),
        None => Err(ShortcutError::NotFound(to_string(name))),
    }
}

/// Clear all shortcut commands; gives the number removed.
pub fn clear_shortcuts(config: &mut Config) -> (count: usize)
    ensures
        count == old(config)@.shortcuts.dom().len(),
        final(config)@ == (ConfigModel { shortcuts: Map::empty(), ..old(config)@ }),
{
    let count = config.shortcuts.len();
    config.shortcuts.clear();
    count
}

/// The line printed after a shortcut was added or updated.
pub open spec fn added_message(existed: bool, name: Seq<char>, command: Seq<char>) -> Seq<char> {
    (if existed {
        colored(Color::Yellow, "Updated"@)
    } else {
        colored(Color::Green, "Added"@)
    }) + " shortcut: "@ + colored(Color::Cyan, name) + " → "@ + command
}

pub fn shortcut_added_message(existed: bool, name: &str, command: &str) -> (r: String)
    ensures
        r@ == added_message(existed, name@, command@),
{
    let mut r = if existed {
        c(Color::Yellow, "Updated")
    } else {
        c(Color::Green, "Added")
    };
    r.append(" shortcut: ");
    r.append(c(Color::Cyan, name).as_str());
    r.append(" → ");
    r.append(command);
    r
}

/// The line printed after a shortcut was removed.
pub fn shortcut_removed_message(name: &str) -> (r: String)
    ensures
        r@ == colored(Color::Green, "Removed"@) + " shortcut: "@ + colored(Color::Cyan, name@),
{
    let mut r = c(Color::Green, "Removed");
    r.append(" shortcut: ");
    r.append(c(Color::Cyan, name).as_str());
    r
}

/// The line printed by `shortcut clear`.
pub fn shortcuts_cleared_message(count: usize) -> (r: String)
    ensures
        count == 0 ==> r@ == "No shortcuts to clear."@,
        count > 0 ==> r@ == colored(Color::Green, "Cleared"@) + " "@ + decimal(count as nat)
            + " shortcut(s)"@,
{
    if count == 0 {
        return to_string("No shortcuts to clear.");
    }
    let mut r = c(Color::Green, "Cleared");
    r.append(" ");
    r.append(usize_to_string(count).as_str());
    r.append(" shortcut(s)");
    r
}

/// The widest name of a list of entries, in bytes.
pub open spec fn max_name_bytes(e: Seq<(Seq<char>, Seq<char>)>) -> nat
    decreases e.len(),
{
    if e.len() == 0 {
        0
    } else {
        let m = max_name_bytes(e.drop_last());
        let w = utf8_len(e.last().0);
        if w > m {
            w
        } else {
            m
        }
    }
}

/// One line of the shortcut listing.
pub open spec fn shortcut_line(name: Seq<char>, command: Seq<char>, width: nat) -> Seq<char> {
    "  "@ + pad_right(colored(Color::Cyan, name), width) + "  "@ + command
}

/// The lines printed by `shortcut list`: a hint when there is no shortcut,
/// else a title and one line per shortcut in ascending order of name, the
/// names padded to the widest one.
pub open spec fn shortcut_listing(entries: Seq<(Seq<char>, Seq<char>)>) -> Seq<Seq<char>> {
    if entries.len() == 0 {
        seq!["No shortcuts defined."@, "Add one with: gx shortcut add <name> \"git <command>\""@]
    } else {
        seq![colored(Color::Bold, "Shortcuts:"@)] + Seq::new(
            entries.len(),
            |i: int| shortcut_line(entries[i].0, entries[i].1, max_name_bytes(entries)),
        )
    }
}

/// List all shortcut commands
pub fn list_shortcuts(config: &Config) -> (r: Vec<String>)
    ensures
        views(r@) == shortcut_listing(config.shortcuts.sorted_entries()),
        strictly_sorted(config.shortcuts.sorted_entries()),
        map_of(config.shortcuts.sorted_entries()) == config@.shortcuts,
{
    let entries = config.shortcuts.entry_list();
    let ghost pv = pairs_view(entries@);
    let mut r: Vec<String> = Vec::new();
    if entries.len() == 0 {
        r.push(to_string("No shortcuts defined."));
        r.push(to_string("Add one with: gx shortcut add <name> \"git <command>\""));
        assert(views(r@) =~= shortcut_listing(pv));
        return r;
    }
    let mut width: usize = 0;
    let mut i: usize = 0;
    assert(pv.take(0) =~= Seq::<(Seq<char>, Seq<char>)>::empty());
    while i < entries.len()
        invariant
            i <= entries@.len(),
            pv == pairs_view(entries@),
            width as nat == max_name_bytes(pv.take(i as int)),
        decreases entries@.len() - i,
    {
        assert(pv.take(i + 1).drop_last() =~= pv.take(i as int));
        assert(pv.take(i + 1).last() == pv[i as int]);
        let w = byte_len(entries[i].0.as_str());
        if w > width {
            width = w;
        }
        i = i + 1;
    }
    assert(pv.take(entries@.len() as int) =~= pv);
    r.push(c(Color::Bold, "Shortcuts:"));
    let mut k: usize = 0;
    while k < entries.len()
        invariant
            k <= entries@.len(),
            entries@.len() > 0,
            pv == pairs_view(entries@),
            width as nat == max_name_bytes(pv),
            views(r@) =~= shortcut_listing(pv).take(k + 1),
        decreases entries@.len() - k,
    {
        let mut line = to_string("  ");
        line.append(pad_right_string(c(Color::Cyan, entries[k].0.as_str()).as_str(), width).as_str());
        line.append("  ");
        line.append(entries[k].1.as_str());
        let ghost before = views(r@);
        r.push(line);
        assert(views(r@) =~= before.push(line@));
        k = k + 1;
    }
    r
}

} // verus!
