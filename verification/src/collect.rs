//! Which directories the repository search skips.
use vstd::prelude::*;
use crate::config::Config;
use crate::text::{
    concat2, ends_with, ends_with_chars, replace_char, replace_char_chars, starts_with,
    starts_with_chars, str_eq, to_chars, to_string, views, chars_eq,
};

verus! {

#[verifier::external_type_specification]
#[verifier::external_body]
pub struct ExGlobPattern(glob::Pattern);

#[verifier::external_type_specification]
#[verifier::external_body]
pub struct ExGlobPatternError(glob::PatternError);

#[verifier::external_type_specification]
#[verifier::external_body]
pub struct ExRegex(regex::Regex);

#[verifier::external_type_specification]
#[verifier::external_body]
pub struct ExRegexError(regex::Error);

/// Whether `glob::Pattern::new` accepts a pattern.
pub uninterp spec fn glob_compiles(pattern: Seq<char>) -> bool;

/// Whether the glob compiled from `pattern` matches `text`
/// (`glob::Pattern::matches`).
pub uninterp spec fn glob_matches(pattern: Seq<char>, text: Seq<char>) -> bool;

/// Whether `regex::Regex::new` accepts a pattern.
pub uninterp spec fn regex_compiles(pattern: Seq<char>) -> bool;

/// Whether the regex compiled from `pattern` matches somewhere in `text`
/// (`regex::Regex::is_match`).
pub uninterp spec fn regex_matches(pattern: Seq<char>, text: Seq<char>) -> bool;

/// A glob pattern together with its source text.
pub struct GlobPattern {
    source: String,
    compiled: glob::Pattern,
}

impl GlobPattern {
    /// The text the pattern was compiled from.
    pub closed spec fn pattern(&self) -> Seq<char> {
        self.source@
    }
}

/// A regular expression from the configuration, with its source text.
pub struct ExcludeRegex {
    source: String,
    compiled: regex::Regex,
}

impl ExcludeRegex {
    /// The text the expression was compiled from.
    pub closed spec fn pattern(&self) -> Seq<char> {
        self.source@
    }
}

/// `glob::Pattern::new`: compiles a glob. Claimed: it succeeds exactly when
/// the pattern is one the crate accepts (named, not spelled out), and the
/// result remembers its source text.
#[verifier::external_body]
fn compile_glob(pattern: &str) -> (r: Result<GlobPattern, glob::PatternError>)
    ensures
        r is Ok == glob_compiles(pattern@),
        r matches Ok(g) ==> g.pattern() == pattern@,
{
    match glob::Pattern::new(pattern) {
        Ok(compiled) => Ok(GlobPattern { source: pattern.to_string(), compiled }),
        Err(e) => Err(e),
    }
}

/// `glob::Pattern::matches` with the default options: claimed to be the
/// named match of the pattern's source text against `text`.
#[verifier::external_body]
fn glob_is_match(g: &GlobPattern, text: &str) -> (r: bool)
    ensures
        r == glob_matches(g.pattern(), text@),
{
    g.compiled.matches(text)
}

/// `regex::Regex::new`: compiles a regular expression. Claimed: it succeeds
/// exactly when the crate accepts the pattern (named, not spelled out), and
/// the result remembers its source text.
#[verifier::external_body]
fn compile_regex(pattern: &str) -> (r: Result<ExcludeRegex, regex::Error>)
    ensures
        r is Ok == regex_compiles(pattern@),
        r matches Ok(x) ==> x.pattern() == pattern@,
{
    match regex::Regex::new(pattern) {
        Ok(compiled) => Ok(ExcludeRegex { source: pattern.to_string(), compiled }),
        Err(e) => Err(e),
    }
}

/// `regex::Regex::is_match`: claimed to be the named match of the
/// expression's source text somewhere in `text`.
#[verifier::external_body]
fn regex_is_match(x: &ExcludeRegex, text: &str) -> (r: bool)
    ensures
        r == regex_matches(x.pattern(), text@),
{
    x.compiled.is_match(text)
}

/// A pattern of `exclude.regexes` that does not compile.
#[derive(Debug)]
pub struct InvalidRegex {
    pub pattern: String,
}

impl InvalidRegex {
    /// The message shown for this error.
    pub fn message(&self) -> (r: String)
        ensures
            r@ == "Invalid regex pattern: "@ + self.pattern@,
    {
        concat2("Invalid regex pattern: ", self.pattern.as_str())
    }
}

/// The source texts of compiled expressions.
pub open spec fn regex_patterns(v: Seq<ExcludeRegex>) -> Seq<Seq<char>> {
    Seq::new(v.len(), |i: int| v[i].pattern())
}

/// Compiles the regular expressions of the configuration, in order; fails on
/// the first one that does not compile.
pub fn compile_exclude_regexes(config: &Config) -> (r: Result<Vec<ExcludeRegex>, InvalidRegex>)
    ensures
        r is Ok <==> forall|i: int|
            0 <= i < config@.regexes.len() ==> regex_compiles(#[trigger] config@.regexes[i]),
        r matches Ok(v) ==> regex_patterns(v@) == config@.regexes,
        r matches Err(e) ==> exists|k: int|
            0 <= k < config@.regexes.len() && e.pattern@ == config@.regexes[k] && !regex_compiles(
                config@.regexes[k],
            ) && forall|j: int| 0 <= j < k ==> regex_compiles(#[trigger] config@.regexes[j]),
{
    let patterns = &config.exclude.regexes;
    let mut out: Vec<ExcludeRegex> = Vec::new();
    let mut i: usize = 0;
    while i < patterns.len()
        invariant
            i <= patterns@.len(),
            views(patterns@) == config@.regexes,
            regex_patterns(out@) =~= config@.regexes.take(i as int),
            forall|j: int| 0 <= j < i ==> regex_compiles(#[trigger] config@.regexes[j]),
        decreases patterns@.len() - i,
    {
        assert(config@.regexes[i as int] == patterns@[i as int]@);
        match compile_regex(patterns[i].as_str()) {
            Ok(x) => {
                let ghost before = out@;
                out.push(x);
                assert(regex_patterns(out@) =~= regex_patterns(before).push(x.pattern()));
            },
            Err(_) => {
                return Err(InvalidRegex { pattern: patterns[i].clone() });
            },
        }
        i = i + 1;
    }
    assert(config@.regexes.take(patterns@.len() as int) =~= config@.regexes);
    Ok(out)
}

/// Directory names skipped wherever they are (common non-project folders).
pub open spec fn builtin_skipped(name: Seq<char>) -> bool {
    ||| name == "node_modules"@
    ||| name == "target"@
    ||| name == "vendor"@
    ||| name == "dist"@
    ||| name == "build"@
    ||| name == ".vscode"@
    ||| name == ".idea"@
    ||| name == "cache"@
    ||| name == "tmp"@
    ||| name == "temp"@
}

/// `text` with backslashes turned into slashes.
pub open spec fn normalized(text: Seq<char>) -> Seq<char> {
    replace_char(text, '\\', '/')
}

/// An entry of `exclude.names` hits a directory when it is its name, its
/// path, a leading part of its path, or a trailing part of its path
/// (separators `/` and `\` alike).
pub open spec fn name_pattern_hits(pattern: Seq<char>, name: Seq<char>, path: Seq<char>) -> bool {
    ||| pattern == name
    ||| normalized(path) == normalized(pattern)
    ||| starts_with(normalized(path), normalized(pattern) + "/"@)
    ||| ends_with(normalized(path), "/"@ + normalized(pattern))
}

/// Whether the search skips a directory, given its name, its path when that
/// path is valid UTF-8, the configuration's exclusion lists and the source
/// texts of the compiled exclusion expressions.
pub open spec fn skips_dir(
    name: Seq<char>,
    path: Option<Seq<char>>,
    names: Seq<Seq<char>>,
    globs: Seq<Seq<char>>,
    regexes: Seq<Seq<char>>,
) -> bool {
    let path_text = match path {
        Some(p) => p,
        None => Seq::<char>::empty(),
    };
    if name == "."@ {
        false
    } else if starts_with(name, "."@) && name != ".git"@ {
        true
    } else if builtin_skipped(name) {
        true
    } else {
        ||| exists|i: int| 0 <= i < names.len() && name_pattern_hits(#[trigger] names[i], name, path_text)
        ||| exists|i: int|
            0 <= i < globs.len() && glob_compiles(#[trigger] globs[i]) && path is Some && glob_matches(
                globs[i],
                path_text,
            )
        ||| exists|i: int|
            0 <= i < regexes.len() && (regex_matches(#[trigger] regexes[i], name) || regex_matches(
                regexes[i],
                path_text,
            ))
    }
}

fn is_builtin_skipped(name: &str) -> (r: bool)
    ensures
        r == builtin_skipped(name@),
{
    str_eq(name, "node_modules") || str_eq(name, "target") || str_eq(name, "vendor") || str_eq(
        name,
        "dist",
    ) || str_eq(name, "build") || str_eq(name, ".vscode") || str_eq(name, ".idea") || str_eq(
        name,
        "cache",
    ) || str_eq(name, "tmp") || str_eq(name, "temp")
}

/// Determine if a directory entry should be skipped
#[verifier::loop_isolation(false)]
pub fn should_skip_dir(
    name: &str,
    path: Option<&str>,
    config: &Config,
    exclude_regexes: &Vec<ExcludeRegex>,
) -> (r: bool)
    ensures
        r == skips_dir(
            name@,
            match path {
                Some(p) => Some(p@),
                None => None,
            },
            config@.names,
            config@.globs,
            regex_patterns(exclude_regexes@),
        ),
{
    let ghost path_opt = match path {
        Some(p) => Some(p@),
        None => None::<Seq<char>>,
    };
    let path_str: &str = match path {
        Some(p) => p,
        None => "",
    };
    proof {
        if path is None {
            reveal_strlit("");
        }
    }
    assert(path_str@ == match path_opt {
        Some(p) => p,
        None => Seq::<char>::empty(),
    });
    if str_eq(name, ".") {
        return false;
    }
    let name_chars = to_chars(name);
    if starts_with_chars(&name_chars, &to_chars(".")) && !str_eq(name, ".git") {
        return true;
    }
    if is_builtin_skipped(name) {
        return true;
    }
    // 1. Directory names and full paths
    let path_norm = replace_char_chars(&to_chars(path_str), '\\', '/');
    let names = &config.exclude.names;
    let mut i: usize = 0;
    while i < names.len()
        invariant
            i <= names@.len(),
            views(names@) == config@.names,
            path_norm@ == normalized(path_str@),
            forall|j: int| 0 <= j < i ==> !name_pattern_hits(#[trigger] config@.names[j], name@, path_str@),
        decreases names@.len() - i,
    {
        let pattern = names[i].as_str();
        assert(config@.names[i as int] == pattern@);
        if str_eq(pattern, name) {
            assert(name_pattern_hits(config@.names[i as int], name@, path_str@));
            return true;
        }
        let pat_norm = replace_char_chars(&to_chars(pattern), '\\', '/');
        let mut with_slash_after = pat_norm.clone();
        with_slash_after.push('/');
        let mut with_slash_before: Vec<char> = Vec::new();
        with_slash_before.push('/');
        let mut k: usize = 0;
        while k < pat_norm.len()
            invariant
                k <= pat_norm@.len(),
                with_slash_before@ =~= seq!['/'] + pat_norm@.take(k as int),
            decreases pat_norm@.len() - k,
        {
            with_slash_before.push(pat_norm[k]);
            k = k + 1;
        }
        proof {
            reveal_strlit("/");
            assert(pat_norm@.take(pat_norm@.len() as int) =~= pat_norm@);
            assert(with_slash_after@ =~= normalized(pattern@) + "/"@);
            assert(with_slash_before@ =~= "/"@ + normalized(pattern@));
        }
        if chars_eq(&path_norm, &pat_norm) || starts_with_chars(&path_norm, &with_slash_after)
            || ends_with_chars(&path_norm, &with_slash_before) {
            assert(name_pattern_hits(config@.names[i as int], name@, path_str@));
            return true;
        }
        i = i + 1;
    }
    // 2. Glob patterns
    let globs = &config.exclude.globs;
    let mut g: usize = 0;
    while g < globs.len()
        invariant
            g <= globs@.len(),
            views(globs@) == config@.globs,
            forall|j: int|
                0 <= j < g ==> !(glob_compiles(#[trigger] config@.globs[j]) && path_opt is Some
                    && glob_matches(config@.globs[j], path_str@)),
            path_opt is Some == path is Some,
            path_str@ == match path_opt {
                Some(p) => p,
                None => Seq::<char>::empty(),
            },
        decreases globs@.len() - g,
    {
        assert(config@.globs[g as int] == globs@[g as int]@);
        match compile_glob(globs[g].as_str()) {
            Ok(pattern) => {
                match path {
                    Some(p) => {
                        if glob_is_match(&pattern, p) {
                            assert(glob_compiles(config@.globs[g as int]));
                            return true;
                        }
                    },
                    None => {},
                }
            },
            Err(_) => {},
        }
        g = g + 1;
    }
    // 3. Regex patterns
    let mut x: usize = 0;
    while x < exclude_regexes.len()
        invariant
            x <= exclude_regexes@.len(),
            forall|j: int|
                0 <= j < x ==> !(regex_matches(#[trigger] regex_patterns(exclude_regexes@)[j], name@)
                    || regex_matches(regex_patterns(exclude_regexes@)[j], path_str@)),
        decreases exclude_regexes@.len() - x,
    {
        if regex_is_match(&exclude_regexes[x], name) || regex_is_match(&exclude_regexes[x], path_str) {
            assert(regex_patterns(exclude_regexes@)[x as int] == exclude_regexes@[x as int].pattern());
            return true;
        }
        x = x + 1;
    }
    false
}

} // verus!
