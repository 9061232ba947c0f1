//! Ignore patterns for the watcher: globs (through `globset`) or a regular
//! expression (through `regex`), matched against paths with `/` separators.

use globset::{Glob, GlobSet, GlobSetBuilder};
use vstd::prelude::*;
use vstd::string::StringExecFns;
use crate::text::{chars_of, find, find_chars, string_from_chars, strs};

verus! {

#[verifier::external_type_specification]
#[verifier::external_body]
pub struct ExGlobSet(GlobSet);

#[verifier::external_type_specification]
#[verifier::external_body]
pub struct ExGlobSetBuilder(GlobSetBuilder);

#[verifier::external_type_specification]
#[verifier::external_body]
pub struct ExGlobError(globset::Error);

/// Whether `Glob::new` accepts a pattern.
pub uninterp spec fn glob_is_valid(pattern: Seq<char>) -> bool;

/// Whether the glob made by `Glob::new` from `pattern` matches `path`.
pub uninterp spec fn glob_matches(pattern: Seq<char>, path: Seq<char>) -> bool;

/// The patterns of the globs added to a builder, in order.
pub uninterp spec fn builder_globs(b: GlobSetBuilder) -> Seq<Seq<char>>;

/// The patterns of the globs in a built set, in order.
pub uninterp spec fn set_globs(s: GlobSet) -> Seq<Seq<char>>;

/// Whether `GlobSetBuilder::build` succeeds for globs with these patterns.
pub uninterp spec fn glob_set_builds(patterns: Seq<Seq<char>>) -> bool;

/// What matching `hay` with the regular expression that `Regex::new` builds
/// from `pattern` gives: `None` when `pattern` is not a valid expression.
pub uninterp spec fn regex_match(pattern: Seq<char>, hay: Seq<char>) -> Option<bool>;

/// `GlobSetBuilder::add` of the glob that `Glob::new` compiles from
/// `pattern` with default options, when it accepts the pattern. The contract
/// claims that it accepts exactly the patterns `glob_is_valid` holds of, and
/// that the builder then holds the pattern last.
#[verifier::external_body]
fn add_glob(b: &mut GlobSetBuilder, pattern: &str) -> (r: bool)
    ensures
        r == glob_is_valid(pattern@),
        r ==> builder_globs(*final(b)) == builder_globs(*old(b)).push(pattern@),
        !r ==> builder_globs(*final(b)) == builder_globs(*old(b)),
{
    match Glob::new(pattern) {
        Ok(g) => {
            b.add(g);
            true
        },
        Err(_) => false,
    }
}

/// `GlobSetBuilder::new`: a builder without globs.
#[verifier::external_body]
fn builder_new() -> (r: GlobSetBuilder)
    ensures
        builder_globs(r) == Seq::<Seq<char>>::empty(),
{
    GlobSetBuilder::new()
}

/// `GlobSetBuilder::build`: the set of the globs added so far. The contract
/// claims that success depends on those globs' patterns alone and that the set
/// holds them.
#[verifier::external_body]
fn builder_build(b: &GlobSetBuilder) -> (r: Result<GlobSet, globset::Error>)
    ensures
        r is Ok <==> glob_set_builds(builder_globs(*b)),
        r matches Ok(s) ==> set_globs(s) == builder_globs(*b),
{
    b.build()
}

/// `GlobSet::is_match`: whether any glob of the set matches the path.
/// Every glob of this library is made by `Glob::new`, with default options
/// (see `add_glob`), so matching depends on the patterns alone.
#[verifier::external_body]
fn set_is_match(s: &GlobSet, path: &str) -> (r: bool)
    ensures
        r == (exists|i: int| 0 <= i < set_globs(*s).len() && glob_matches(set_globs(*s)[i], path@)),
{
    s.is_match(path)
}

/// `Regex::is_match` on the expression that `Regex::new` builds from
/// `pattern`; `None` when `Regex::new` refuses the pattern. The contract
/// claims only that the result is `regex_match` of the arguments.
#[verifier::external_body]
fn regex_is_match(pattern: &str, hay: &str) -> (r: Option<bool>)
    ensures
        r == regex_match(pattern@, hay@),
{
    regex::Regex::new(pattern).ok().map(|re| re.is_match(hay))
}

/// Paths excluded from watching.
#[derive(Debug)]
pub enum FsWatcherIgnored {
    /// Nothing is ignored.
    Nothing,
    /// One glob pattern, e.g. `node_modules`.
    Path(String),
    /// Several glob patterns, e.g. `node_modules`, `.git`, `dist`.
    Paths(Vec<String>),
    /// A regular expression, e.g. `\.git|node_modules`.
    Regex(String),
}

impl Default for FsWatcherIgnored {
    fn default() -> (r: Self)
        ensures
            r is Nothing,
    {
        FsWatcherIgnored::Nothing
    }
}

/// `p` with every backslash turned into a slash.
pub open spec fn normalize_separators(p: Seq<char>) -> Seq<char> {
    p.map_values(|c: char| if c == '\\' { '/' } else { c })
}

/// Normalising turns every backslash into a slash and keeps every other
/// character, in place.
pub proof fn lemma_normalize_separators(p: Seq<char>)
    ensures
        normalize_separators(p).len() == p.len(),
        !normalize_separators(p).contains('\\'),
        forall|i: int|
            0 <= i < p.len() ==> #[trigger] normalize_separators(p)[i] == (if p[i] == '\\' {
                '/'
            } else {
                p[i]
            }),
{
    if normalize_separators(p).contains('\\') {
        let i = choose|i: int| 0 <= i < p.len() && normalize_separators(p)[i] == '\\';
        assert(normalize_separators(p)[i] == (if p[i] == '\\' { '/' } else { p[i] }));
    }
}

/// `[g]` when `Glob::new` accepts `g`, else nothing.
pub open spec fn if_valid(g: Seq<char>) -> Seq<Seq<char>> {
    if glob_is_valid(g) {
        seq![g]
    } else {
        seq![]
    }
}

/// The globs built for some patterns: for each pattern, `**/{pattern}/**`
/// (matching the pattern as a directory anywhere) and the pattern itself,
/// each kept only when it is a valid glob.
pub open spec fn glob_variants(patterns: Seq<Seq<char>>) -> Seq<Seq<char>>
    decreases patterns.len(),
{
    if patterns.len() == 0 {
        seq![]
    } else {
        let p = patterns.last();
        glob_variants(patterns.drop_last()) + if_valid("**/"@ + p + "/**"@) + if_valid(p)
    }
}

/// The globs built for one pattern `p`: the directory glob `**/` + `p` +
/// `/**` (the directory named exactly `p`, anywhere), then `p` itself, each
/// when it is a valid glob.
pub proof fn lemma_glob_variants_one(p: Seq<char>)
    ensures
        glob_variants(seq![p]) == if_valid("**/"@ + p + "/**"@) + if_valid(p),
{
    assert(seq![p].drop_last() =~= Seq::<Seq<char>>::empty());
    assert(glob_variants(Seq::<Seq<char>>::empty()) + if_valid("**/"@ + p + "/**"@) + if_valid(p) =~= if_valid(
        "**/"@ + p + "/**"@,
    ) + if_valid(p));
}

/// The globs built for a list of patterns: a glob is among them exactly when
/// it is valid and is, for one of the patterns `p`, `p` itself or `**/` + `p`
/// + `/**`; there are at most two per pattern.
pub proof fn lemma_glob_variants(ps: Seq<Seq<char>>)
    ensures
        forall|g: Seq<char>|
            #![trigger glob_variants(ps).contains(g)]
            glob_variants(ps).contains(g) <==> glob_is_valid(g) && exists|i: int|
                0 <= i < ps.len() && (g == ps[i] || g == "**/"@ + ps[i] + "/**"@),
        glob_variants(ps).len() <= 2 * ps.len(),
    decreases ps.len(),
{
    if ps.len() > 0 {
        let init = ps.drop_last();
        let p = ps.last();
        lemma_glob_variants(init);
        let d = "**/"@ + p + "/**"@;
        let a = glob_variants(init);
        let v = a + if_valid(d) + if_valid(p);
        assert(glob_variants(ps) == v);
        assert forall|g: Seq<char>|
            #![trigger glob_variants(ps).contains(g)]
            glob_variants(ps).contains(g) <==> glob_is_valid(g) && exists|i: int|
                0 <= i < ps.len() && (g == ps[i] || g == "**/"@ + ps[i] + "/**"@) by {
            if glob_variants(ps).contains(g) {
                let t = choose|t: int| 0 <= t < v.len() && v[t] == g;
                if t < a.len() {
                    assert(a[t] == g);
                    assert(a.contains(g));
                    let i = choose|i: int| 0 <= i < init.len() && (g == init[i] || g == "**/"@ + init[i] + "/**"@);
                    assert(init[i] == ps[i]);
                } else if t < a.len() + if_valid(d).len() {
                    assert(g == d);
                    assert(ps[ps.len() - 1] == p);
                } else {
                    assert(g == p);
                    assert(ps[ps.len() - 1] == p);
                }
            }
            if glob_is_valid(g) && exists|i: int| 0 <= i < ps.len() && (g == ps[i] || g == "**/"@ + ps[i] + "/**"@) {
                let i = choose|i: int| 0 <= i < ps.len() && (g == ps[i] || g == "**/"@ + ps[i] + "/**"@);
                if i < init.len() {
                    assert(init[i] == ps[i]);
                    assert(a.contains(g));
                    let t = choose|t: int| 0 <= t < a.len() && a[t] == g;
                    assert(v[t] == g);
                } else if g == "**/"@ + ps[i] + "/**"@ {
                    assert(v[a.len() as int] == g);
                } else {
                    assert(v[(a.len() + if_valid(d).len()) as int] == g);
                }
            }
        }
    } else {
        assert forall|g: Seq<char>| !(#[trigger] glob_variants(ps).contains(g)) by {}
    }
}

/// A single pattern ignores what a list holding just that pattern ignores.
pub proof fn lemma_path_is_one_pattern(p: String, ps: Vec<String>, path: Seq<char>)
    requires
        strs(ps@) == seq![p@],
    ensures
        ignores(FsWatcherIgnored::Path(p), path) == ignores(FsWatcherIgnored::Paths(ps), path),
{
}

/// Backslashes count as slashes: a path is ignored exactly when its form
/// with slashes is.
pub proof fn lemma_ignores_separators(ig: FsWatcherIgnored, path: Seq<char>)
    ensures
        ignores(ig, path) == ignores(ig, normalize_separators(path)),
{
    assert(normalize_separators(normalize_separators(path)) =~= normalize_separators(path));
}

/// Nothing ignores no path.
pub proof fn lemma_nothing_ignores_nothing(path: Seq<char>)
    ensures
        !ignores(FsWatcherIgnored::Nothing, path),
{
}

/// Whether some glob among `globs` matches `path`.
pub open spec fn any_glob_matches(globs: Seq<Seq<char>>, path: Seq<char>) -> bool {
    exists|i: int| 0 <= i < globs.len() && glob_matches(globs[i], path)
}

/// Whether `path` contains one of `patterns` as a substring.
pub open spec fn contains_any(path: Seq<char>, patterns: Seq<Seq<char>>) -> bool {
    exists|i: int| 0 <= i < patterns.len() && find(path, patterns[i]) is Some
}

/// The decision for a list of glob patterns: the glob set when it builds,
/// else a plain substring test.
pub open spec fn patterns_ignore(patterns: Seq<Seq<char>>, path: Seq<char>) -> bool {
    let globs = glob_variants(patterns);
    if glob_set_builds(globs) {
        any_glob_matches(globs, path)
    } else {
        contains_any(path, patterns)
    }
}

/// Whether `ig` excludes `path`.
pub open spec fn ignores(ig: FsWatcherIgnored, path: Seq<char>) -> bool {
    let n = normalize_separators(path);
    match ig {
        FsWatcherIgnored::Nothing => false,
        FsWatcherIgnored::Path(p) => patterns_ignore(seq![p@], n),
        FsWatcherIgnored::Paths(ps) => patterns_ignore(strs(ps@), n),
        FsWatcherIgnored::Regex(r) => regex_match(r@, n) == Some(true),
    }
}

/// `path` with backslashes turned into slashes.
pub fn normalize_path(path: &str) -> (r: String)
    ensures
        r@ == normalize_separators(path@),
{
    let v = chars_of(path);
    let mut out: Vec<char> = Vec::new();
    let mut i: usize = 0;
    while i < v.len()
        invariant
            i <= v.len(),
            out@ == normalize_separators(v@.take(i as int)),
        decreases v.len() - i,
    {
        if v[i] == '\\' {
            out.push('/');
        } else {
            out.push(v[i]);
        }
        i += 1;
        assert(out@ =~= normalize_separators(v@.take(i as int)));
    }
    assert(v@.take(v.len() as int) =~= v@);
    string_from_chars(&out)
}

fn add_if_valid(b: &mut GlobSetBuilder, pattern: &str)
    ensures
        builder_globs(*final(b)) == builder_globs(*old(b)) + if_valid(pattern@),
{
    let ok = add_glob(b, pattern);
    assert(builder_globs(*b) =~= builder_globs(*old(b)) + if_valid(pattern@));
}

/// A glob set matching each pattern anywhere as a directory
/// (`**/{pattern}/**`) or as written; `None` when the set does not build.
pub fn build_glob_set(patterns: &Vec<String>) -> (r: Option<GlobSet>)
    ensures
        r is Some <==> glob_set_builds(glob_variants(strs(patterns@))),
        r matches Some(s) ==> set_globs(s) == glob_variants(strs(patterns@)),
{
    let mut b = builder_new();
    let mut i: usize = 0;
    assert(builder_globs(b) =~= glob_variants(strs(patterns@).take(0)));
    while i < patterns.len()
        invariant
            i <= patterns.len(),
            builder_globs(b) == glob_variants(strs(patterns@).take(i as int)),
        decreases patterns.len() - i,
    {
        let p = patterns[i].as_str();
        let mut full = String::new();
        full.append("**/");
        full.append(p);
        full.append("/**");
        add_if_valid(&mut b, full.as_str());
        add_if_valid(&mut b, p);
        assert(strs(patterns@).take(i + 1).drop_last() =~= strs(patterns@).take(i as int));
        assert(strs(patterns@).take(i + 1).last() == patterns@[i as int]@);
        i += 1;
    }
    assert(strs(patterns@).take(patterns.len() as int) =~= strs(patterns@));
    match builder_build(&b) {
        Ok(s) => Some(s),
        Err(_) => None,
    }
}

fn contains_any_exec(path: &str, patterns: &Vec<String>) -> (r: bool)
    ensures
        r == contains_any(path@, strs(patterns@)),
{
    let v = chars_of(path);
    let mut i: usize = 0;
    while i < patterns.len()
        invariant
            i <= patterns.len(),
            v@ == path@,
            forall|j: int| 0 <= j < i ==> find(path@, strs(patterns@)[j]) is None,
        decreases patterns.len() - i,
    {
        let pv = chars_of(patterns[i].as_str());
        if find_chars(&v, &pv).is_some() {
            assert(find(path@, strs(patterns@)[i as int]) is Some);
            return true;
        }
        i += 1;
    }
    false
}

fn patterns_ignore_exec(patterns: &Vec<String>, normalized: &str) -> (r: bool)
    ensures
        r == patterns_ignore(strs(patterns@), normalized@),
{
    match build_glob_set(patterns) {
        Some(set) => set_is_match(&set, normalized),
        None => contains_any_exec(normalized, patterns),
    }
}

impl FsWatcherIgnored {
    /// Whether `path` is excluded, after turning backslashes into slashes.
    pub fn should_ignore(&self, path: &str) -> (r: bool)
        ensures
            r == ignores(*self, path@),
    {
        let normalized = normalize_path(path);
        match self {
            FsWatcherIgnored::Nothing => false,
            FsWatcherIgnored::Path(pattern) => {
                let mut one: Vec<String> = Vec::new();
                one.push(pattern.clone());
                assert(strs(one@) =~= seq![pattern@]);
                patterns_ignore_exec(&one, normalized.as_str())
            },
            FsWatcherIgnored::Paths(patterns) => patterns_ignore_exec(patterns, normalized.as_str()),
            FsWatcherIgnored::Regex(pattern) => {
                match regex_is_match(pattern.as_str(), normalized.as_str()) {
                    Some(m) => m,
                    None => false,
                }
            },
        }
    }
}

} // verus!
