//! Identity-based entry filters: `--allow` globs (function names or source
//! paths), exclude globs applied to baseline entries, and the attribution of
//! entries to workspace crates.
//!
//! Glob compilation and matching are the `globset` crate's; this module
//! decides which globs go into which set, which form of a path each set is
//! asked about, and what an entry's fate is.

use vstd::prelude::*;
use vstd::utf8::encode_utf8;

use crate::paths::{components, has_prefix_components, is_prefix_of, join_path, path_components, strs};
use crate::paths::{collect_path, raw_remainder, remainder_after};
use crate::text::{forward_slashes, replace_backslashes};
use crate::workspace::{is_path_allow_pattern, WorkspaceMember};
use crate::text::{has_char, has_double};

verus! {

#[verifier::external_type_specification]
#[verifier::external_body]
pub struct ExGlobSet(globset::GlobSet);

#[verifier::external_type_specification]
#[verifier::external_body]
pub struct ExGlobSetBuilder(globset::GlobSetBuilder);

/// The globs a builder holds so far, in the order they were added: each
/// glob's pattern and whether `*` is kept from crossing `/`.
pub uninterp spec fn builder_globs(b: globset::GlobSetBuilder) -> Seq<(Seq<char>, bool)>;

/// Whether `globset` parses `pattern` under the given separator option.
pub uninterp spec fn glob_builds(pattern: Seq<char>, literal_separator: bool) -> bool;

/// Whether `globset` compiles the given globs into one set.
pub uninterp spec fn set_builds(globs: Seq<(Seq<char>, bool)>) -> bool;

/// Whether some glob of a set built from `globs` matches `path`.
pub uninterp spec fn globs_match(globs: Seq<(Seq<char>, bool)>, path: Seq<char>) -> bool;

/// A fresh `globset::GlobSetBuilder` (`GlobSetBuilder::new`), holding no
/// globs.
#[verifier::external_body]
fn new_builder() -> (b: globset::GlobSetBuilder)
    ensures
        builder_globs(b) == Seq::<(Seq<char>, bool)>::empty(),
{
    globset::GlobSetBuilder::new()
}

/// Parse `pattern` with `globset::GlobBuilder` (with `literal_separator`
/// set as given) and add the glob to `b` with `GlobSetBuilder::add`.
/// Trusted: the parse succeeds exactly when [`glob_builds`] holds, an added
/// glob is appended, and on a parse error `b` is unchanged and the error's
/// text is returned. Which patterns parse is not stated.
#[verifier::external_body]
fn add_glob(b: &mut globset::GlobSetBuilder, pattern: &str, literal_separator: bool) -> (r: Result<(), String>)
    ensures
        r is Ok <==> glob_builds(pattern@, literal_separator),
        r is Ok ==> builder_globs(*final(b)) == builder_globs(*old(b)).push((pattern@, literal_separator)),
        r is Err ==> builder_globs(*final(b)) == builder_globs(*old(b)),
{
    match globset::GlobBuilder::new(pattern).literal_separator(literal_separator).build() {
        Ok(glob) => {
            b.add(glob);
            Ok(())
        },
        Err(e) => Err(e.to_string()),
    }
}

/// `GlobSetBuilder::build`. Trusted: it succeeds exactly when
/// [`set_builds`] holds, always for a builder with no globs (the source
/// returns the empty set then). Which non-empty collections compile is not
/// stated, and nothing is stated of the set itself: a `GlobSet` keeps only
/// its compiled matchers, not the globs. [`GlobMatcher`] keeps those.
#[verifier::external_body]
fn finish_set(b: &globset::GlobSetBuilder) -> (r: Result<globset::GlobSet, String>)
    ensures
        r is Ok <==> set_builds(builder_globs(*b)),
        builder_globs(*b).len() == 0 ==> r is Ok,
{
    match b.build() {
        Ok(s) => Ok(s),
        Err(e) => Err(e.to_string()),
    }
}

/// A compiled glob set together with the globs it was built from. Only
/// [`build_set`] makes one, from a builder whose globs it records, so the
/// recorded globs are always those of the set.
pub struct GlobMatcher {
    set: globset::GlobSet,
    globs: Ghost<Seq<(Seq<char>, bool)>>,
}

impl GlobMatcher {
    /// The globs the set was built from, in order: each pattern and whether
    /// `*` is kept from crossing `/`.
    pub closed spec fn globs(&self) -> Seq<(Seq<char>, bool)> {
        self.globs@
    }
}

/// `GlobSet::is_empty` on the matcher's set. Trusted: true exactly when the
/// set was built from no glob (the source counts one per glob it was built
/// from).
#[verifier::external_body]
fn set_is_empty(m: &GlobMatcher) -> (r: bool)
    ensures
        r == (m.globs().len() == 0),
{
    m.set.is_empty()
}

/// `GlobSet::is_match` on `path` with the matcher's set. Trusted: the
/// answer is [`globs_match`] of the globs the set was built from and the
/// path, and an empty set matches nothing (the source returns `false`
/// before looking at the path). How a glob matches is not stated.
#[verifier::external_body]
fn set_is_match(m: &GlobMatcher, path: &str) -> (r: bool)
    ensures
        r == globs_match(m.globs(), path@),
        m.globs().len() == 0 ==> !r,
{
    m.set.is_match(std::path::Path::new(path))
}

/// Why a glob set could not be built.
#[derive(Debug, Clone, PartialEq, Eq)]
pub enum FilterError {
    /// `pattern`, given for the `what` option, does not parse.
    InvalidPattern { what: String, pattern: String, cause: String },
    /// The parsed globs for the `what` option do not compile into one set.
    BuildFailed { what: String, cause: String },
}

/// Whether `patterns` compile into one set: each parses, and together they
/// build.
pub open spec fn set_ok(patterns: Seq<Seq<char>>, literal_separator: bool) -> bool {
    (forall|j: int| 0 <= j < patterns.len() ==> glob_builds(#[trigger] patterns[j], literal_separator))
        && set_builds(globs_of(patterns, literal_separator))
}

/// The globs a set built from `patterns` holds, all with one separator
/// option.
pub open spec fn globs_of(patterns: Seq<Seq<char>>, literal_separator: bool) -> Seq<(Seq<char>, bool)> {
    patterns.map_values(|p: Seq<char>| (p, literal_separator))
}

/// The position of the first pattern that does not parse, if any.
pub open spec fn first_bad(patterns: Seq<Seq<char>>, literal_separator: bool, k: int) -> bool {
    &&& 0 <= k < patterns.len()
    &&& !glob_builds(patterns[k], literal_separator)
    &&& forall|j: int| 0 <= j < k ==> glob_builds(#[trigger] patterns[j], literal_separator)
}

/// Compile `patterns` into one set; `what` names the option in errors.
///
/// Fails at the first pattern that does not parse, or when the parsed globs
/// do not compile together; otherwise the set holds exactly the patterns,
/// in order.
fn build_set(patterns: &Vec<String>, literal_separator: bool, what: &str) -> (r: Result<GlobMatcher, FilterError>)
    ensures
        match r {
            Ok(s) => {
                &&& forall|j: int| 0 <= j < patterns@.len() ==> glob_builds(#[trigger] strs(patterns@)[j], literal_separator)
                &&& set_builds(globs_of(strs(patterns@), literal_separator))
                &&& s.globs() == globs_of(strs(patterns@), literal_separator)
            },
            Err(FilterError::InvalidPattern { what: w, pattern, cause }) => {
                &&& w@ == what@
                &&& exists|k: int| first_bad(strs(patterns@), literal_separator, k) && pattern@ == strs(patterns@)[k]
            },
            Err(FilterError::BuildFailed { what: w, cause }) => {
                &&& w@ == what@
                &&& forall|j: int| 0 <= j < patterns@.len() ==> glob_builds(#[trigger] strs(patterns@)[j], literal_separator)
                &&& !set_builds(globs_of(strs(patterns@), literal_separator))
            },
        },
{
    let mut b = new_builder();
    let mut i: usize = 0;
    let ghost ps = strs(patterns@);
    assert(globs_of(ps.take(0), literal_separator) =~= Seq::<(Seq<char>, bool)>::empty());
    while i < patterns.len()
        invariant
            i <= patterns.len(),
            ps == strs(patterns@),
            builder_globs(b) == globs_of(ps.take(i as int), literal_separator),
            forall|j: int| 0 <= j < i ==> glob_builds(#[trigger] ps[j], literal_separator),
        decreases patterns.len() - i,
    {
        let ghost before = builder_globs(b);
        match add_glob(&mut b, patterns[i].as_str(), literal_separator) {
            Ok(()) => {
                assert(globs_of(ps.take(i + 1), literal_separator) =~= before.push((ps[i as int], literal_separator)));
            },
            Err(cause) => {
                assert(first_bad(ps, literal_separator, i as int));
                return Err(FilterError::InvalidPattern {
                    what: String::from_str(what),
                    pattern: patterns[i].clone(),
                    cause,
                });
            },
        }
        i = i + 1;
    }
    assert(ps.take(patterns.len() as int) =~= ps);
    match finish_set(&b) {
        Ok(set) => Ok(GlobMatcher { set, globs: Ghost(builder_globs(b)) }),
        Err(cause) => Err(FilterError::BuildFailed { what: String::from_str(what), cause }),
    }
}

/// A set matching file paths: `*` stays within one path component and `**`
/// is needed to cross directories. `what` names the option in errors
/// (`allow` / `exclude`).
pub fn build_path_set(patterns: &Vec<String>, what: &str) -> (r: Result<GlobMatcher, FilterError>)
    ensures
        r matches Ok(s) ==> s.globs() == globs_of(strs(patterns@), true),
        r is Ok <==> (forall|j: int| 0 <= j < patterns@.len() ==> glob_builds(#[trigger] strs(patterns@)[j], true))
            && set_builds(globs_of(strs(patterns@), true)),
        r matches Err(e) ==> match e {
            FilterError::InvalidPattern { what: w, pattern, cause } => w@ == what@ && exists|k: int|
                first_bad(strs(patterns@), true, k) && pattern@ == strs(patterns@)[k],
            FilterError::BuildFailed { what: w, cause } => w@ == what@,
        },
{
    build_set(patterns, true, what)
}

/// A set matching function names: `*` may cross `::`, so `Foo::*` covers
/// every method of `Foo`.
pub fn build_allow_set(patterns: &Vec<String>) -> (r: Result<GlobMatcher, FilterError>)
    ensures
        r matches Ok(s) ==> s.globs() == globs_of(strs(patterns@), false),
        r is Ok <==> (forall|j: int| 0 <= j < patterns@.len() ==> glob_builds(#[trigger] strs(patterns@)[j], false))
            && set_builds(globs_of(strs(patterns@), false)),
        r matches Err(e) ==> match e {
            FilterError::InvalidPattern { what: w, pattern, cause } => w@ == "allow"@ && exists|k: int|
                first_bad(strs(patterns@), false, k) && pattern@ == strs(patterns@)[k],
            FilterError::BuildFailed { what: w, cause } => w@ == "allow"@,
        },
{
    build_set(patterns, false, "allow")
}

/// Some component suffix of `path` (from the whole path down to its last
/// component) is matched by the globs.
pub open spec fn suffix_matches(globs: Seq<(Seq<char>, bool)>, path: Seq<char>) -> bool {
    exists|i: int|
        0 <= i < path_components(path).len() && #[trigger] globs_match(globs, join_path(path_components(path).skip(i)))
}

/// True if a glob of `set` matches a component suffix of `path`, so a
/// relative pattern like `src/generated/**` matches the absolute file
/// `/home/u/project/src/generated/foo.rs`.
pub fn path_set_matches_suffix(set: &GlobMatcher, path: &str) -> (r: bool)
    ensures
        r == (set.globs().len() > 0 && suffix_matches(set.globs(), path@)),
{
    if set_is_empty(set) {
        return false;
    }
    let cs = components(path);
    let ghost pc = path_components(path@);
    let mut i: usize = 0;
    while i < cs.len()
        invariant
            i <= cs.len(),
            strs(cs@) == pc,
            pc == path_components(path@),
            forall|k: int| 0 <= k < i ==> !#[trigger] globs_match(set.globs(), join_path(pc.skip(k))),
        decreases cs.len() - i,
    {
        let mut rest: Vec<String> = Vec::new();
        let mut j: usize = i;
        assert(pc.subrange(i as int, i as int) =~= Seq::<Seq<char>>::empty());
        while j < cs.len()
            invariant
                i <= j <= cs.len(),
                strs(cs@) == pc,
                strs(rest@) == pc.subrange(i as int, j as int),
            decreases cs.len() - j,
        {
            let piece = cs[j].clone();
            let ghost before = rest@;
            rest.push(piece);
            assert(strs(rest@) =~= strs(before).push(cs@[j as int]@));
            assert(strs(rest@) =~= pc.subrange(i as int, j + 1));
            j = j + 1;
        }
        assert(pc.subrange(i as int, cs.len() as int) =~= pc.skip(i as int));
        let suffix = collect_path(&rest);
        if set_is_match(set, suffix.as_str()) {
            return true;
        }
        i = i + 1;
    }
    false
}

/// Whether a glob of `set` matches the function name `name`.
pub fn name_set_matches(set: &GlobMatcher, name: &str) -> (r: bool)
    ensures
        r == globs_match(set.globs(), name@),
{
    set_is_match(set, name)
}

/// The `--allow` patterns split in two, keeping their order: path globs
/// (see [`is_path_allow_pattern`]) and function-name globs.
pub open spec fn path_patterns(ps: Seq<Seq<char>>) -> Seq<Seq<char>> {
    ps.filter(|p: Seq<char>| has_char(p, '/') || has_double(p, '*'))
}

/// The function-name half of the `--allow` patterns.
pub open spec fn name_patterns(ps: Seq<Seq<char>>) -> Seq<Seq<char>> {
    ps.filter(|p: Seq<char>| !(has_char(p, '/') || has_double(p, '*')))
}

/// Split `--allow` patterns into path globs and function-name globs.
pub fn partition_allow(patterns: &Vec<String>) -> (r: (Vec<String>, Vec<String>))
    ensures
        strs(r.0@) == path_patterns(strs(patterns@)),
        strs(r.1@) == name_patterns(strs(patterns@)),
{
    let ghost ps = strs(patterns@);
    let mut paths: Vec<String> = Vec::new();
    let mut names: Vec<String> = Vec::new();
    let mut i: usize = 0;
    assert(ps.take(0) =~= Seq::<Seq<char>>::empty());
    while i < patterns.len()
        invariant
            i <= patterns.len(),
            ps == strs(patterns@),
            strs(paths@) == path_patterns(ps.take(i as int)),
            strs(names@) == name_patterns(ps.take(i as int)),
        decreases patterns.len() - i,
    {
        assert(ps.take(i + 1).drop_last() =~= ps.take(i as int));
        assert(ps.take(i + 1).last() == ps[i as int]);
        let p = patterns[i].clone();
        let ghost pv = p@;
        let ghost before_paths = paths@;
        let ghost before_names = names@;
        if is_path_allow_pattern(p.as_str()) {
            paths.push(p);
            assert(strs(paths@) =~= strs(before_paths).push(pv));
        } else {
            names.push(p);
            assert(strs(names@) =~= strs(before_names).push(pv));
        }
        proof {
            let f = |q: Seq<char>| has_char(q, '/') || has_double(q, '*');
            let g = |q: Seq<char>| !(has_char(q, '/') || has_double(q, '*'));
            assert(ps.take(i + 1).filter(f) == if f(ps.take(i + 1).last()) {
                ps.take(i + 1).drop_last().filter(f).push(ps.take(i + 1).last())
            } else {
                ps.take(i + 1).drop_last().filter(f)
            }) by {
                reveal(Seq::filter);
            }
            assert(ps.take(i + 1).filter(g) == if g(ps.take(i + 1).last()) {
                ps.take(i + 1).drop_last().filter(g).push(ps.take(i + 1).last())
            } else {
                ps.take(i + 1).drop_last().filter(g)
            }) by {
                reveal(Seq::filter);
            }
        }
        i = i + 1;
    }
    assert(ps.take(patterns.len() as int) =~= ps);
    (paths, names)
}

/// The `--allow` filter: function-name globs match the entry's function,
/// path globs a component suffix of its file; a match on either drops the
/// entry.
pub struct AllowFilter {
    pub name_allow: GlobMatcher,
    pub path_allow: GlobMatcher,
}

impl AllowFilter {
    /// Both sets of the `--allow` patterns.
    pub fn new(allow_patterns: &Vec<String>) -> (r: Result<AllowFilter, FilterError>)
        ensures
            r is Ok <==> set_ok(name_patterns(strs(allow_patterns@)), false) && set_ok(
                path_patterns(strs(allow_patterns@)),
                true,
            ),
            r matches Ok(f) ==> f.name_allow.globs() == globs_of(name_patterns(strs(allow_patterns@)), false)
                && f.path_allow.globs() == globs_of(path_patterns(strs(allow_patterns@)), true),
            r matches Err(e) ==> match e {
                FilterError::InvalidPattern { what: w, .. } => w@ == "allow"@,
                FilterError::BuildFailed { what: w, .. } => w@ == "allow"@,
            },
    {
        let (path_pats, name_pats) = partition_allow(allow_patterns);
        let name_allow = match build_allow_set(&name_pats) {
            Ok(s) => s,
            Err(e) => return Err(e),
        };
        let path_allow = match build_path_set(&path_pats, "allow") {
            Ok(s) => s,
            Err(e) => return Err(e),
        };
        Ok(AllowFilter { name_allow, path_allow })
    }

    /// Whether the allow-list keeps the entry for `function` in `file`.
    pub fn keeps(&self, file: &str, function: &str) -> (r: bool)
        ensures
            r == (!globs_match(self.name_allow.globs(), function@) && !(self.path_allow.globs().len() > 0
                && suffix_matches(self.path_allow.globs(), file@))),
    {
        !name_set_matches(&self.name_allow, function) && !path_set_matches_suffix(&self.path_allow, file)
    }
}

/// The length of `s` in bytes, as `str::len` reports it (the length of its
/// UTF-8 encoding): the length a path's `OsStr` has.
pub open spec fn byte_len(s: Seq<char>) -> usize {
    encode_utf8(s).len() as usize
}

/// Root `k` of `roots` is the one claiming `path`: its components prefix
/// the path's, and no other such root is longer, an earlier one winning a
/// tie — the first match among the roots sorted longest-first.
pub open spec fn claiming_root(roots: Seq<Seq<char>>, path: Seq<char>, k: int) -> bool {
    &&& 0 <= k < roots.len()
    &&& is_prefix_of(path_components(roots[k]), path_components(path))
    &&& forall|j: int|
        0 <= j < roots.len() && is_prefix_of(path_components(#[trigger] roots[j]), path_components(path)) ==> byte_len(roots[j])
            < byte_len(roots[k]) || (byte_len(roots[j]) == byte_len(roots[k]) && k <= j)
}

/// The position of the root claiming `path` (see [`claiming_root`]).
pub fn claiming_root_of(roots: &Vec<String>, path: &str) -> (r: Option<usize>)
    ensures
        match r {
            Some(k) => claiming_root(strs(roots@), path@, k as int),
            None => forall|j: int| 0 <= j < roots@.len() ==> !is_prefix_of(path_components(#[trigger] strs(roots@)[j]), path_components(path@)),
        },
{
    let pc = components(path);
    let mut best: Option<usize> = None;
    let mut best_len: usize = 0;
    let mut j: usize = 0;
    while j < roots.len()
        invariant
            j <= roots.len(),
            strs(pc@) == path_components(path@),
            match best {
                Some(k) => {
                    &&& k < j
                    &&& best_len == byte_len(strs(roots@)[k as int])
                    &&& is_prefix_of(path_components(strs(roots@)[k as int]), path_components(path@))
                    &&& forall|t: int|
                        0 <= t < j && is_prefix_of(path_components(#[trigger] strs(roots@)[t]), path_components(path@)) ==> byte_len(strs(roots@)[t])
                            < best_len || (byte_len(strs(roots@)[t]) == best_len && k <= t)
                },
                None => forall|t: int| 0 <= t < j ==> !is_prefix_of(path_components(#[trigger] strs(roots@)[t]), path_components(path@)),
            },
        decreases roots.len() - j,
    {
        let rc = components(roots[j].as_str());
        assert(strs(roots@)[j as int] == roots@[j as int]@);
        if has_prefix_components(&pc, &rc) {
            let r = roots[j].as_str();
            let len = r.len();
            assert(r@ == roots@[j as int]@);
            assert(len == byte_len(strs(roots@)[j as int]));
            match best {
                Some(_) => {
                    if len > best_len {
                        best = Some(j);
                        best_len = len;
                    }
                },
                None => {
                    best = Some(j);
                    best_len = len;
                },
            }
        }
        j = j + 1;
    }
    best
}

/// The form of `file` the exclude globs see: separators normalized to `/`,
/// then the claiming analyzed root's components taken off (excludes are
/// root-relative), leaving the rest as raw text (see [`raw_remainder`]).
pub open spec fn exclude_form(roots: Seq<Seq<char>>, file: Seq<char>) -> Seq<char> {
    let n = forward_slashes(file);
    if exists|k: int| claiming_root(roots, n, k) {
        let k = choose|k: int| claiming_root(roots, n, k);
        raw_remainder(n, path_components(roots[k]).len() as int)
    } else {
        n
    }
}

/// Baseline entries the current run would have dropped by identity: the
/// exclude globs (matched relative to the analyzed roots, as the walk
/// applies them) and the `--allow` patterns.
pub struct BaselineFilter {
    pub exclude_set: GlobMatcher,
    pub allow: AllowFilter,
    /// Analyzed roots: workspace member dirs, or the single `--path` root.
    pub roots: Vec<String>,
}

/// At most one root claims a path: the claiming root is well defined.
pub proof fn lemma_claiming_root_unique(roots: Seq<Seq<char>>, path: Seq<char>, a: int, b: int)
    requires
        claiming_root(roots, path, a),
        claiming_root(roots, path, b),
    ensures
        a == b,
{
    assert(is_prefix_of(path_components(roots[a]), path_components(path)));
    assert(is_prefix_of(path_components(roots[b]), path_components(path)));
}

impl BaselineFilter {
    /// The filter for the current run's excludes, `--allow` patterns and
    /// analyzed roots.
    pub fn new(excludes: &Vec<String>, allow_patterns: &Vec<String>, roots: Vec<String>) -> (r: Result<BaselineFilter, FilterError>)
        ensures
            r is Ok <==> set_ok(strs(excludes@), true) && set_ok(name_patterns(strs(allow_patterns@)), false)
                && set_ok(path_patterns(strs(allow_patterns@)), true),
            !set_ok(strs(excludes@), true) ==> (r matches Err(e) && match e {
                FilterError::InvalidPattern { what: w, .. } => w@ == "exclude"@,
                FilterError::BuildFailed { what: w, .. } => w@ == "exclude"@,
            }),
            set_ok(strs(excludes@), true) ==> (r matches Err(e) ==> match e {
                FilterError::InvalidPattern { what: w, .. } => w@ == "allow"@,
                FilterError::BuildFailed { what: w, .. } => w@ == "allow"@,
            }),
            r matches Ok(f) ==> {
                &&& f.exclude_set.globs() == globs_of(strs(excludes@), true)
                &&& f.allow.name_allow.globs() == globs_of(name_patterns(strs(allow_patterns@)), false)
                &&& f.allow.path_allow.globs() == globs_of(path_patterns(strs(allow_patterns@)), true)
                &&& f.roots@ == roots@
            },
    {
        let exclude_set = match build_path_set(excludes, "exclude") {
            Ok(s) => s,
            Err(e) => return Err(e),
        };
        let allow = match AllowFilter::new(allow_patterns) {
            Ok(a) => a,
            Err(e) => return Err(e),
        };
        Ok(BaselineFilter { exclude_set, allow, roots })
    }

    /// Whether the exclude globs match `file` in its root-relative form
    /// (see [`exclude_form`]).
    pub fn is_excluded(&self, file: &str) -> (r: bool)
        ensures
            r == (self.exclude_set.globs().len() > 0 && globs_match(
                self.exclude_set.globs(),
                exclude_form(strs(self.roots@), file@),
            )),
    {
        if set_is_empty(&self.exclude_set) {
            return false;
        }
        let normalized = replace_backslashes(file);
        match claiming_root_of(&self.roots, normalized.as_str()) {
            Some(k) => {
                proof {
                    assert(exists|t: int| claiming_root(strs(self.roots@), normalized@, t));
                    let c = choose|t: int| claiming_root(strs(self.roots@), normalized@, t);
                    lemma_claiming_root_unique(strs(self.roots@), normalized@, c, k as int);
                }
                let rc = components(self.roots[k].as_str());
                assert(strs(self.roots@)[k as int] == self.roots@[k as int]@);
                let rel = remainder_after(normalized.as_str(), rc.len());
                set_is_match(&self.exclude_set, rel.as_str())
            },
            None => {
                proof {
                    if exists|t: int| claiming_root(strs(self.roots@), normalized@, t) {
                        let c = choose|t: int| claiming_root(strs(self.roots@), normalized@, t);
                        assert(is_prefix_of(path_components(strs(self.roots@)[c]), path_components(normalized@)));
                    }
                }
                set_is_match(&self.exclude_set, normalized.as_str())
            },
        }
    }

    /// Whether a baseline entry for `function` in `file` survives: not
    /// excluded and not allow-listed.
    pub fn retains(&self, file: &str, function: &str) -> (r: bool)
        ensures
            r == (!(self.exclude_set.globs().len() > 0 && globs_match(
                self.exclude_set.globs(),
                exclude_form(strs(self.roots@), file@),
            )) && !globs_match(self.allow.name_allow.globs(), function@) && !(self.allow.path_allow.globs().len() > 0
                && suffix_matches(self.allow.path_allow.globs(), file@))),
    {
        !self.is_excluded(file) && self.allow.keeps(file, function)
    }
}

/// The crate each file belongs to: the member whose directory claims it
/// (see [`claiming_root`]), none when no member directory does.
pub fn assign_crate_names(files: &Vec<String>, members: &Vec<WorkspaceMember>) -> (r: Vec<Option<String>>)
    ensures
        r@.len() == files@.len(),
        forall|i: int| 0 <= i < files@.len() ==> match #[trigger] r@[i] {
            Some(name) => exists|k: int|
                claiming_root(members@.map_values(|m: WorkspaceMember| m.dir@), files@[i]@, k) && name@
                    == members@[k].name@,
            None => forall|j: int|
                0 <= j < members@.len() ==> !is_prefix_of(path_components(#[trigger] members@[j].dir@), path_components(files@[i]@)),
        },
{
    let mut dirs: Vec<String> = Vec::new();
    let mut m: usize = 0;
    while m < members.len()
        invariant
            m <= members.len(),
            dirs@.len() == m,
            forall|t: int| 0 <= t < m ==> #[trigger] dirs@[t]@ == members@[t].dir@,
        decreases members.len() - m,
    {
        dirs.push(members[m].dir.clone());
        m = m + 1;
    }
    assert(strs(dirs@) =~= members@.map_values(|mm: WorkspaceMember| mm.dir@));
    let mut out: Vec<Option<String>> = Vec::new();
    let mut i: usize = 0;
    while i < files.len()
        invariant
            i <= files.len(),
            out@.len() == i,
            strs(dirs@) == members@.map_values(|mm: WorkspaceMember| mm.dir@),
            dirs@.len() == members@.len(),
            forall|t: int| 0 <= t < i ==> match #[trigger] out@[t] {
                Some(name) => exists|k: int|
                    claiming_root(members@.map_values(|mm: WorkspaceMember| mm.dir@), files@[t]@, k) && name@
                        == members@[k].name@,
                None => forall|j: int|
                    0 <= j < members@.len() ==> !is_prefix_of(path_components(#[trigger] members@[j].dir@), path_components(files@[t]@)),
            },
        decreases files.len() - i,
    {
        match claiming_root_of(&dirs, files[i].as_str()) {
            Some(k) => {
                out.push(Some(members[k].name.clone()));
            },
            None => {
                proof {
                    assert forall|j: int| 0 <= j < members@.len() implies !is_prefix_of(
                        path_components(#[trigger] members@[j].dir@),
                        path_components(files@[i as int]@),
                    ) by {
                        assert(strs(dirs@)[j] == members@[j].dir@);
                    }
                }
                out.push(None);
            },
        }
        i = i + 1;
    }
    out
}


/// Every component suffix of a path is tried, the whole path included: a
/// glob match of the path's components from any position on — from the
/// first, the whole path — is a suffix match.
pub proof fn lemma_every_suffix_is_tried(globs: Seq<(Seq<char>, bool)>, path: Seq<char>, i: int)
    requires
        0 <= i < path_components(path).len(),
        globs_match(globs, join_path(path_components(path).skip(i))),
    ensures
        suffix_matches(globs, path),
{
}

/// In particular a glob matching the whole (non-empty) path is a suffix
/// match.
pub proof fn lemma_whole_path_is_tried(globs: Seq<(Seq<char>, bool)>, path: Seq<char>)
    requires
        path_components(path).len() > 0,
        globs_match(globs, join_path(path_components(path))),
    ensures
        suffix_matches(globs, path),
{
    assert(path_components(path).skip(0) =~= path_components(path));
    lemma_every_suffix_is_tried(globs, path, 0);
}

} // verus!
