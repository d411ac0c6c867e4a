//! Joining complexity data (per function) with coverage data (per file).
//!
//! ## The path-matching problem
//!
//! The complexity pass gives us whatever paths were passed on the command
//! line; LCOV files can contain absolute paths, workspace-relative paths,
//! crate-relative paths, and paths with `./` components. A naïve exact
//! lookup silently misses every file and reports everything as 0% covered.
//!
//! The strategy: absolute LCOV keys that canonicalize are matched exactly
//! against the canonical query; every other key is reduced to its meaningful
//! components and matched as a component-wise *suffix* of the query, the
//! longest matching key winning. Relative keys are never resolved against
//! the working directory. Spellings of one logical file share one index
//! entry, and every spelling behind an entry counts as consumed when a
//! lookup binds there.

use vstd::prelude::*;

use crate::paths::{
    chars_less, chars_lt, components, components_less, has_suffix_components, is_absolute,
    is_suffix_of, lemma_chars_lt_eq_or, lemma_chars_lt_trans, lemma_comps_lt_total, lemma_comps_lt_trans,
    path_components, path_lt, same_components, strs,
};
use crate::text::{chars_of, forward_slashes, replace_backslashes};

verus! {

broadcast use vstd::seq_lib::group_to_multiset_ensures;

/// Final ordering applied to the report entries.
///
/// Entries are always ranked by CRAP descending first — that ordering is the
/// selection invariant `--top` relies on. The user-requested order is
/// applied as a separate, final step.
#[derive(Debug, Clone, Copy, PartialEq, Eq, Structural, Default)]
pub enum SortOrder {
    /// CRAP score descending — the right order for humans reading top-down.
    #[default]
    Crap,
    /// `(file, function, line)` ascending — stable across score changes, so a
    /// committed JSON baseline produces minimal diffs.
    File,
}

/// How to treat functions we have complexity data for but no coverage data.
#[derive(Debug, Clone, Copy, PartialEq, Eq, Structural)]
pub enum MissingCoveragePolicy {
    /// Assume 0% coverage. Pessimistic — good for CI gates, where unmapped
    /// files are a red flag worth surfacing.
    Pessimistic,
    /// Assume 100% coverage. Optimistic — suitable for interactive use where
    /// coverage was scoped to a subset of the tree intentionally.
    Optimistic,
    /// Skip the function entirely; don't emit a row.
    Skip,
}

/// The coverage percentage a function without coverage data is scored at
/// under `policy`, or `None` when the function is dropped from the report.
pub fn fallback_coverage(policy: MissingCoveragePolicy) -> (r: Option<u8>)
    ensures
        r == match policy {
            MissingCoveragePolicy::Pessimistic => Some(0u8),
            MissingCoveragePolicy::Optimistic => Some(100u8),
            MissingCoveragePolicy::Skip => None::<u8>,
        },
{
    match policy {
        MissingCoveragePolicy::Pessimistic => Some(0),
        MissingCoveragePolicy::Optimistic => Some(100),
        MissingCoveragePolicy::Skip => None,
    }
}

/// Cap on example paths carried per stray side of [`ScopeDiagnostics`].
/// `count` always holds the true total; only the examples are bounded.
pub const SCOPE_EXAMPLE_CAP: usize = 10;

/// One side's stray files: the true count plus at most
/// [`SCOPE_EXAMPLE_CAP`] example paths, sorted.
#[derive(Debug, Clone)]
pub struct StrayFiles {
    pub count: usize,
    pub examples: Vec<String>,
}

/// Source/LCOV scope diagnostics: how well the analyzed source tree and the
/// LCOV report overlap.
#[derive(Debug, Clone)]
pub struct ScopeDiagnostics {
    /// Distinct source files that produced at least one analyzed function.
    pub analyzed_files: usize,
    /// Distinct `SF` records in the LCOV report.
    pub lcov_files: usize,
    /// Analyzed files that matched an LCOV record.
    pub matched_files: usize,
    /// Analyzed files with no LCOV match.
    pub source_only: StrayFiles,
    /// LCOV `SF` files matched by no analyzed file.
    pub lcov_only: StrayFiles,
}

/// `s` is in non-descending path order.
pub open spec fn path_sorted(s: Seq<String>) -> bool {
    forall|i: int, j: int| 0 <= i < j < s.len() ==> !path_lt(#[trigger] s[j]@, #[trigger] s[i]@)
}

/// `s` holds the same paths as `files`, each as often, in path order.
pub open spec fn is_sorted_permutation(s: Seq<String>, files: Seq<String>) -> bool {
    s.to_multiset() == files.to_multiset() && path_sorted(s)
}

/// The position at or after `p` where `x` goes into the path-sorted `s`:
/// the first path that sorts strictly after `x`, or the end.
pub open spec fn insertion_point(s: Seq<String>, x: Seq<char>, p: int) -> int
    decreases s.len() - p,
{
    if p >= s.len() || path_lt(x, s[p]@) {
        p
    } else {
        insertion_point(s, x, p + 1)
    }
}

/// `files` in path order, sorted stably: paths that compare equal keep
/// their relative order. Each path is inserted after every path that does
/// not sort after it.
pub open spec fn sorted_paths(files: Seq<String>) -> Seq<String>
    decreases files.len(),
{
    if files.len() == 0 {
        seq![]
    } else {
        let s = sorted_paths(files.drop_last());
        s.insert(insertion_point(s, files.last()@, 0), files.last())
    }
}

/// Sort paths into path order, stably (see [`sorted_paths`]).
pub fn sort_paths(files: &Vec<String>) -> (out: Vec<String>)
    ensures
        out@ == sorted_paths(files@),
        is_sorted_permutation(out@, files@),
{
    let mut out: Vec<String> = Vec::new();
    let mut keys: Vec<Vec<String>> = Vec::new();
    let mut i: usize = 0;
    assert(files@.take(0) =~= Seq::<String>::empty());
    while i < files.len()
        invariant
            i <= files.len(),
            out@.len() == keys@.len(),
            forall|k: int| 0 <= k < keys@.len() ==> strs(#[trigger] keys@[k]@) == path_components(out@[k]@),
            out@.to_multiset() == files@.take(i as int).to_multiset(),
            path_sorted(out@),
            out@ == sorted_paths(files@.take(i as int)),
        decreases files.len() - i,
    {
        let x = files[i].clone();
        let kx = components(x.as_str());
        let mut p: usize = 0;
        while p < out.len() && !components_less(&kx, &keys[p])
            invariant
                p <= out@.len(),
                out@.len() == keys@.len(),
                forall|k: int| 0 <= k < keys@.len() ==> strs(#[trigger] keys@[k]@) == path_components(out@[k]@),
                strs(kx@) == path_components(x@),
                forall|k: int| 0 <= k < p ==> !path_lt(x@, #[trigger] out@[k]@),
                insertion_point(out@, x@, 0) == insertion_point(out@, x@, p as int),
            decreases out@.len() - p,
        {
            p = p + 1;
        }
        assert(insertion_point(out@, x@, p as int) == p);
        assert(files@.take(i + 1).drop_last() =~= files@.take(i as int));
        assert(files@.take(i + 1).last() == x);
        let ghost old_out = out@;
        proof {
            if p < old_out.len() {
                assert(path_lt(x@, old_out[p as int]@));
            }
            assert forall|a: int, b: int| 0 <= a < b < old_out.len() + 1 implies !path_lt(
                #[trigger] old_out.insert(p as int, x)[b]@,
                #[trigger] old_out.insert(p as int, x)[a]@,
            ) by {
                let s = old_out.insert(p as int, x);
                if a < p && b == p {
                } else if a == p && b > p {
                    let y = old_out[b - 1];
                    if path_lt(y@, x@) {
                        lemma_comps_lt_trans(
                            path_components(y@),
                            path_components(x@),
                            path_components(old_out[p as int]@),
                        );
                        lemma_comps_lt_total(path_components(y@), path_components(y@));
                        if b - 1 > p {
                            assert(!path_lt(old_out[b - 1]@, old_out[p as int]@));
                        }
                    }
                } else if a < p && b > p {
                    assert(!path_lt(old_out[b - 1]@, old_out[a]@));
                } else if a < p && b < p {
                    assert(!path_lt(old_out[b]@, old_out[a]@));
                } else {
                    assert(!path_lt(old_out[b - 1]@, old_out[a - 1]@));
                }
            }
        }
        out.insert(p, x);
        keys.insert(p, kx);
        assert(files@.take(i + 1) =~= files@.take(i as int).push(files@[i as int]));
        i = i + 1;
    }
    assert(files@.take(files.len() as int) =~= files@);
    out
}

/// The smaller of two counts.
pub open spec fn min_nat(a: nat, b: nat) -> nat {
    if a < b { a } else { b }
}

impl StrayFiles {
    /// The stray side for `files`: the exact count, and the first
    /// [`SCOPE_EXAMPLE_CAP`] of them in path order as examples.
    pub fn new(files: Vec<String>) -> (r: Self)
        ensures
            r.count == files.len(),
            r.examples.len() == min_nat(files.len() as nat, SCOPE_EXAMPLE_CAP as nat),
            r.examples@ == sorted_paths(files@).take(r.examples@.len() as int),
            exists|s: Seq<String>|
                is_sorted_permutation(s, files@) && r.examples@ == s.take(
                    r.examples@.len() as int,
                ),
    {
        let count = files.len();
        let mut sorted = sort_paths(&files);
        let ghost full = sorted@;
        sorted.truncate(SCOPE_EXAMPLE_CAP);
        proof {
            full.to_multiset_ensures();
            files@.to_multiset_ensures();
            assert(sorted@ =~= full.take(sorted@.len() as int));
        }
        StrayFiles { count, examples: sorted }
    }
}

/// One LCOV record's path: the raw `SF` spelling and, for an absolute
/// spelling whose file exists, its canonical form.
#[derive(Debug, Clone)]
pub struct CoverageKey {
    pub raw: String,
    pub canonical: Option<String>,
}

/// A path's components with any `.` component removed: `./src/lib.rs` and
/// `src/lib.rs` normalize identically.
pub open spec fn normalized(cs: Seq<Seq<char>>) -> Seq<Seq<char>> {
    if cs.len() > 0 && cs[0] == seq!['.'] {
        cs.drop_first()
    } else {
        cs
    }
}

/// Only *absolute* LCOV paths are canonicalized: a relative `SF` path means
/// "some file whose component suffix is this" and is never resolved against
/// the working directory.
pub open spec fn in_absolute_tier(k: CoverageKey) -> bool {
    is_absolute(k.raw@) && k.canonical is Some
}

/// The suffix-tier needle of a record: its normalized components.
pub open spec fn needle_of(k: CoverageKey) -> Seq<Seq<char>> {
    normalized(path_components(k.raw@))
}

/// A record matched by component suffix. A record whose needle is empty
/// (`SF:.`, an empty `SF:`) would suffix-match every query, so it belongs to
/// no tier at all.
pub open spec fn in_suffix_tier(k: CoverageKey) -> bool {
    !in_absolute_tier(k) && needle_of(k).len() > 0
}

/// The exact-match keys an index over the first `n` records holds: the
/// canonical paths of the absolute-tier records, each once, in the order of
/// their first record.
pub open spec fn absolute_keys(keys: Seq<CoverageKey>, n: int) -> Seq<Seq<char>>
    decreases n,
{
    if n <= 0 {
        seq![]
    } else {
        let r = absolute_keys(keys, n - 1);
        let k = keys[n - 1];
        if in_absolute_tier(k) && !r.contains(k.canonical->0@) {
            r.push(k.canonical->0@)
        } else {
            r
        }
    }
}

/// The suffix-match needles an index over the first `n` records holds: the
/// needles of the suffix-tier records, each once, in the order of their
/// first record.
pub open spec fn relative_keys(keys: Seq<CoverageKey>, n: int) -> Seq<Seq<Seq<char>>>
    decreases n,
{
    if n <= 0 {
        seq![]
    } else {
        let r = relative_keys(keys, n - 1);
        let k = keys[n - 1];
        if in_suffix_tier(k) && !r.contains(needle_of(k)) {
            r.push(needle_of(k))
        } else {
            r
        }
    }
}

/// A path lookup index over LCOV records, which are referred to by their
/// position in the record list.
///
/// `slot[s]` says where record `s` sits: behind an exact-match canonical
/// path, behind a suffix-match needle, or nowhere (a degenerate record).
/// Spellings of one canonical file, and component-equal relative
/// spellings, share one entry.
#[derive(Debug)]
pub struct PathIndex {
    /// Canonical absolute paths, pairwise distinct.
    pub by_absolute: Vec<String>,
    /// Normalized needles, pairwise component-distinct and non-empty.
    pub by_relative: Vec<Vec<String>>,
    /// The entry each record sits behind.
    pub slot: Vec<Option<Hit>>,
}

/// Where a record sits, or where a lookup bound: an exact-match entry or a
/// suffix-match entry, by position.
#[derive(Debug, Clone, Copy, PartialEq, Eq, Structural, Hash)]
pub enum Hit {
    Absolute(usize),
    Relative(usize),
}

impl PathIndex {
    /// Keys are unique within each tier, and no needle is empty.
    pub open spec fn tiers_distinct(&self) -> bool {
        &&& forall|i: int, j: int|
            0 <= i < j < self.by_absolute@.len() ==> #[trigger] self.by_absolute@[i]@
                != #[trigger] self.by_absolute@[j]@
        &&& forall|i: int, j: int|
            0 <= i < j < self.by_relative@.len() ==> strs(#[trigger] self.by_relative@[i]@)
                != strs(#[trigger] self.by_relative@[j]@)
        &&& forall|i: int|
            0 <= i < self.by_relative@.len() ==> strs(#[trigger] self.by_relative@[i]@).len() > 0
    }

    /// Record `s` of `keys` sits exactly where its tier and key say.
    pub open spec fn slot_correct(&self, keys: Seq<CoverageKey>, s: int) -> bool {
        match self.slot@[s] {
            Some(Hit::Absolute(e)) => {
                &&& e < self.by_absolute@.len()
                &&& in_absolute_tier(keys[s])
                &&& self.by_absolute@[e as int]@ == keys[s].canonical->0@
            },
            Some(Hit::Relative(e)) => {
                &&& e < self.by_relative@.len()
                &&& in_suffix_tier(keys[s])
                &&& strs(self.by_relative@[e as int]@) == needle_of(keys[s])
            },
            None => !in_absolute_tier(keys[s]) && !in_suffix_tier(keys[s]),
        }
    }

    /// Some record sits behind `h`.
    pub open spec fn has_record(&self, h: Hit) -> bool {
        exists|s: int| 0 <= s < self.slot@.len() && self.slot@[s] == Some(h)
    }

    /// Every entry has at least one record behind it.
    pub open spec fn entries_used(&self) -> bool {
        &&& forall|e: usize| e < self.by_absolute@.len() ==> #[trigger] self.has_record(Hit::Absolute(e))
        &&& forall|e: usize| e < self.by_relative@.len() ==> #[trigger] self.has_record(Hit::Relative(e))
    }

    /// The index over `keys`: one slot per record, each slot correct, keys
    /// distinct per tier, and no entry without a record behind it.
    pub open spec fn indexes(&self, keys: Seq<CoverageKey>) -> bool {
        &&& self.slot@.len() == keys.len()
        &&& self.tiers_distinct()
        &&& self.entries_used()
        &&& forall|s: int| 0 <= s < keys.len() ==> #[trigger] self.slot_correct(keys, s)
    }

    /// The exact-match keys, as character sequences.
    pub open spec fn absolute_views(&self) -> Seq<Seq<char>> {
        self.by_absolute@.map_values(|c: String| c@)
    }

    /// The suffix-match needles, as component sequences.
    pub open spec fn relative_views(&self) -> Seq<Seq<Seq<char>>> {
        self.by_relative@.map_values(|v: Vec<String>| strs(v@))
    }

    /// Build the index over `keys`. Its entries are exactly
    /// [`absolute_keys`] and [`relative_keys`] of the records: what the
    /// index holds is a function of the records' spellings and canonical
    /// forms alone.
    pub fn build(keys: &Vec<CoverageKey>) -> (r: PathIndex)
        ensures
            r.indexes(keys@),
            r.absolute_views() == absolute_keys(keys@, keys@.len() as int),
            r.relative_views() == relative_keys(keys@, keys@.len() as int),
    {
        let mut index = PathIndex { by_absolute: Vec::new(), by_relative: Vec::new(), slot: Vec::new() };
        let mut s: usize = 0;
        while s < keys.len()
            invariant
                s <= keys.len(),
                index.slot@.len() == s,
                index.tiers_distinct(),
                index.entries_used(),
                forall|t: int| 0 <= t < s ==> #[trigger] index.slot_correct(keys@, t),
                index.absolute_views() == absolute_keys(keys@, s as int),
                index.relative_views() == relative_keys(keys@, s as int),
            decreases keys.len() - s,
        {
            let key = &keys[s];
            let absolute = key.raw.unicode_len() > 0 && key.raw.as_str().get_char(0) == '/';
            let ghost before = index;
            let placed = match (&key.canonical, absolute) {
                (Some(canonical), true) => Some(Hit::Absolute(index.absolute_entry(canonical))),
                _ => {
                    let comps = components(key.raw.as_str());
                    let needle = normalize_components(comps);
                    if needle.len() > 0 {
                        Some(Hit::Relative(index.relative_entry(needle)))
                    } else {
                        None
                    }
                },
            };
            index.slot.push(placed);
            proof {
                lemma_entry_lists_step(before, index, keys@, s as int, placed);
                assert forall|t: int| 0 <= t < s + 1 implies #[trigger] index.slot_correct(keys@, t) by {
                    if t < s {
                        assert(before.slot_correct(keys@, t));
                        assert(index.slot@[t] == before.slot@[t]);
                    }
                }
                assert forall|e: usize| e < index.by_absolute@.len() implies #[trigger] index.has_record(Hit::Absolute(e)) by {
                    if e < before.by_absolute@.len() {
                        assert(before.has_record(Hit::Absolute(e)));
                        let t = choose|t: int| 0 <= t < before.slot@.len() && before.slot@[t] == Some(Hit::Absolute(e));
                        assert(index.slot@[t] == before.slot@[t]);
                    } else {
                        assert(index.slot@[s as int] == Some(Hit::Absolute(e)));
                    }
                }
                assert forall|e: usize| e < index.by_relative@.len() implies #[trigger] index.has_record(Hit::Relative(e)) by {
                    if e < before.by_relative@.len() {
                        assert(before.has_record(Hit::Relative(e)));
                        let t = choose|t: int| 0 <= t < before.slot@.len() && before.slot@[t] == Some(Hit::Relative(e));
                        assert(index.slot@[t] == before.slot@[t]);
                    } else {
                        assert(index.slot@[s as int] == Some(Hit::Relative(e)));
                    }
                }
            }
            s = s + 1;
        }
        index
    }

    /// Two indexes over the same records that hold the same entries place
    /// every record behind the same entry.
    pub proof fn lemma_slots_determined(a: PathIndex, b: PathIndex, keys: Seq<CoverageKey>)
        requires
            a.indexes(keys),
            b.indexes(keys),
            a.absolute_views() == b.absolute_views(),
            a.relative_views() == b.relative_views(),
        ensures
            a.slot@ == b.slot@,
    {
        assert forall|s: int| 0 <= s < keys.len() implies a.slot@[s] == b.slot@[s] by {
            assert(a.slot_correct(keys, s));
            assert(b.slot_correct(keys, s));
            match (a.slot@[s], b.slot@[s]) {
                (Some(Hit::Absolute(e1)), Some(Hit::Absolute(e2))) => {
                    assert(a.absolute_views()[e1 as int] == a.by_absolute@[e1 as int]@);
                    assert(b.absolute_views()[e2 as int] == b.by_absolute@[e2 as int]@);
                    assert(a.absolute_views()[e2 as int] == a.by_absolute@[e2 as int]@);
                    if e1 < e2 {
                        assert(a.by_absolute@[e1 as int]@ != a.by_absolute@[e2 as int]@);
                    } else if e2 < e1 {
                        assert(a.by_absolute@[e2 as int]@ != a.by_absolute@[e1 as int]@);
                    }
                },
                (Some(Hit::Relative(e1)), Some(Hit::Relative(e2))) => {
                    assert(a.relative_views()[e1 as int] == strs(a.by_relative@[e1 as int]@));
                    assert(b.relative_views()[e2 as int] == strs(b.by_relative@[e2 as int]@));
                    assert(a.relative_views()[e2 as int] == strs(a.by_relative@[e2 as int]@));
                    if e1 < e2 {
                        assert(strs(a.by_relative@[e1 as int]@) != strs(a.by_relative@[e2 as int]@));
                    } else if e2 < e1 {
                        assert(strs(a.by_relative@[e2 as int]@) != strs(a.by_relative@[e1 as int]@));
                    }
                },
                _ => {},
            }
        }
        assert(a.slot@ =~= b.slot@);
    }

    /// Some exact-match key equals the query's canonical form.
    pub open spec fn exact_hit(&self, canonical: Option<String>) -> bool {
        &&& canonical is Some
        &&& exists|e: int| 0 <= e < self.by_absolute@.len() && #[trigger] self.by_absolute@[e]@ == opt_view(canonical)
    }

    /// Suffix entry `j` matches the query components `q`.
    pub open spec fn suffix_hit(&self, q: Seq<Seq<char>>, j: int) -> bool {
        0 <= j < self.by_relative@.len() && is_suffix_of(strs(self.by_relative@[j]@), q)
    }

    /// Find coverage for `query` (whose canonical form, when it has one, is
    /// `canonical`): a direct canonical match first; otherwise the longest
    /// needle that is a component-wise suffix of the query. That longest
    /// needle is unique: two distinct needles of equal length cannot both be
    /// suffixes of one query.
    pub fn lookup(&self, query: &str, canonical: &Option<String>) -> (r: Option<Hit>)
        requires
            self.tiers_distinct(),
        ensures
            match r {
                Some(Hit::Absolute(e)) => {
                    &&& e < self.by_absolute@.len()
                    &&& *canonical is Some
                    &&& self.by_absolute@[e as int]@ == opt_view(*canonical)
                },
                Some(Hit::Relative(j)) => {
                    &&& !self.exact_hit(*canonical)
                    &&& self.suffix_hit(path_components(query@), j as int)
                    &&& forall|k: int|
                        #![trigger self.suffix_hit(path_components(query@), k)]
                        self.suffix_hit(path_components(query@), k) && k != j ==> strs(
                            self.by_relative@[k]@,
                        ).len() < strs(self.by_relative@[j as int]@).len()
                },
                None => {
                    &&& !self.exact_hit(*canonical)
                    &&& forall|k: int| !#[trigger] self.suffix_hit(path_components(query@), k)
                },
            },
    {
        if let Some(c) = canonical {
            let mut e: usize = 0;
            while e < self.by_absolute.len()
                invariant
                    e <= self.by_absolute@.len(),
                    *canonical is Some,
                    opt_view(*canonical) == c@,
                    forall|i: int| 0 <= i < e ==> self.by_absolute@[i]@ != c@,
                decreases self.by_absolute.len() - e,
            {
                if self.by_absolute[e] == *c {
                    return Some(Hit::Absolute(e));
                }
                e = e + 1;
            }
        }
        let q = components(query);
        let ghost qs = path_components(query@);
        let mut best: Option<usize> = None;
        let mut best_len: usize = 0;
        let mut j: usize = 0;
        while j < self.by_relative.len()
            invariant
                self.tiers_distinct(),
                strs(q@) == qs,
                qs == path_components(query@),
                j <= self.by_relative@.len(),
                match best {
                    Some(b) => {
                        &&& b < j
                        &&& self.suffix_hit(qs, b as int)
                        &&& best_len == strs(self.by_relative@[b as int]@).len()
                        &&& forall|k: int| 0 <= k < j && self.suffix_hit(qs, k) && k != b ==> strs(self.by_relative@[k]@).len() < best_len
                    },
                    None => forall|k: int| 0 <= k < j ==> !self.suffix_hit(qs, k),
                },
            decreases self.by_relative.len() - j,
        {
            let needle = &self.by_relative[j];
            if has_suffix_components(&q, needle) {
                match best {
                    Some(b) => {
                        if needle.len() > best_len {
                            best = Some(j);
                            best_len = needle.len();
                        } else {
                            proof {
                                if strs(needle@).len() == best_len {
                                    lemma_equal_length_suffixes(strs(needle@), strs(self.by_relative@[b as int]@), qs);
                                }
                            }
                        }
                    },
                    None => {
                        best = Some(j);
                        best_len = needle.len();
                    },
                }
            }
            j = j + 1;
        }
        match best {
            Some(b) => Some(Hit::Relative(b)),
            None => None,
        }
    }

    /// The position of `canonical` among the exact-match keys, adding it
    /// when absent.
    fn absolute_entry(&mut self, canonical: &String) -> (e: usize)
        requires
            old(self).tiers_distinct(),
        ensures
            final(self).tiers_distinct(),
            final(self).slot == old(self).slot,
            final(self).by_relative == old(self).by_relative,
            e < final(self).by_absolute@.len(),
            final(self).by_absolute@[e as int]@ == canonical@,
            final(self).by_absolute@.len() == if e < old(self).by_absolute@.len() {
                old(self).by_absolute@.len()
            } else {
                old(self).by_absolute@.len() + 1
            },
            e <= old(self).by_absolute@.len(),
            forall|i: int| 0 <= i < old(self).by_absolute@.len() ==> final(self).by_absolute@[i] == old(self).by_absolute@[i],
    {
        let mut e: usize = 0;
        while e < self.by_absolute.len()
            invariant
                e <= self.by_absolute@.len(),
                self.by_absolute@ == old(self).by_absolute@,
                self.by_relative == old(self).by_relative,
                self.slot == old(self).slot,
                old(self).tiers_distinct(),
                forall|j: int| 0 <= j < e ==> self.by_absolute@[j]@ != canonical@,
            decreases self.by_absolute.len() - e,
        {
            if self.by_absolute[e] == *canonical {
                return e;
            }
            e = e + 1;
        }
        self.by_absolute.push(canonical.clone());
        e
    }

    /// The position of `needle` among the suffix-match keys, adding it when
    /// absent.
    fn relative_entry(&mut self, needle: Vec<String>) -> (e: usize)
        requires
            old(self).tiers_distinct(),
            strs(needle@).len() > 0,
        ensures
            final(self).tiers_distinct(),
            final(self).slot == old(self).slot,
            final(self).by_absolute == old(self).by_absolute,
            e < final(self).by_relative@.len(),
            strs(final(self).by_relative@[e as int]@) == strs(needle@),
            final(self).by_relative@.len() == if e < old(self).by_relative@.len() {
                old(self).by_relative@.len()
            } else {
                old(self).by_relative@.len() + 1
            },
            e <= old(self).by_relative@.len(),
            forall|i: int| 0 <= i < old(self).by_relative@.len() ==> final(self).by_relative@[i] == old(self).by_relative@[i],
    {
        let mut e: usize = 0;
        while e < self.by_relative.len()
            invariant
                e <= self.by_relative@.len(),
                self.by_relative@ == old(self).by_relative@,
                self.by_absolute == old(self).by_absolute,
                self.slot == old(self).slot,
                old(self).tiers_distinct(),
                forall|j: int| 0 <= j < e ==> strs(self.by_relative@[j]@) != strs(needle@),
            decreases self.by_relative.len() - e,
        {
            if same_components(&self.by_relative[e], &needle) {
                return e;
            }
            e = e + 1;
        }
        self.by_relative.push(needle);
        e
    }
}

/// The characters of an optional string (empty when absent).
pub open spec fn opt_view(s: Option<String>) -> Seq<char> {
    match s {
        Some(t) => t@,
        None => Seq::<char>::empty(),
    }
}

/// Two suffixes of one sequence with the same length are the same suffix.
pub proof fn lemma_equal_length_suffixes<T>(a: Seq<T>, b: Seq<T>, q: Seq<T>)
    requires
        is_suffix_of(a, q),
        is_suffix_of(b, q),
        a.len() == b.len(),
    ensures
        a == b,
{
}

/// Drop a leading `.` component (see [`normalized`]).
pub fn normalize_components(cs: Vec<String>) -> (r: Vec<String>)
    ensures
        strs(r@) == normalized(strs(cs@)),
{
    let mut cs = cs;
    let ghost orig = cs@;
    if cs.len() > 0 && cs[0].unicode_len() == 1 && cs[0].as_str().get_char(0) == '.' {
        assert(cs@[0]@ =~= seq!['.']);
        cs.remove(0);
        assert(strs(cs@) =~= strs(orig).drop_first());
        cs
    } else {
        proof {
            if cs@.len() > 0 && cs@[0]@ == seq!['.'] {
                assert(cs@[0]@.len() == 1 && cs@[0]@[0] == '.');
            }
        }
        cs
    }
}

/// One analyzed source file to look up: its path and, when it exists, its
/// canonical form.
#[derive(Debug, Clone)]
pub struct FileQuery {
    pub file: String,
    pub canonical: Option<String>,
}

/// `r` is what [`PathIndex::lookup`] answers for `q`.
pub open spec fn is_lookup_result(index: PathIndex, q: FileQuery, r: Option<Hit>) -> bool {
    match r {
        Some(Hit::Absolute(e)) => {
            &&& e < index.by_absolute@.len()
            &&& q.canonical is Some
            &&& index.by_absolute@[e as int]@ == opt_view(q.canonical)
        },
        Some(Hit::Relative(j)) => {
            &&& !index.exact_hit(q.canonical)
            &&& index.suffix_hit(path_components(q.file@), j as int)
            &&& forall|k: int|
                #![trigger index.suffix_hit(path_components(q.file@), k)]
                index.suffix_hit(path_components(q.file@), k) && k != j ==> strs(
                    index.by_relative@[k]@,
                ).len() < strs(index.by_relative@[j as int]@).len()
        },
        None => {
            &&& !index.exact_hit(q.canonical)
            &&& forall|k: int| !#[trigger] index.suffix_hit(path_components(q.file@), k)
        },
    }
}

/// `p` is component-equal to some path in `d`.
pub open spec fn has_same_path(d: Seq<String>, p: String) -> bool {
    exists|k: int| 0 <= k < d.len() && path_components(#[trigger] d[k]@) == path_components(p@)
}

/// `fs` with later spellings of an already-listed path dropped.
pub open spec fn dedup_paths(fs: Seq<String>) -> Seq<String>
    decreases fs.len(),
{
    if fs.len() == 0 {
        seq![]
    } else {
        let d = dedup_paths(fs.drop_last());
        if has_same_path(d, fs.last()) {
            d
        } else {
            d.push(fs.last())
        }
    }
}

/// The files of the queries whose lookup bound somewhere, in order.
pub open spec fn hit_files(qs: Seq<FileQuery>, hits: Seq<Option<Hit>>) -> Seq<String>
    decreases qs.len(),
{
    if qs.len() == 0 || hits.len() != qs.len() {
        seq![]
    } else {
        let rest = hit_files(qs.drop_last(), hits.drop_last());
        if hits.last() is Some {
            rest.push(qs.last().file)
        } else {
            rest
        }
    }
}

/// The paths of `seen` that no path of `mapped` matches, in order.
pub open spec fn unmatched(seen: Seq<String>, mapped: Seq<String>) -> Seq<String>
    decreases seen.len(),
{
    if seen.len() == 0 {
        seq![]
    } else {
        let rest = unmatched(seen.drop_last(), mapped);
        if has_same_path(mapped, seen.last()) {
            rest
        } else {
            rest.push(seen.last())
        }
    }
}

/// Record `s` was consumed: some lookup bound to the entry it sits behind.
pub open spec fn consumed(index: PathIndex, hits: Seq<Option<Hit>>, s: int) -> bool {
    match index.slot@[s] {
        Some(h) => hits.contains(Some(h)),
        None => false,
    }
}

/// The raw spellings of the first `n` records that no lookup consumed.
pub open spec fn unconsumed(
    keys: Seq<CoverageKey>,
    index: PathIndex,
    hits: Seq<Option<Hit>>,
    n: int,
) -> Seq<String>
    decreases n,
{
    if n <= 0 {
        seq![]
    } else {
        let rest = unconsumed(keys, index, hits, n - 1);
        if consumed(index, hits, n - 1) {
            rest
        } else {
            rest.push(keys[n - 1].raw)
        }
    }
}

/// `st` is the stray side for `files` (see [`StrayFiles::new`]).
pub open spec fn strays_of(st: StrayFiles, files: Seq<String>) -> bool {
    &&& st.count == files.len()
    &&& st.examples.len() == min_nat(files.len(), SCOPE_EXAMPLE_CAP as nat)
    &&& st.examples@ == sorted_paths(files).take(st.examples@.len() as int)
}

/// The outcome of matching analyzed files against LCOV records.
#[derive(Debug)]
pub struct MatchResult {
    /// The index over the LCOV records.
    pub index: PathIndex,
    /// Where each query bound, in query order.
    pub hits: Vec<Option<Hit>>,
    /// Scope diagnostics: `Some` exactly when there is at least one record.
    pub diagnostics: Option<ScopeDiagnostics>,
}

/// Keep the first spelling of every distinct path (see [`dedup_paths`]).
pub fn dedup_path_list(fs: &Vec<String>) -> (r: Vec<String>)
    ensures
        r@ == dedup_paths(fs@),
{
    let mut out: Vec<String> = Vec::new();
    let mut comps: Vec<Vec<String>> = Vec::new();
    let mut i: usize = 0;
    assert(fs@.take(0) =~= Seq::<String>::empty());
    while i < fs.len()
        invariant
            i <= fs.len(),
            out@ == dedup_paths(fs@.take(i as int)),
            comps@.len() == out@.len(),
            forall|k: int| 0 <= k < comps@.len() ==> strs(#[trigger] comps@[k]@) == path_components(out@[k]@),
        decreases fs.len() - i,
    {
        assert(fs@.take(i + 1).drop_last() =~= fs@.take(i as int));
        let c = components(fs[i].as_str());
        let mut k: usize = 0;
        let mut found = false;
        while k < comps.len() && !found
            invariant
                i < fs@.len(),
                out@ == dedup_paths(fs@.take(i as int)),
                k <= comps@.len(),
                comps@.len() == out@.len(),
                forall|m: int| 0 <= m < comps@.len() ==> strs(#[trigger] comps@[m]@) == path_components(out@[m]@),
                strs(c@) == path_components(fs@[i as int]@),
                found ==> has_same_path(out@, fs@[i as int]),
                !found ==> forall|m: int| 0 <= m < k as int ==> path_components(#[trigger] out@[m]@) != path_components(fs@[i as int]@),
            decreases comps.len() - k,
        {
            if same_components(&comps[k], &c) {
                found = true;
            }
            k = k + 1;
        }
        proof {
            assert(fs@.take(i + 1).last() == fs@[i as int]);
            if !found {
                assert(!has_same_path(out@, fs@[i as int]));
            }
        }
        if !found {
            out.push(fs[i].clone());
            comps.push(c);
        }
        i = i + 1;
    }
    assert(fs@.take(fs.len() as int) =~= fs@);
    out
}

/// Whether `p` matches some path of `d`, component-wise.
fn contains_path(d: &Vec<String>, p: &String) -> (r: bool)
    ensures
        r == has_same_path(d@, *p),
{
    let c = components(p.as_str());
    let mut k: usize = 0;
    while k < d.len()
        invariant
            k <= d@.len(),
            strs(c@) == path_components(p@),
            forall|m: int| 0 <= m < k ==> path_components(#[trigger] d@[m]@) != path_components(p@),
        decreases d.len() - k,
    {
        let dk = components(d[k].as_str());
        if same_components(&dk, &c) {
            return true;
        }
        k = k + 1;
    }
    false
}

/// Match every analyzed file against the LCOV records, and summarize how
/// the two sides overlap.
///
/// The diagnostics count distinct analyzed files (component-equal spellings
/// count once), distinct matched files, and the records; the stray sides are
/// the analyzed files with no match and the records no lookup consumed —
/// every spelling behind a consumed entry counts as consumed, so an alias of
/// a matched file is never reported as a stray.
pub fn match_files(queries: &Vec<FileQuery>, keys: &Vec<CoverageKey>) -> (r: MatchResult)
    ensures
        r.index.indexes(keys@),
        r.index.absolute_views() == absolute_keys(keys@, keys@.len() as int),
        r.index.relative_views() == relative_keys(keys@, keys@.len() as int),
        r.hits@.len() == queries@.len(),
        forall|i: int| 0 <= i < queries@.len() ==> is_lookup_result(r.index, queries@[i], #[trigger] r.hits@[i]),
        r.diagnostics is Some <==> keys@.len() > 0,
        r.diagnostics matches Some(d) ==> {
            let seen = dedup_paths(queries@.map_values(|q: FileQuery| q.file));
            let mapped = dedup_paths(hit_files(queries@, r.hits@));
            &&& d.analyzed_files == seen.len()
            &&& d.lcov_files == keys@.len()
            &&& d.matched_files == mapped.len()
            &&& strays_of(d.source_only, unmatched(seen, mapped))
            &&& strays_of(d.lcov_only, unconsumed(keys@, r.index, r.hits@, keys@.len() as int))
        },
{
    let index = PathIndex::build(keys);
    let mut hits: Vec<Option<Hit>> = Vec::new();
    let mut files: Vec<String> = Vec::new();
    let mut matched: Vec<String> = Vec::new();
    let mut i: usize = 0;
    let ghost files_spec = queries@.map_values(|q: FileQuery| q.file);
    assert(queries@.take(0) =~= Seq::<FileQuery>::empty());
    assert(files_spec.take(0) =~= Seq::<String>::empty());
    while i < queries.len()
        invariant
            i <= queries.len(),
            index.indexes(keys@),
            files_spec == queries@.map_values(|q: FileQuery| q.file),
            hits@.len() == i,
            forall|k: int| 0 <= k < i ==> is_lookup_result(index, queries@[k], #[trigger] hits@[k]),
            files@ == files_spec.take(i as int),
            matched@ == hit_files(queries@.take(i as int), hits@),
        decreases queries.len() - i,
    {
        let q = &queries[i];
        let h = index.lookup(q.file.as_str(), &q.canonical);
        let ghost old_hits = hits@;
        hits.push(h);
        files.push(q.file.clone());
        if h.is_some() {
            matched.push(q.file.clone());
        }
        proof {
            assert(queries@.take(i + 1).drop_last() =~= queries@.take(i as int));
            assert(hits@.drop_last() =~= old_hits);
            assert(files_spec.take(i + 1) =~= files_spec.take(i as int).push(q.file));
        }
        i = i + 1;
    }
    assert(queries@.take(queries.len() as int) =~= queries@);
    assert(files_spec.take(queries.len() as int) =~= files_spec);
    if keys.len() == 0 {
        return MatchResult { index, hits, diagnostics: None };
    }
    let seen = dedup_path_list(&files);
    let mapped = dedup_path_list(&matched);
    let mut source_only: Vec<String> = Vec::new();
    let mut j: usize = 0;
    assert(seen@.take(0) =~= Seq::<String>::empty());
    while j < seen.len()
        invariant
            j <= seen@.len(),
            source_only@ == unmatched(seen@.take(j as int), mapped@),
        decreases seen.len() - j,
    {
        assert(seen@.take(j + 1).drop_last() =~= seen@.take(j as int));
        if !contains_path(&mapped, &seen[j]) {
            source_only.push(seen[j].clone());
        }
        j = j + 1;
    }
    assert(seen@.take(seen.len() as int) =~= seen@);
    let mut abs_used: Vec<bool> = Vec::new();
    let mut rel_used: Vec<bool> = Vec::new();
    let mut a: usize = 0;
    while a < index.by_absolute.len()
        invariant
            a <= index.by_absolute@.len(),
            abs_used@.len() == a,
            forall|e: int| 0 <= e < a ==> abs_used@[e] == hits@.contains(Some(Hit::Absolute(e as usize))),
        decreases index.by_absolute.len() - a,
    {
        abs_used.push(contains_hit(&hits, Hit::Absolute(a)));
        a = a + 1;
    }
    let mut b: usize = 0;
    while b < index.by_relative.len()
        invariant
            b <= index.by_relative@.len(),
            rel_used@.len() == b,
            forall|e: int| 0 <= e < b ==> rel_used@[e] == hits@.contains(Some(Hit::Relative(e as usize))),
        decreases index.by_relative.len() - b,
    {
        rel_used.push(contains_hit(&hits, Hit::Relative(b)));
        b = b + 1;
    }
    let mut lcov_only: Vec<String> = Vec::new();
    let mut s: usize = 0;
    while s < keys.len()
        invariant
            s <= keys@.len(),
            index.indexes(keys@),
            abs_used@.len() == index.by_absolute@.len(),
            rel_used@.len() == index.by_relative@.len(),
            forall|e: int| 0 <= e < abs_used@.len() ==> abs_used@[e] == hits@.contains(Some(Hit::Absolute(e as usize))),
            forall|e: int| 0 <= e < rel_used@.len() ==> rel_used@[e] == hits@.contains(Some(Hit::Relative(e as usize))),
            lcov_only@ == unconsumed(keys@, index, hits@, s as int),
        decreases keys.len() - s,
    {
        assert(index.slot_correct(keys@, s as int));
        let used = match index.slot[s] {
            Some(Hit::Absolute(e)) => abs_used[e],
            Some(Hit::Relative(e)) => rel_used[e],
            None => false,
        };
        if !used {
            lcov_only.push(keys[s].raw.clone());
        }
        s = s + 1;
    }
    let diagnostics = ScopeDiagnostics {
        analyzed_files: seen.len(),
        lcov_files: keys.len(),
        matched_files: mapped.len(),
        source_only: StrayFiles::new(source_only),
        lcov_only: StrayFiles::new(lcov_only),
    };
    MatchResult { index, hits, diagnostics: Some(diagnostics) }
}

/// Whether some lookup in `hits` bound to `h`.
fn contains_hit(hits: &Vec<Option<Hit>>, h: Hit) -> (r: bool)
    ensures
        r == hits@.contains(Some(h)),
{
    let mut i: usize = 0;
    while i < hits.len()
        invariant
            i <= hits@.len(),
            forall|k: int| 0 <= k < i ==> hits@[k] != Some(h),
        decreases hits.len() - i,
    {
        if hits[i] == Some(h) {
            assert(hits@[i as int] == Some(h));
            return true;
        }
        i = i + 1;
    }
    false
}


/// A relative LCOV path is never resolved against the working directory:
/// whatever canonical form it came with, its record never sits behind an
/// exact-match entry of an index over the records.
pub proof fn lemma_relative_records_never_exact(index: PathIndex, keys: Seq<CoverageKey>, s: int)
    requires
        index.indexes(keys),
        0 <= s < keys.len(),
        !is_absolute(keys[s].raw@),
    ensures
        !(index.slot@[s] matches Some(Hit::Absolute(_))),
{
    assert(index.slot_correct(keys, s));
}

/// Two suffix-tier records share an index entry exactly when their
/// normalized components are equal: `./src/lib.rs` and `src/lib.rs` merge,
/// while `a/util.rs` and `b/util.rs` never do.
pub proof fn lemma_suffix_records_share_entry_iff_same_needle(
    index: PathIndex,
    keys: Seq<CoverageKey>,
    s: int,
    t: int,
)
    requires
        index.indexes(keys),
        0 <= s < keys.len(),
        0 <= t < keys.len(),
        in_suffix_tier(keys[s]),
        in_suffix_tier(keys[t]),
    ensures
        index.slot@[s] == index.slot@[t] <==> needle_of(keys[s]) == needle_of(keys[t]),
{
    assert(index.slot_correct(keys, s));
    assert(index.slot_correct(keys, t));
    if let Some(Hit::Relative(a)) = index.slot@[s] {
        if let Some(Hit::Relative(b)) = index.slot@[t] {
            if a != b && needle_of(keys[s]) == needle_of(keys[t]) {
                if a < b {
                    assert(strs(index.by_relative@[a as int]@) != strs(index.by_relative@[b as int]@));
                } else {
                    assert(strs(index.by_relative@[b as int]@) != strs(index.by_relative@[a as int]@));
                }
            }
        }
    }
}

/// Two exact-tier records share an index entry exactly when their canonical
/// paths are equal: every spelling of one canonical file merges.
pub proof fn lemma_exact_records_share_entry_iff_same_canonical(
    index: PathIndex,
    keys: Seq<CoverageKey>,
    s: int,
    t: int,
)
    requires
        index.indexes(keys),
        0 <= s < keys.len(),
        0 <= t < keys.len(),
        in_absolute_tier(keys[s]),
        in_absolute_tier(keys[t]),
    ensures
        index.slot@[s] == index.slot@[t] <==> opt_view(keys[s].canonical) == opt_view(keys[t].canonical),
{
    assert(index.slot_correct(keys, s));
    assert(index.slot_correct(keys, t));
    if let Some(Hit::Absolute(a)) = index.slot@[s] {
        if let Some(Hit::Absolute(b)) = index.slot@[t] {
            if a != b && opt_view(keys[s].canonical) == opt_view(keys[t].canonical) {
                if a < b {
                    assert(index.by_absolute@[a as int]@ != index.by_absolute@[b as int]@);
                } else {
                    assert(index.by_absolute@[b as int]@ != index.by_absolute@[a as int]@);
                }
            }
        }
    }
}

/// A record whose normalized components are empty (`SF:.`, an empty `SF:`)
/// and that has no canonical absolute form sits behind no entry, so no
/// lookup can ever bind to it.
pub proof fn lemma_degenerate_records_never_match(index: PathIndex, keys: Seq<CoverageKey>, s: int)
    requires
        index.indexes(keys),
        0 <= s < keys.len(),
        !in_absolute_tier(keys[s]),
        needle_of(keys[s]).len() == 0,
    ensures
        index.slot@[s] is None,
{
    assert(index.slot_correct(keys, s));
}

/// The identity of a report entry that file order sorts by.
#[derive(Debug, Clone)]
pub struct FileOrderKey {
    pub file: String,
    pub function: String,
    pub line: usize,
}

/// File order: `(file, function, line)` ascending, with the file's
/// separators normalized to `/` so baselines written on different
/// platforms sort the same. Strings compare by code point, which is the
/// byte order of their UTF-8 encodings.
pub open spec fn key_lt(a: FileOrderKey, b: FileOrderKey) -> bool {
    let fa = forward_slashes(a.file@);
    let fb = forward_slashes(b.file@);
    chars_lt(fa, fb) || (fa == fb && (chars_lt(a.function@, b.function@) || (a.function@ == b.function@
        && a.line < b.line)))
}

/// Two keys that file order cannot tell apart.
pub open spec fn key_eq(a: FileOrderKey, b: FileOrderKey) -> bool {
    forward_slashes(a.file@) == forward_slashes(b.file@) && a.function@ == b.function@ && a.line == b.line
}

/// File order is a strict weak order whose ties are [`key_eq`]: exactly one
/// of `a < b`, `b < a`, `a ~ b` holds, and both `<` and `~` chain.
pub proof fn lemma_key_order(a: FileOrderKey, b: FileOrderKey, c: FileOrderKey)
    ensures
        key_lt(a, b) || key_lt(b, a) || key_eq(a, b),
        !(key_lt(a, b) && key_lt(b, a)),
        key_eq(a, b) ==> !key_lt(a, b),
        key_lt(a, b) && key_lt(b, c) ==> key_lt(a, c),
        key_lt(a, b) && key_eq(b, c) ==> key_lt(a, c),
        key_eq(a, b) && key_lt(b, c) ==> key_lt(a, c),
{
    let (fa, fb, fc) = (forward_slashes(a.file@), forward_slashes(b.file@), forward_slashes(c.file@));
    lemma_chars_lt_eq_or(fa, fb);
    lemma_chars_lt_eq_or(a.function@, b.function@);
    lemma_chars_lt_eq_or(fa, fa);
    lemma_chars_lt_eq_or(a.function@, a.function@);
    if chars_lt(fa, fb) && chars_lt(fb, fc) {
        lemma_chars_lt_trans(fa, fb, fc);
    }
    if chars_lt(a.function@, b.function@) && chars_lt(b.function@, c.function@) {
        lemma_chars_lt_trans(a.function@, b.function@, c.function@);
    }
}

/// Whether `a` sorts before `b` in file order.
pub fn key_less(a: &FileOrderKey, b: &FileOrderKey) -> (r: bool)
    ensures
        r == key_lt(*a, *b),
{
    let fa = chars_of(replace_backslashes(a.file.as_str()).as_str());
    let fb = chars_of(replace_backslashes(b.file.as_str()).as_str());
    if chars_less(&fa, &fb) {
        return true;
    }
    proof {
        lemma_chars_lt_eq_or(fa@, fb@);
    }
    if chars_less(&fb, &fa) {
        return false;
    }
    let ga = chars_of(a.function.as_str());
    let gb = chars_of(b.function.as_str());
    if chars_less(&ga, &gb) {
        return true;
    }
    proof {
        lemma_chars_lt_eq_or(ga@, gb@);
    }
    if chars_less(&gb, &ga) {
        return false;
    }
    a.line < b.line
}

/// `perm` lists the positions of `keys` in file order, stably: a
/// permutation of the positions, sorted by [`key_lt`], with keys that
/// compare equal keeping their original relative order.
pub open spec fn file_ordered(keys: Seq<FileOrderKey>, perm: Seq<usize>) -> bool {
    &&& perm.len() == keys.len()
    &&& perm.no_duplicates()
    &&& forall|k: int| 0 <= k < perm.len() ==> #[trigger] perm[k] < keys.len()
    &&& forall|a: int, b: int|
        0 <= a < b < perm.len() ==> !key_lt(keys[#[trigger] perm[b] as int], keys[#[trigger] perm[a] as int])
    &&& forall|a: int, b: int|
        0 <= a < b < perm.len() && key_eq(keys[#[trigger] perm[a] as int], keys[#[trigger] perm[b] as int]) ==> perm[a] < perm[b]
}

/// The positions of `keys` in file order (see [`file_ordered`]): the
/// `--sort file` order, stable across score changes so a committed JSON
/// baseline produces minimal diffs.
pub fn file_order(keys: &Vec<FileOrderKey>) -> (perm: Vec<usize>)
    ensures
        file_ordered(keys@, perm@),
{
    let mut out: Vec<usize> = Vec::new();
    let mut i: usize = 0;
    while i < keys.len()
        invariant
            i <= keys.len(),
            out@.len() == i,
            out@.no_duplicates(),
            forall|k: int| 0 <= k < out@.len() ==> #[trigger] out@[k] < i,
            forall|a: int, b: int|
                0 <= a < b < out@.len() ==> !key_lt(keys@[#[trigger] out@[b] as int], keys@[#[trigger] out@[a] as int]),
            forall|a: int, b: int|
                0 <= a < b < out@.len() && key_eq(keys@[#[trigger] out@[a] as int], keys@[#[trigger] out@[b] as int])
                    ==> out@[a] < out@[b],
        decreases keys.len() - i,
    {
        let mut p: usize = 0;
        while p < out.len() && !key_less(&keys[i], &keys[out[p]])
            invariant
                i < keys.len(),
                p <= out@.len(),
                forall|k: int| 0 <= k < out@.len() ==> #[trigger] out@[k] < i,
                forall|k: int| 0 <= k < p ==> !key_lt(keys@[i as int], keys@[#[trigger] out@[k] as int]),
            decreases out@.len() - p,
        {
            p = p + 1;
        }
        let ghost old_out = out@;
        let ghost ki = keys@[i as int];
        proof {
            if p < old_out.len() {
                assert(key_lt(ki, keys@[old_out[p as int] as int]));
                assert forall|k: int| p <= k < old_out.len() implies key_lt(ki, keys@[#[trigger] old_out[k] as int]) by {
                    let kp = keys@[old_out[p as int] as int];
                    let kk = keys@[old_out[k] as int];
                    if k > p {
                        assert(!key_lt(kk, kp));
                    }
                    lemma_key_order(kp, kk, ki);
                    lemma_key_order(ki, kp, kk);
                }
            }
        }
        out.insert(p, i);
        proof {
            let s = out@;
            assert(s == old_out.insert(p as int, i));
            assert forall|k: int| 0 <= k < s.len() implies #[trigger] s[k] < i + 1 by {
                if k < p {
                    assert(s[k] == old_out[k]);
                } else if k > p {
                    assert(s[k] == old_out[k - 1]);
                }
            }
            assert forall|a: int, b: int| 0 <= a < b < s.len() implies !key_lt(
                keys@[#[trigger] s[b] as int],
                keys@[#[trigger] s[a] as int],
            ) && (key_eq(keys@[s[a] as int], keys@[s[b] as int]) ==> s[a] < s[b]) by {
                if b < p {
                    assert(s[a] == old_out[a] && s[b] == old_out[b]);
                } else if b == p {
                    assert(s[a] == old_out[a]);
                    assert(s[a] < i);
                } else if a == p {
                    assert(s[b] == old_out[b - 1]);
                    let kb = keys@[old_out[b - 1] as int];
                    assert(key_lt(ki, kb));
                    lemma_key_order(ki, kb, ki);
                    lemma_key_order(kb, ki, kb);
                } else if a < p {
                    assert(s[a] == old_out[a] && s[b] == old_out[b - 1]);
                } else {
                    assert(s[a] == old_out[a - 1] && s[b] == old_out[b - 1]);
                }
            }
            assert forall|a: int, b: int| 0 <= a < s.len() && 0 <= b < s.len() && a != b implies s[a] != s[b] by {
                if a != p && b != p {
                    let oa = if a < p { a } else { a - 1 };
                    let ob = if b < p { b } else { b - 1 };
                    assert(s[a] == old_out[oa] && s[b] == old_out[ob]);
                } else if a == p {
                    let ob = if b < p { b } else { b - 1 };
                    assert(s[b] == old_out[ob]);
                } else {
                    let oa = if a < p { a } else { a - 1 };
                    assert(s[a] == old_out[oa]);
                }
            }
        }
        i = i + 1;
    }
    out
}

/// The components of each path of `s`.
pub open spec fn comps_seq(s: Seq<String>) -> Seq<Seq<Seq<char>>> {
    s.map_values(|p: String| path_components(p@))
}

proof fn lemma_has_same_path_contains(d: Seq<String>, p: String)
    ensures
        has_same_path(d, p) <==> comps_seq(d).to_set().contains(path_components(p@)),
{
    if has_same_path(d, p) {
        let k = choose|k: int| 0 <= k < d.len() && path_components(#[trigger] d[k]@) == path_components(p@);
        assert(comps_seq(d)[k] == path_components(p@));
    }
    if comps_seq(d).to_set().contains(path_components(p@)) {
        let k = choose|k: int| 0 <= k < comps_seq(d).len() && comps_seq(d)[k] == path_components(p@);
        assert(path_components(d[k]@) == path_components(p@));
    }
}

proof fn lemma_comps_seq_push(s: Seq<String>, x: String)
    ensures
        comps_seq(s.push(x)) == comps_seq(s).push(path_components(x@)),
        comps_seq(s.push(x)).to_set() == comps_seq(s).to_set().insert(path_components(x@)),
{
    assert(comps_seq(s.push(x)) =~= comps_seq(s).push(path_components(x@)));
    comps_seq(s).lemma_push_to_set_commute(path_components(x@));
}

proof fn lemma_dedup_paths(fs: Seq<String>)
    ensures
        comps_seq(dedup_paths(fs)).no_duplicates(),
        comps_seq(dedup_paths(fs)).to_set() == comps_seq(fs).to_set(),
    decreases fs.len(),
{
    if fs.len() == 0 {
        assert(comps_seq(dedup_paths(fs)) =~= Seq::<Seq<Seq<char>>>::empty());
        assert(comps_seq(fs) =~= Seq::<Seq<Seq<char>>>::empty());
    } else {
        let d = dedup_paths(fs.drop_last());
        lemma_dedup_paths(fs.drop_last());
        assert(fs =~= fs.drop_last().push(fs.last()));
        lemma_comps_seq_push(fs.drop_last(), fs.last());
        lemma_has_same_path_contains(d, fs.last());
        if has_same_path(d, fs.last()) {
            assert(comps_seq(fs.drop_last()).to_set().insert(path_components(fs.last()@)) =~= comps_seq(
                fs.drop_last(),
            ).to_set());
        } else {
            lemma_comps_seq_push(d, fs.last());
            let cd = comps_seq(d);
            assert forall|a: int, b: int| 0 <= a < b < cd.push(path_components(fs.last()@)).len() implies cd.push(
                path_components(fs.last()@),
            )[a] != cd.push(path_components(fs.last()@))[b] by {
                if b == cd.len() {
                    assert(cd.to_set().contains(cd[a]));
                }
            }
        }
    }
}

proof fn lemma_hit_files_subset(qs: Seq<FileQuery>, hits: Seq<Option<Hit>>)
    requires
        hits.len() == qs.len(),
    ensures
        comps_seq(hit_files(qs, hits)).to_set().subset_of(comps_seq(qs.map_values(|q: FileQuery| q.file)).to_set()),
    decreases qs.len(),
{
    let fs = qs.map_values(|q: FileQuery| q.file);
    if qs.len() == 0 {
        assert(comps_seq(hit_files(qs, hits)) =~= Seq::<Seq<Seq<char>>>::empty());
    } else {
        lemma_hit_files_subset(qs.drop_last(), hits.drop_last());
        let fs0 = qs.drop_last().map_values(|q: FileQuery| q.file);
        assert(fs =~= fs0.push(qs.last().file));
        lemma_comps_seq_push(fs0, qs.last().file);
        let h0 = hit_files(qs.drop_last(), hits.drop_last());
        if hits.last() is Some {
            lemma_comps_seq_push(h0, qs.last().file);
        }
    }
}

proof fn lemma_unmatched(seen: Seq<String>, mapped: Seq<String>)
    requires
        comps_seq(seen).no_duplicates(),
    ensures
        comps_seq(unmatched(seen, mapped)).no_duplicates(),
        comps_seq(unmatched(seen, mapped)).to_set() == comps_seq(seen).to_set().difference(comps_seq(mapped).to_set()),
    decreases seen.len(),
{
    if seen.len() == 0 {
        assert(comps_seq(unmatched(seen, mapped)) =~= Seq::<Seq<Seq<char>>>::empty());
        assert(comps_seq(seen) =~= Seq::<Seq<Seq<char>>>::empty());
        assert(comps_seq(seen).to_set().difference(comps_seq(mapped).to_set()) =~= Set::<Seq<Seq<char>>>::empty());
    } else {
        let s0 = seen.drop_last();
        let x = seen.last();
        assert(seen =~= s0.push(x));
        lemma_comps_seq_push(s0, x);
        assert(comps_seq(s0).no_duplicates()) by {
            assert forall|a: int, b: int| 0 <= a < b < comps_seq(s0).len() implies comps_seq(s0)[a] != comps_seq(s0)[b] by {
                assert(comps_seq(s0)[a] == comps_seq(seen)[a]);
                assert(comps_seq(s0)[b] == comps_seq(seen)[b]);
            }
        }
        lemma_unmatched(s0, mapped);
        lemma_has_same_path_contains(mapped, x);
        let u0 = unmatched(s0, mapped);
        let cx = path_components(x@);
        assert(!comps_seq(s0).to_set().contains(cx)) by {
            if comps_seq(s0).to_set().contains(cx) {
                let k = choose|k: int| 0 <= k < comps_seq(s0).len() && comps_seq(s0)[k] == cx;
                assert(comps_seq(seen)[k] == comps_seq(seen)[seen.len() - 1]);
            }
        }
        if has_same_path(mapped, x) {
            assert(comps_seq(seen).to_set().difference(comps_seq(mapped).to_set()) =~= comps_seq(s0).to_set().difference(
                comps_seq(mapped).to_set(),
            ));
        } else {
            lemma_comps_seq_push(u0, x);
            assert(comps_seq(seen).to_set().difference(comps_seq(mapped).to_set()) =~= comps_seq(s0).to_set().difference(
                comps_seq(mapped).to_set(),
            ).insert(cx));
            let cu = comps_seq(u0);
            assert forall|a: int, b: int| 0 <= a < b < cu.push(cx).len() implies cu.push(cx)[a] != cu.push(cx)[b] by {
                if b == cu.len() {
                    assert(cu.to_set().contains(cu[a]));
                }
            }
        }
    }
}

/// The scope diagnostics balance: every distinct analyzed file is either
/// matched or reported as a source-only stray, never both, so
/// `matched + source_only == analyzed` and `matched <= analyzed`.
pub proof fn lemma_scope_counts_balance(queries: Seq<FileQuery>, hits: Seq<Option<Hit>>)
    requires
        hits.len() == queries.len(),
    ensures
        dedup_paths(hit_files(queries, hits)).len() <= dedup_paths(queries.map_values(|q: FileQuery| q.file)).len(),
        unmatched(
            dedup_paths(queries.map_values(|q: FileQuery| q.file)),
            dedup_paths(hit_files(queries, hits)),
        ).len() + dedup_paths(hit_files(queries, hits)).len() == dedup_paths(
            queries.map_values(|q: FileQuery| q.file),
        ).len(),
{
    let fs = queries.map_values(|q: FileQuery| q.file);
    let seen = dedup_paths(fs);
    let mapped = dedup_paths(hit_files(queries, hits));
    lemma_dedup_paths(fs);
    lemma_dedup_paths(hit_files(queries, hits));
    lemma_hit_files_subset(queries, hits);
    lemma_unmatched(seen, mapped);
    let cs = comps_seq(seen);
    let cm = comps_seq(mapped);
    let cu = comps_seq(unmatched(seen, mapped));
    cs.unique_seq_to_set();
    cm.unique_seq_to_set();
    cu.unique_seq_to_set();
    let ss = cs.to_set();
    let ms = cm.to_set();
    assert(ms.subset_of(ss));
    vstd::seq_lib::seq_to_set_is_finite(cs);
    vstd::seq_lib::seq_to_set_is_finite(cm);
    vstd::set_lib::lemma_set_difference_len(ss, ms);
    assert(ss.intersect(ms) =~= ms);
    vstd::set_lib::lemma_len_subset(ms, ss);
}

/// No more LCOV records are reported as strays than there are records, and
/// a record is a stray exactly when no lookup consumed it.
pub proof fn lemma_lcov_strays_bounded(keys: Seq<CoverageKey>, index: PathIndex, hits: Seq<Option<Hit>>, n: int)
    requires
        0 <= n <= keys.len(),
    ensures
        unconsumed(keys, index, hits, n).len() <= n,
        forall|s: int|
            0 <= s < n && !consumed(index, hits, s) ==> unconsumed(keys, index, hits, n).contains(keys[s].raw),
    decreases n,
{
    if n > 0 {
        lemma_lcov_strays_bounded(keys, index, hits, n - 1);
        let r = unconsumed(keys, index, hits, n - 1);
        if !consumed(index, hits, n - 1) {
            assert(r.push(keys[n - 1].raw)[r.len() as int] == keys[n - 1].raw);
            assert forall|s: int| 0 <= s < n - 1 && !consumed(index, hits, s) implies r.push(keys[n - 1].raw).contains(
                keys[s].raw,
            ) by {
                let k = choose|k: int| 0 <= k < r.len() && r[k] == keys[s].raw;
                assert(r.push(keys[n - 1].raw)[k] == keys[s].raw);
            }
        }
    }
}

/// One step of [`PathIndex::build`] keeps the entry lists equal to
/// [`absolute_keys`] and [`relative_keys`].
proof fn lemma_entry_lists_step(before: PathIndex, after: PathIndex, keys: Seq<CoverageKey>, s: int, placed: Option<Hit>)
    requires
        0 <= s < keys.len(),
        before.absolute_views() == absolute_keys(keys, s),
        before.relative_views() == relative_keys(keys, s),
        before.tiers_distinct(),
        after.tiers_distinct(),
        after.slot@ == before.slot@.push(placed),
        match placed {
            Some(Hit::Absolute(e)) => {
                &&& in_absolute_tier(keys[s])
                &&& e < after.by_absolute@.len()
                &&& after.by_absolute@[e as int]@ == keys[s].canonical->0@
                &&& e <= before.by_absolute@.len()
                &&& after.by_absolute@.len() == if e < before.by_absolute@.len() {
                    before.by_absolute@.len()
                } else {
                    before.by_absolute@.len() + 1
                }
                &&& forall|i: int| 0 <= i < before.by_absolute@.len() ==> after.by_absolute@[i] == before.by_absolute@[i]
                &&& after.by_relative == before.by_relative
            },
            Some(Hit::Relative(e)) => {
                &&& in_suffix_tier(keys[s])
                &&& e < after.by_relative@.len()
                &&& strs(after.by_relative@[e as int]@) == needle_of(keys[s])
                &&& e <= before.by_relative@.len()
                &&& after.by_relative@.len() == if e < before.by_relative@.len() {
                    before.by_relative@.len()
                } else {
                    before.by_relative@.len() + 1
                }
                &&& forall|i: int| 0 <= i < before.by_relative@.len() ==> after.by_relative@[i] == before.by_relative@[i]
                &&& after.by_absolute == before.by_absolute
            },
            None => {
                &&& !in_absolute_tier(keys[s])
                &&& !in_suffix_tier(keys[s])
                &&& after.by_absolute == before.by_absolute
                &&& after.by_relative == before.by_relative
            },
        },
    ensures
        after.absolute_views() == absolute_keys(keys, s + 1),
        after.relative_views() == relative_keys(keys, s + 1),
{
    let k = keys[s];
    let ra = absolute_keys(keys, s);
    let rr = relative_keys(keys, s);
    match placed {
        Some(Hit::Absolute(e)) => {
            assert(!in_suffix_tier(k));
            assert(after.relative_views() == before.relative_views());
            if e < before.by_absolute@.len() {
                assert(ra[e as int] == before.by_absolute@[e as int]@);
                assert(ra.contains(k.canonical->0@));
                assert(after.absolute_views() =~= before.absolute_views());
            } else {
                assert forall|i: int| 0 <= i < ra.len() implies ra[i] != k.canonical->0@ by {
                    assert(ra[i] == before.by_absolute@[i]@);
                    assert(after.by_absolute@[i] == before.by_absolute@[i]);
                    assert(after.by_absolute@[i]@ != after.by_absolute@[e as int]@);
                }
                assert(after.absolute_views() =~= ra.push(k.canonical->0@));
            }
        },
        Some(Hit::Relative(e)) => {
            assert(!in_absolute_tier(k));
            assert(after.absolute_views() == before.absolute_views());
            if e < before.by_relative@.len() {
                assert(rr[e as int] == strs(before.by_relative@[e as int]@));
                assert(rr.contains(needle_of(k)));
                assert(after.relative_views() =~= before.relative_views());
            } else {
                assert forall|i: int| 0 <= i < rr.len() implies rr[i] != needle_of(k) by {
                    assert(rr[i] == strs(before.by_relative@[i]@));
                    assert(after.by_relative@[i] == before.by_relative@[i]);
                    assert(strs(after.by_relative@[i]@) != strs(after.by_relative@[e as int]@));
                }
                assert(after.relative_views() =~= rr.push(needle_of(k)));
            }
        },
        None => {
            assert(after.absolute_views() == before.absolute_views());
            assert(after.relative_views() == before.relative_views());
        },
    }
}


/// A lookup has one answer: two results that both satisfy
/// [`is_lookup_result`] for one query are equal.
pub proof fn lemma_lookup_result_unique(index: PathIndex, q: FileQuery, r1: Option<Hit>, r2: Option<Hit>)
    requires
        index.tiers_distinct(),
        is_lookup_result(index, q, r1),
        is_lookup_result(index, q, r2),
    ensures
        r1 == r2,
{
    let qc = path_components(q.file@);
    match (r1, r2) {
        (Some(Hit::Absolute(e1)), Some(Hit::Absolute(e2))) => {
            if e1 < e2 {
                assert(index.by_absolute@[e1 as int]@ != index.by_absolute@[e2 as int]@);
            } else if e2 < e1 {
                assert(index.by_absolute@[e2 as int]@ != index.by_absolute@[e1 as int]@);
            }
        },
        (Some(Hit::Absolute(e)), _) => {
            assert(index.by_absolute@[e as int]@ == opt_view(q.canonical));
            assert(index.exact_hit(q.canonical));
        },
        (_, Some(Hit::Absolute(e))) => {
            assert(index.by_absolute@[e as int]@ == opt_view(q.canonical));
            assert(index.exact_hit(q.canonical));
        },
        (Some(Hit::Relative(j1)), Some(Hit::Relative(j2))) => {
            if j1 != j2 {
                assert(index.suffix_hit(qc, j2 as int));
                assert(index.suffix_hit(qc, j1 as int));
            }
        },
        (Some(Hit::Relative(j)), None) => {
            assert(index.suffix_hit(qc, j as int));
        },
        (None, Some(Hit::Relative(j))) => {
            assert(index.suffix_hit(qc, j as int));
        },
        (None, None) => {},
    }
}

/// With relative LCOV paths only, a lookup does not depend on the query's
/// canonical path: the working directory and the filesystem, which decide
/// the canonical form, play no part.
pub proof fn lemma_relative_lookup_ignores_canonical(
    index: PathIndex,
    keys: Seq<CoverageKey>,
    q1: FileQuery,
    q2: FileQuery,
    r: Option<Hit>,
)
    requires
        index.indexes(keys),
        forall|s: int| 0 <= s < keys.len() ==> !#[trigger] in_absolute_tier(keys[s]),
        q1.file@ == q2.file@,
    ensures
        is_lookup_result(index, q1, r) <==> is_lookup_result(index, q2, r),
{
    if index.by_absolute@.len() > 0 {
        assert(index.has_record(Hit::Absolute(0)));
        let s = choose|s: int| 0 <= s < index.slot@.len() && index.slot@[s] == Some(Hit::Absolute(0));
        assert(index.slot_correct(keys, s));
    }
    assert(!index.exact_hit(q1.canonical));
    assert(!index.exact_hit(q2.canonical));
}

/// Path matching never depends on the working directory or the filesystem
/// when every LCOV path is relative: two runs over the same records, whose
/// queries name the same files in the same order but may carry different
/// canonical paths, build the same index and bind every query to the same
/// entry.
pub proof fn lemma_relative_matching_ignores_canonical(
    keys: Seq<CoverageKey>,
    q1: Seq<FileQuery>,
    q2: Seq<FileQuery>,
    r1: MatchResult,
    r2: MatchResult,
)
    requires
        forall|s: int| 0 <= s < keys.len() ==> !#[trigger] in_absolute_tier(keys[s]),
        q1.len() == q2.len(),
        forall|i: int| 0 <= i < q1.len() ==> (#[trigger] q1[i]).file@ == q2[i].file@,
        r1.index.indexes(keys),
        r2.index.indexes(keys),
        r1.index.absolute_views() == absolute_keys(keys, keys.len() as int),
        r1.index.relative_views() == relative_keys(keys, keys.len() as int),
        r2.index.absolute_views() == absolute_keys(keys, keys.len() as int),
        r2.index.relative_views() == relative_keys(keys, keys.len() as int),
        r1.hits@.len() == q1.len(),
        r2.hits@.len() == q2.len(),
        forall|i: int| 0 <= i < q1.len() ==> is_lookup_result(r1.index, q1[i], #[trigger] r1.hits@[i]),
        forall|i: int| 0 <= i < q2.len() ==> is_lookup_result(r2.index, q2[i], #[trigger] r2.hits@[i]),
    ensures
        r1.index.absolute_views() == r2.index.absolute_views(),
        r1.index.relative_views() == r2.index.relative_views(),
        r1.index.slot@ == r2.index.slot@,
        r1.hits@ == r2.hits@,
{
    PathIndex::lemma_slots_determined(r1.index, r2.index, keys);
    assert forall|i: int| 0 <= i < q1.len() implies r1.hits@[i] == r2.hits@[i] by {
        let h2 = r2.hits@[i];
        assert(is_lookup_result(r2.index, q2[i], h2));
        lemma_lookup_views(r2.index, r1.index, q2[i], h2);
        lemma_relative_lookup_ignores_canonical(r1.index, keys, q1[i], q2[i], h2);
        assert(is_lookup_result(r1.index, q1[i], r1.hits@[i]));
        lemma_lookup_result_unique(r1.index, q1[i], r1.hits@[i], h2);
    }
    assert(r1.hits@ =~= r2.hits@);
}

/// A lookup result depends on an index only through its entries' views.
proof fn lemma_lookup_views(a: PathIndex, b: PathIndex, q: FileQuery, r: Option<Hit>)
    requires
        a.absolute_views() == b.absolute_views(),
        a.relative_views() == b.relative_views(),
        is_lookup_result(a, q, r),
    ensures
        is_lookup_result(b, q, r),
{
    assert(a.absolute_views().len() == a.by_absolute@.len());
    assert(b.absolute_views().len() == b.by_absolute@.len());
    assert(a.relative_views().len() == a.by_relative@.len());
    assert(b.relative_views().len() == b.by_relative@.len());
    assert forall|e: int| 0 <= e < a.by_absolute@.len() implies a.by_absolute@[e]@ == b.by_absolute@[e]@ by {
        assert(a.absolute_views()[e] == b.absolute_views()[e]);
    }
    assert forall|j: int| 0 <= j < a.by_relative@.len() implies strs(a.by_relative@[j]@) == strs(b.by_relative@[j]@) by {
        assert(a.relative_views()[j] == b.relative_views()[j]);
    }
    let qc = path_components(q.file@);
    assert forall|k: int| a.suffix_hit(qc, k) <==> b.suffix_hit(qc, k) by {}
    if a.exact_hit(q.canonical) {
        let e = choose|e: int| 0 <= e < a.by_absolute@.len() && #[trigger] a.by_absolute@[e]@ == opt_view(q.canonical);
        assert(b.by_absolute@[e]@ == opt_view(q.canonical));
    }
    if b.exact_hit(q.canonical) {
        let e = choose|e: int| 0 <= e < b.by_absolute@.len() && #[trigger] b.by_absolute@[e]@ == opt_view(q.canonical);
        assert(a.by_absolute@[e]@ == opt_view(q.canonical));
    }
}


/// `--sort file` orders by file first, then function, then line: in a file
/// order, no later entry's separator-normalized file sorts before an earlier
/// one's; within one file no later function name sorts before an earlier
/// one; within one file and function, lines never decrease.
pub proof fn lemma_file_order_sorts_file_first(keys: Seq<FileOrderKey>, perm: Seq<usize>)
    requires
        file_ordered(keys, perm),
    ensures
        forall|a: int, b: int|
            0 <= a < b < perm.len() ==> !chars_lt(
                forward_slashes(keys[#[trigger] perm[b] as int].file@),
                forward_slashes(keys[#[trigger] perm[a] as int].file@),
            ),
        forall|a: int, b: int|
            0 <= a < b < perm.len() && forward_slashes(keys[#[trigger] perm[a] as int].file@) == forward_slashes(
                keys[#[trigger] perm[b] as int].file@,
            ) ==> !chars_lt(keys[perm[b] as int].function@, keys[perm[a] as int].function@),
        forall|a: int, b: int|
            0 <= a < b < perm.len() && forward_slashes(keys[#[trigger] perm[a] as int].file@) == forward_slashes(
                keys[#[trigger] perm[b] as int].file@,
            ) && keys[perm[a] as int].function@ == keys[perm[b] as int].function@ ==> keys[perm[a] as int].line
                <= keys[perm[b] as int].line,
{
    assert forall|a: int, b: int| 0 <= a < b < perm.len() implies !chars_lt(
        forward_slashes(keys[#[trigger] perm[b] as int].file@),
        forward_slashes(keys[#[trigger] perm[a] as int].file@),
    ) by {
        assert(!key_lt(keys[perm[b] as int], keys[perm[a] as int]));
    }
    assert forall|a: int, b: int|
        0 <= a < b < perm.len() && forward_slashes(keys[#[trigger] perm[a] as int].file@) == forward_slashes(
            keys[#[trigger] perm[b] as int].file@,
        ) implies !chars_lt(keys[perm[b] as int].function@, keys[perm[a] as int].function@) by {
        assert(!key_lt(keys[perm[b] as int], keys[perm[a] as int]));
    }
    assert forall|a: int, b: int|
        0 <= a < b < perm.len() && forward_slashes(keys[#[trigger] perm[a] as int].file@) == forward_slashes(
            keys[#[trigger] perm[b] as int].file@,
        ) && keys[perm[a] as int].function@ == keys[perm[b] as int].function@ implies keys[perm[a] as int].line
        <= keys[perm[b] as int].line by {
        assert(!key_lt(keys[perm[b] as int], keys[perm[a] as int]));
    }
}

} // verus!
