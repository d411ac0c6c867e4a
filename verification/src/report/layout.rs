//! Location-cell layout for PR comments: the path prefix that is stripped
//! from every rendered location, computed on path components, never on
//! bytes, so `/a/foo` and `/a/foobar` share `/a` and not `/a/foo`.

use vstd::prelude::*;

use crate::paths::{
    collect_path, components, has_prefix_components, is_prefix_of, join_path, lemma_components_nonempty, lemma_components_valid,
    lemma_join_components, lemma_skip_valid, lemma_take_valid, path_components, strs,
};
use crate::text::chars_of;
use crate::text::string_of;

verus! {

/// Counting on from `i`, the index of the first position where `a` and `b`
/// differ or one of them ends.
pub open spec fn matched_from(a: Seq<Seq<char>>, b: Seq<Seq<char>>, i: int) -> int
    decreases a.len() - i,
{
    if 0 <= i && i < a.len() && i < b.len() && a[i] == b[i] {
        matched_from(a, b, i + 1)
    } else {
        i
    }
}

/// How many leading components `a` and `b` share.
pub open spec fn shared_len(a: Seq<Seq<char>>, b: Seq<Seq<char>>) -> int {
    matched_from(a, b, 0)
}

/// The components of each path in `v`.
pub open spec fn all_components(v: Seq<String>) -> Seq<Seq<Seq<char>>> {
    v.map_values(|p: String| path_components(p@))
}

/// The number of leading components of `first` that every path of `others`
/// shares with it.
pub open spec fn common_len(first: Seq<Seq<char>>, others: Seq<Seq<Seq<char>>>) -> int
    decreases others.len(),
{
    if others.len() == 0 {
        first.len() as int
    } else {
        let k = common_len(first, others.drop_last());
        let m = shared_len(first, others.last());
        if m < k { m } else { k }
    }
}

/// The longest common component prefix of `paths`: empty for fewer than two
/// paths.
pub open spec fn common_prefix(paths: Seq<String>) -> Seq<Seq<char>> {
    if paths.len() < 2 {
        seq![]
    } else {
        let cs = all_components(paths);
        cs[0].take(common_len(cs[0], cs.drop_first()))
    }
}

proof fn lemma_matched_from(a: Seq<Seq<char>>, b: Seq<Seq<char>>, i: int)
    requires
        0 <= i <= a.len(),
        i <= b.len(),
    ensures
        i <= matched_from(a, b, i) <= a.len(),
        matched_from(a, b, i) <= b.len(),
        forall|j: int| i <= j < matched_from(a, b, i) ==> a[j] == b[j],
        matched_from(a, b, i) == a.len() || matched_from(a, b, i) == b.len()
            || a[matched_from(a, b, i)] != b[matched_from(a, b, i)],
    decreases a.len() - i,
{
    if i < a.len() && i < b.len() && a[i] == b[i] {
        lemma_matched_from(a, b, i + 1);
    }
}

/// `shared_len` is exactly the length of the longest common prefix of two
/// component sequences.
pub proof fn lemma_shared_len(a: Seq<Seq<char>>, b: Seq<Seq<char>>)
    ensures
        0 <= shared_len(a, b) <= a.len(),
        shared_len(a, b) <= b.len(),
        a.take(shared_len(a, b)) == b.take(shared_len(a, b)),
        forall|k: int| shared_len(a, b) < k <= a.len() && k <= b.len() ==> a.take(k) != b.take(k),
{
    lemma_matched_from(a, b, 0);
    let m = shared_len(a, b);
    assert(a.take(m) =~= b.take(m));
    assert forall|k: int| m < k <= a.len() && k <= b.len() implies a.take(k) != b.take(k) by {
        assert(a.take(k)[m] == a[m]);
        assert(b.take(k)[m] == b[m]);
    }
}

proof fn lemma_common_len(first: Seq<Seq<char>>, others: Seq<Seq<Seq<char>>>)
    ensures
        0 <= common_len(first, others) <= first.len(),
        forall|i: int| 0 <= i < others.len() ==> common_len(first, others) <= shared_len(first, #[trigger] others[i]),
        others.len() == 0 ==> common_len(first, others) == first.len(),
        others.len() > 0 ==> exists|i: int| 0 <= i < others.len() && common_len(first, others) == shared_len(first, #[trigger] others[i]),
    decreases others.len(),
{
    if others.len() > 0 {
        let rest = others.drop_last();
        lemma_common_len(first, rest);
        lemma_shared_len(first, others.last());
        assert forall|i: int| 0 <= i < others.len() implies common_len(first, others) <= shared_len(first, #[trigger] others[i]) by {
            if i < others.len() - 1 {
                assert(others[i] == rest[i]);
            }
        }
        let k = common_len(first, rest);
        let m = shared_len(first, others.last());
        if m < k {
            assert(common_len(first, others) == shared_len(first, others[others.len() - 1]));
        } else if rest.len() > 0 {
            let i = choose|i: int| 0 <= i < rest.len() && k == shared_len(first, #[trigger] rest[i]);
            assert(others[i] == rest[i]);
            assert(common_len(first, others) == shared_len(first, others[i]));
        } else {
            lemma_shared_len(first, others[0]);
            assert(common_len(first, others) == shared_len(first, others[0]));
        }
    }
}

/// What [`longest_common_path_prefix`] computes is the longest common
/// component prefix: with two or more paths, it is a component prefix of
/// every path, and no longer prefix of the first path's components is.
pub proof fn lemma_common_prefix_is_longest(paths: Seq<String>)
    requires
        paths.len() >= 2,
    ensures
        forall|i: int| 0 <= i < paths.len() ==> is_prefix_of(common_prefix(paths), #[trigger] path_components(paths[i]@)),
        forall|k: int|
            #![trigger path_components(paths[0]@).take(k)]
            common_prefix(paths).len() < k <= path_components(paths[0]@).len() ==> exists|i: int|
                0 <= i < paths.len() && !is_prefix_of(
                    path_components(paths[0]@).take(k),
                    #[trigger] path_components(paths[i]@),
                ),
{
    let cs = all_components(paths);
    let first = cs[0];
    let others = cs.drop_first();
    lemma_common_len(first, others);
    let n = common_len(first, others);
    assert(common_prefix(paths) == first.take(n));
    assert forall|i: int| 0 <= i < paths.len() implies is_prefix_of(common_prefix(paths), #[trigger] path_components(paths[i]@)) by {
        assert(cs[i] == path_components(paths[i]@));
        if i > 0 {
            assert(others[i - 1] == cs[i]);
            lemma_shared_len(first, cs[i]);
            let m = shared_len(first, cs[i]);
            assert(n <= m);
            assert(cs[i].take(n) =~= cs[i].take(m).take(n));
            assert(first.take(n) =~= first.take(m).take(n));
        } else {
            assert(first.take(n) =~= first.take(n));
        }
    }
    assert forall|k: int| #![trigger path_components(paths[0]@).take(k)] common_prefix(paths).len() < k <= path_components(paths[0]@).len() implies exists|i: int|
        0 <= i < paths.len() && !is_prefix_of(path_components(paths[0]@).take(k), #[trigger] path_components(paths[i]@)) by {
        assert(cs[0] == path_components(paths[0]@));
        let j = choose|j: int| 0 <= j < others.len() && n == shared_len(first, #[trigger] others[j]);
        lemma_shared_len(first, others[j]);
        assert(cs[j + 1] == others[j]);
        assert(path_components(paths[j + 1]@) == others[j]);
        if is_prefix_of(first.take(k), others[j]) {
            assert(others[j].take(k) == first.take(k));
        }
        assert(!is_prefix_of(path_components(paths[0]@).take(k), path_components(paths[j + 1]@)));
    }
}

/// The common prefix, written out as a path and split again, gives back
/// exactly the common components: the prefix is a whole-component prefix,
/// never a byte prefix.
pub proof fn lemma_common_prefix_round_trip(paths: Seq<String>)
    ensures
        path_components(join_path(common_prefix(paths))) == common_prefix(paths),
{
    if paths.len() >= 2 {
        let cs = all_components(paths);
        lemma_common_len(cs[0], cs.drop_first());
        assert(cs[0] == path_components(paths[0]@));
        lemma_components_valid(paths[0]@);
        lemma_take_valid(cs[0], common_len(cs[0], cs.drop_first()));
    } else {
        assert(crate::paths::valid_components(Seq::<Seq<char>>::empty()));
    }
    lemma_join_components(common_prefix(paths));
}

/// How many leading entries `a` and `b` share, compared by their text.
fn shared_count(a: &Vec<String>, b: &Vec<String>) -> (r: usize)
    ensures
        r == shared_len(strs(a@), strs(b@)),
{
    let mut i: usize = 0;
    while i < a.len() && i < b.len() && a[i] == b[i]
        invariant
            i <= a.len(),
            i <= b.len(),
            matched_from(strs(a@), strs(b@), i as int) == shared_len(strs(a@), strs(b@)),
        decreases a.len() - i,
    {
        assert(strs(a@)[i as int] == strs(b@)[i as int]);
        i = i + 1;
    }
    proof {
        if i < a.len() && i < b.len() {
            assert(strs(a@)[i as int] != strs(b@)[i as int]);
        }
    }
    i
}

/// Compute the longest common path-component prefix across `paths`.
///
/// Returns an empty path when fewer than two paths are supplied or when the
/// paths share no prefix.
pub fn longest_common_path_prefix(paths: &Vec<String>) -> (r: String)
    ensures
        r@ == join_path(common_prefix(paths@)),
{
    if paths.len() < 2 {
        return String::new();
    }
    let ghost cs = all_components(paths@);
    let first = components(paths[0].as_str());
    assert(strs(first@) == cs[0]);
    let mut n: usize = first.len();
    let mut i: usize = 1;
    assert(cs.drop_first().take(0) =~= Seq::<Seq<Seq<char>>>::empty());
    while i < paths.len()
        invariant
            1 <= i <= paths.len(),
            strs(first@) == cs[0],
            cs == all_components(paths@),
            n == common_len(cs[0], cs.drop_first().take(i - 1)),
        decreases paths.len() - i,
    {
        let other = components(paths[i].as_str());
        let m = shared_count(&first, &other);
        assert(cs.drop_first().take(i as int).drop_last() =~= cs.drop_first().take(i - 1));
        assert(cs.drop_first().take(i as int).last() == cs[i as int]);
        assert(strs(other@) == cs[i as int]);
        if m < n {
            n = m;
        }
        i = i + 1;
    }
    assert(cs.drop_first().take(paths.len() - 1) =~= cs.drop_first());
    proof {
        lemma_common_len(cs[0], cs.drop_first());
    }
    let mut kept: Vec<String> = Vec::new();
    let mut j: usize = 0;
    while j < n
        invariant
            j <= n,
            n <= first.len(),
            strs(kept@) == strs(first@).take(j as int),
        decreases n - j,
    {
        let piece = first[j].clone();
        let ghost before = kept@;
        kept.push(piece);
        assert(strs(kept@) =~= strs(before).push(first@[j as int]@));
        assert(strs(kept@) =~= strs(first@).take(j + 1));
        j = j + 1;
    }
    collect_path(&kept)
}

/// The prefix stripped from PR-comment Location cells, given the current
/// directory `cwd` (empty when it could not be determined): the longest
/// common component prefix when there is one; otherwise `cwd` itself when
/// it is non-empty and every path lies under it; otherwise nothing.
pub open spec fn render_prefix(paths: Seq<String>, cwd: Seq<char>) -> Seq<char> {
    let lcp = join_path(common_prefix(paths));
    if lcp.len() > 0 {
        lcp
    } else if cwd.len() > 0 && paths.len() > 0 && (forall|i: int|
        0 <= i < paths.len() ==> is_prefix_of(path_components(cwd), #[trigger] path_components(paths[i]@))) {
        cwd
    } else {
        seq![]
    }
}

/// Pick the path prefix to strip from PR-comment Location cells (see
/// [`render_prefix`]). This is what turns
/// `/home/runner/work/repo/repo/src/lib.rs` into `src/lib.rs` on a CI run
/// with a single new function.
pub fn compute_render_prefix(paths: &Vec<String>, cwd: &str) -> (r: String)
    ensures
        r@ == render_prefix(paths@, cwd@),
{
    let lcp = longest_common_path_prefix(paths);
    if lcp.unicode_len() > 0 {
        return lcp;
    }
    let cwd_chars = chars_of(cwd);
    if cwd_chars.len() == 0 || paths.len() == 0 {
        return String::new();
    }
    let base = components(cwd);
    let mut i: usize = 0;
    while i < paths.len()
        invariant
            i <= paths.len(),
            join_path(common_prefix(paths@)).len() == 0,
            cwd@.len() > 0,
            paths.len() > 0,
            strs(base@) == path_components(cwd@),
            forall|k: int| 0 <= k < i ==> is_prefix_of(path_components(cwd@), #[trigger] path_components(paths@[k]@)),
        decreases paths.len() - i,
    {
        let pc = components(paths[i].as_str());
        if !has_prefix_components(&pc, &base) {
            assert(!is_prefix_of(path_components(cwd@), path_components(paths@[i as int]@)));
            return String::new();
        }
        i = i + 1;
    }
    string_of(&cwd_chars)
}

/// The text a Location cell shows for `path` once `prefix` is stripped.
pub open spec fn stripped_display(path: Seq<char>, prefix: Seq<char>) -> Seq<char> {
    if prefix.len() == 0 {
        path
    } else if is_prefix_of(path_components(prefix), path_components(path)) {
        join_path(path_components(path).skip(path_components(prefix).len() as int))
    } else {
        path
    }
}

/// Stripping a prefix that `path` lies under leaves a path whose components
/// are exactly the components of `path` past those of the prefix.
pub proof fn lemma_stripped_components(path: Seq<char>, prefix: Seq<char>)
    requires
        prefix.len() > 0,
        is_prefix_of(path_components(prefix), path_components(path)),
    ensures
        path_components(stripped_display(path, prefix)) == path_components(path).skip(
            path_components(prefix).len() as int,
        ),
{
    let cs = path_components(path);
    lemma_components_nonempty(prefix);
    lemma_components_valid(path);
    lemma_skip_valid(cs, path_components(prefix).len() as int);
    lemma_join_components(cs.skip(path_components(prefix).len() as int));
}

/// Strip `prefix` from `path` (component-wise) for display; the full path
/// when the prefix is empty or `path` does not lie under it.
pub fn strip_to_display(path: &str, prefix: &str) -> (r: String)
    ensures
        r@ == stripped_display(path@, prefix@),
{
    let pcs = chars_of(prefix);
    let whole = chars_of(path);
    if pcs.len() == 0 {
        return string_of(&whole);
    }
    let pc = components(path);
    let bc = components(prefix);
    if !has_prefix_components(&pc, &bc) {
        return string_of(&whole);
    }
    let mut rest: Vec<String> = Vec::new();
    let mut i: usize = bc.len();
    assert(strs(pc@).subrange(bc.len() as int, bc.len() as int) =~= Seq::<Seq<char>>::empty());
    while i < pc.len()
        invariant
            bc.len() <= i <= pc.len(),
            strs(rest@) == strs(pc@).subrange(bc.len() as int, i as int),
        decreases pc.len() - i,
    {
        let piece = pc[i].clone();
        let ghost before = rest@;
        rest.push(piece);
        assert(strs(rest@) =~= strs(before).push(pc@[i as int]@));
        assert(strs(rest@) =~= strs(pc@).subrange(bc.len() as int, i + 1));
        i = i + 1;
    }
    assert(strs(pc@).subrange(bc.len() as int, pc.len() as int) =~= strs(pc@).skip(bc.len() as int));
    collect_path(&rest)
}

} // verus!
