//! Workspace-member selection and baseline scoping for `-p/--package` runs,
//! and the small argument rules the command line applies before analysis.

use vstd::prelude::*;

use crate::paths::{
    chars_less, chars_lt, lemma_chars_lt_eq_or, lemma_chars_lt_trans, components, has_prefix_components, is_prefix_of, join_path, path_components, split_pieces,
    strs, collect_path, lemma_components_valid, lemma_join_components, lemma_take_valid,
};
use crate::text::{
    chars_of, forward_slashes, join_with, push_char, push_joined, push_str, replace_backslashes,
    same_text, contains_char, contains_double, has_char, has_double,
};

verus! {

/// One Cargo workspace member: package name and the directory holding its
/// `Cargo.toml`.
#[derive(Debug, Clone)]
pub struct WorkspaceMember {
    pub name: String,
    pub dir: String,
}

impl WorkspaceMember {
    /// A field-for-field copy.
    pub fn copied(&self) -> (r: WorkspaceMember)
        ensures
            r == *self,
    {
        WorkspaceMember { name: self.name.clone(), dir: self.dir.clone() }
    }
}

/// The non-empty pieces of `s` between `/` separators, in order.
pub open spec fn nonempty_pieces(ps: Seq<Seq<char>>) -> Seq<Seq<char>>
    decreases ps.len(),
{
    if ps.len() == 0 {
        seq![]
    } else {
        let r = nonempty_pieces(ps.drop_last());
        if ps.last().len() > 0 {
            r.push(ps.last())
        } else {
            r
        }
    }
}

/// `s` split on `/` with empty pieces dropped.
pub open spec fn split_nonempty(s: Seq<char>) -> Seq<Seq<char>> {
    nonempty_pieces(split_pieces(s))
}

/// Split `s` on `/`, dropping empty pieces.
pub fn split_slashes(s: &str) -> (r: Vec<String>)
    ensures
        strs(r@) == split_nonempty(s@),
{
    let cs = chars_of(s);
    let mut done: Vec<String> = Vec::new();
    let mut cur = String::new();
    let mut i: usize = 0;
    proof {
        assert(cs@.take(0) =~= Seq::<char>::empty());
        assert(split_pieces(cs@.take(0)) =~= seq![Seq::<char>::empty()]);
        assert(strs(done@) =~= nonempty_pieces(split_pieces(cs@.take(0)).drop_last()));
    }
    while i < cs.len()
        invariant
            cs@ == s@,
            i <= cs.len(),
            split_pieces(cs@.take(i as int)).len() >= 1,
            strs(done@) == nonempty_pieces(split_pieces(cs@.take(i as int)).drop_last()),
            cur@ == split_pieces(cs@.take(i as int)).last(),
        decreases cs.len() - i,
    {
        let c = cs[i];
        let ghost prev = cs@.take(i as int);
        let ghost pp = split_pieces(prev);
        assert(cs@.take(i + 1).drop_last() =~= prev);
        assert(cs@.take(i + 1).last() == c);
        if c == '/' {
            let ghost finished = cur@;
            if cur.unicode_len() > 0 {
                let piece = cur;
                done.push(piece);
            }
            cur = String::new();
            proof {
                assert(split_pieces(cs@.take(i + 1)) == pp.push(Seq::<char>::empty()));
                assert(split_pieces(cs@.take(i + 1)).drop_last() =~= pp);
                assert(pp =~= pp.drop_last().push(finished));
                assert(strs(done@) =~= nonempty_pieces(pp));
            }
        } else {
            push_char(&mut cur, c);
            proof {
                let np = pp.update(pp.len() - 1, pp.last().push(c));
                assert(split_pieces(cs@.take(i + 1)) == np);
                assert(np.drop_last() =~= pp.drop_last());
            }
        }
        i = i + 1;
    }
    assert(cs@.take(cs.len() as int) =~= s@);
    let ghost pp = split_pieces(s@);
    let ghost last = cur@;
    if cur.unicode_len() > 0 {
        done.push(cur);
    }
    proof {
        assert(pp =~= pp.drop_last().push(last));
        assert(strs(done@) =~= nonempty_pieces(pp));
    }
    done
}

/// `window` appears as a contiguous run of `hay`, starting at `i`.
pub open spec fn window_at(hay: Seq<Seq<char>>, window: Seq<Seq<char>>, i: int) -> bool {
    0 <= i && i + window.len() <= hay.len() && hay.subrange(i, i + window.len()) == window
}

/// `window` is non-empty and appears as a contiguous run of `hay`.
pub open spec fn contains_window(hay: Seq<Seq<char>>, window: Seq<Seq<char>>) -> bool {
    window.len() > 0 && exists|i: int| #[trigger] window_at(hay, window, i)
}

/// True when `window` appears as a contiguous run inside `haystack`. An
/// empty window never matches — the root package's empty relative
/// directory must not claim paths recorded under another checkout root.
pub fn components_contain(haystack: &Vec<String>, window: &Vec<String>) -> (r: bool)
    ensures
        r == contains_window(strs(haystack@), strs(window@)),
{
    if window.len() == 0 {
        return false;
    }
    if window.len() > haystack.len() {
        proof {
            assert forall|i: int| !#[trigger] window_at(strs(haystack@), strs(window@), i) by {}
        }
        return false;
    }
    let mut i: usize = 0;
    while i <= haystack.len() - window.len()
        invariant
            window.len() > 0,
            window.len() <= haystack.len(),
            i <= haystack.len(),
            forall|k: int| 0 <= k < i ==> !#[trigger] window_at(strs(haystack@), strs(window@), k),
        decreases haystack.len() - i,
    {
        let mut j: usize = 0;
        let mut same = true;
        while j < window.len() && same
            invariant
                i + window.len() <= haystack.len(),
                j <= window.len(),
                same ==> forall|m: int| 0 <= m < j ==> haystack@[i + m]@ == window@[m]@,
                !same ==> exists|m: int| 0 <= m < window.len() && haystack@[i + m]@ != window@[m]@,
            decreases window.len() - j,
        {
            if haystack[i + j] != window[j] {
                same = false;
            }
            j = j + 1;
        }
        if same {
            assert(strs(haystack@).subrange(i as int, i + window.len()) =~= strs(window@));
            assert(window_at(strs(haystack@), strs(window@), i as int));
            return true;
        }
        proof {
            let m = choose|m: int| 0 <= m < window.len() && haystack@[i + m]@ != window@[m]@;
            assert(strs(haystack@).subrange(i as int, i + window.len())[m] != strs(window@)[m]);
        }
        i = i + 1;
    }
    proof {
        assert forall|k: int| !#[trigger] window_at(strs(haystack@), strs(window@), k) by {
            if 0 <= k < i {
            }
        }
    }
    false
}

/// One discovered member as seen by [`MemberScope`]: its directory with
/// forward slashes (for prefix tests against same-root baseline paths), its
/// workspace-relative directory components (for window tests against
/// cross-root baseline paths), and whether it was selected.
#[derive(Debug)]
pub struct ScopedMember {
    pub dir: String,
    pub rel: Vec<String>,
    pub selected: bool,
}

/// Baseline scope for `-p/--package` runs: attributes each baseline entry to
/// the discovered member that owns it, so entries owned by unselected
/// members vanish before the delta.
///
/// Attribution is two-tier:
/// 1. **Prefix** (same-root baselines): the deepest member dir that is a
///    component prefix of the entry path wins.
/// 2. **Component window** (cross-root baselines): the member whose
///    workspace-relative dir appears as the longest contiguous component
///    run in the path wins. Ties that include a selected member keep the
///    entry, and the root package (empty relative dir) never claims
///    cross-root paths — when in doubt, keep the entry.
#[derive(Debug)]
pub struct MemberScope {
    pub members: Vec<ScopedMember>,
}

/// The workspace-relative components of `dir` under `root`: the remainder
/// of `dir` after `root`'s components, with backslashes read as separators
/// and empty pieces dropped; nothing when `dir` is not under `root`.
pub open spec fn relative_dir(root: Seq<char>, dir: Seq<char>) -> Seq<Seq<char>> {
    let rc = path_components(root);
    let dc = path_components(dir);
    if is_prefix_of(rc, dc) {
        split_nonempty(forward_slashes(join_path(dc.skip(rc.len() as int))))
    } else {
        seq![]
    }
}

/// Some member in `ms` has the name `name`.
pub open spec fn has_member_named(ms: Seq<WorkspaceMember>, name: Seq<char>) -> bool {
    exists|k: int| 0 <= k < ms.len() && (#[trigger] ms[k]).name@ == name
}

/// The scoped view of member `m`.
pub open spec fn scoped_from(root: Seq<char>, m: WorkspaceMember, selected: Seq<WorkspaceMember>, sm: ScopedMember) -> bool {
    &&& sm.dir@ == forward_slashes(m.dir@)
    &&& strs(sm.rel@) == relative_dir(root, m.dir@)
    &&& sm.selected == has_member_named(selected, m.name@)
}

/// Member `m`'s directory is a component prefix of the path `f`.
pub open spec fn owns_by_prefix(m: ScopedMember, f: Seq<char>) -> bool {
    is_prefix_of(path_components(m.dir@), path_components(f))
}

/// The depth of a member's directory, in components.
pub open spec fn dir_depth(m: ScopedMember) -> nat {
    path_components(m.dir@).len()
}

/// `o` is the prefix-tier owner of `f`: the deepest member whose directory
/// prefixes `f`, the last one listed among equally deep ones.
pub open spec fn prefix_owner(ms: Seq<ScopedMember>, f: Seq<char>, o: int) -> bool {
    &&& 0 <= o < ms.len()
    &&& owns_by_prefix(ms[o], f)
    &&& forall|k: int|
        0 <= k < ms.len() && #[trigger] owns_by_prefix(ms[k], f) ==> dir_depth(ms[k]) <= dir_depth(
            ms[o],
        ) && (k > o ==> dir_depth(ms[k]) < dir_depth(ms[o]))
}

/// Member `m`'s relative directory appears as a window of `comps`.
pub open spec fn window_hit(m: ScopedMember, comps: Seq<Seq<char>>) -> bool {
    contains_window(comps, strs(m.rel@))
}

/// `b` is the longest relative-directory window matched in `comps`.
pub open spec fn best_window(ms: Seq<ScopedMember>, comps: Seq<Seq<char>>, b: nat) -> bool {
    &&& exists|k: int| 0 <= k < ms.len() && #[trigger] window_hit(ms[k], comps) && ms[k].rel@.len() == b
    &&& forall|k: int| 0 <= k < ms.len() && #[trigger] window_hit(ms[k], comps) ==> ms[k].rel@.len() <= b
}

/// Whether the baseline path `file` is owned by an unselected member.
pub open spec fn out_of_scope(ms: Seq<ScopedMember>, file: Seq<char>) -> bool {
    let f = forward_slashes(file);
    if exists|k: int| 0 <= k < ms.len() && #[trigger] owns_by_prefix(ms[k], f) {
        !ms[choose|o: int| prefix_owner(ms, f, o)].selected
    } else {
        let comps = split_nonempty(f);
        if exists|k: int| 0 <= k < ms.len() && #[trigger] window_hit(ms[k], comps) {
            let b = choose|b: nat| best_window(ms, comps, b);
            !exists|k: int|
                0 <= k < ms.len() && #[trigger] window_hit(ms[k], comps) && ms[k].rel@.len() == b
                    && ms[k].selected
        } else {
            false
        }
    }
}

/// The prefix-tier owner is unique.
pub proof fn lemma_prefix_owner_unique(ms: Seq<ScopedMember>, f: Seq<char>, a: int, b: int)
    requires
        prefix_owner(ms, f, a),
        prefix_owner(ms, f, b),
    ensures
        a == b,
{
    assert(owns_by_prefix(ms[a], f));
    assert(owns_by_prefix(ms[b], f));
}

impl MemberScope {
    /// Scope over `discovered`, marking the members of `selected` (matched by
    /// name) as selected.
    pub fn new(
        workspace_root: &str,
        discovered: &Vec<WorkspaceMember>,
        selected: &Vec<WorkspaceMember>,
    ) -> (r: MemberScope)
        ensures
            r.members@.len() == discovered@.len(),
            forall|i: int|
                0 <= i < discovered@.len() ==> scoped_from(
                    workspace_root@,
                    #[trigger] discovered@[i],
                    selected@,
                    r.members@[i],
                ),
    {
        let root = components(workspace_root);
        let mut members: Vec<ScopedMember> = Vec::new();
        let mut i: usize = 0;
        while i < discovered.len()
            invariant
                i <= discovered@.len(),
                strs(root@) == path_components(workspace_root@),
                members@.len() == i,
                forall|k: int|
                    0 <= k < i ==> scoped_from(
                        workspace_root@,
                        #[trigger] discovered@[k],
                        selected@,
                        members@[k],
                    ),
            decreases discovered.len() - i,
        {
            let m = &discovered[i];
            let dir = replace_backslashes(m.dir.as_str());
            let dc = components(m.dir.as_str());
            let rel = if has_prefix_components(&dc, &root) {
                let mut rest: Vec<String> = Vec::new();
                let mut j: usize = root.len();
                while j < dc.len()
                    invariant
                        root@.len() <= j <= dc@.len(),
                        strs(rest@) == strs(dc@).subrange(root@.len() as int, j as int),
                    decreases dc.len() - j,
                {
                    let ghost before = rest@;
                    let piece = dc[j].clone();
                    assert(piece@ == dc@[j as int]@);
                    rest.push(piece);
                    assert(rest@ == before.push(piece));
                    assert(strs(rest@) =~= strs(before).push(piece@));
                    assert(strs(rest@) =~= strs(dc@).subrange(root@.len() as int, j + 1));
                    j = j + 1;
                }
                assert(strs(dc@).subrange(root@.len() as int, dc@.len() as int) =~= strs(dc@).skip(root@.len() as int));
                let joined = collect_path(&rest);
                let fwd = replace_backslashes(joined.as_str());
                let pieces = split_slashes(fwd.as_str());
                assert(strs(pieces@) == relative_dir(workspace_root@, m.dir@));
                pieces
            } else {
                let empty: Vec<String> = Vec::new();
                assert(strs(empty@) =~= relative_dir(workspace_root@, m.dir@));
                empty
            };
            let mut picked = false;
            let mut k: usize = 0;
            while k < selected.len() && !picked
                invariant
                    k <= selected@.len(),
                    picked ==> has_member_named(selected@, m.name@),
                    !picked ==> forall|t: int| 0 <= t < k ==> selected@[t].name@ != m.name@,
                decreases selected.len() - k,
            {
                if selected[k].name == m.name {
                    picked = true;
                }
                k = k + 1;
            }
            proof {
                if !picked {
                    assert forall|t: int| 0 <= t < selected@.len() implies (#[trigger] selected@[t]).name@ != m.name@ by {}
                    assert(!has_member_named(selected@, m.name@));
                }
            }
            let sm = ScopedMember { dir, rel, selected: picked };
            assert(scoped_from(workspace_root@, discovered@[i as int], selected@, sm));
            members.push(sm);
            i = i + 1;
        }
        MemberScope { members }
    }

    /// True when `file` is owned by an unselected member — the baseline
    /// entry must be dropped before the delta.
    pub fn is_out_of_scope(&self, file: &str) -> (r: bool)
        ensures
            r == out_of_scope(self.members@, file@),
    {
        let ghost ms = self.members@;
        let normalized = replace_backslashes(file);
        let ghost f = normalized@;
        let fc = components(normalized.as_str());
        let mut owner: Option<usize> = None;
        let mut owner_depth: usize = 0;
        let mut i: usize = 0;
        while i < self.members.len()
            invariant
                ms == self.members@,
                i <= ms.len(),
                strs(fc@) == path_components(f),
                match owner {
                    Some(o) => {
                        &&& o < i
                        &&& owns_by_prefix(ms[o as int], f)
                        &&& owner_depth == dir_depth(ms[o as int])
                        &&& forall|k: int| 0 <= k < i && #[trigger] owns_by_prefix(ms[k], f) ==> dir_depth(ms[k]) <= owner_depth && (k > o ==> dir_depth(ms[k]) < owner_depth)
                    },
                    None => forall|k: int| 0 <= k < i ==> !#[trigger] owns_by_prefix(ms[k], f),
                },
            decreases ms.len() - i,
        {
            let dc = components(self.members[i].dir.as_str());
            if has_prefix_components(&fc, &dc) {
                match owner {
                    Some(o) => {
                        if dc.len() >= owner_depth {
                            owner = Some(i);
                            owner_depth = dc.len();
                        }
                    },
                    None => {
                        owner = Some(i);
                        owner_depth = dc.len();
                    },
                }
            }
            i = i + 1;
        }
        if let Some(o) = owner {
            proof {
                assert(prefix_owner(ms, f, o as int));
                let c = choose|c: int| prefix_owner(ms, f, c);
                lemma_prefix_owner_unique(ms, f, c, o as int);
            }
            return !self.members[o].selected;
        }
        let comps = split_slashes(normalized.as_str());
        let mut best: Option<usize> = None;
        let mut j: usize = 0;
        while j < self.members.len()
            invariant
                ms == self.members@,
                j <= ms.len(),
                strs(comps@) == split_nonempty(f),
                forall|k: int| 0 <= k < ms.len() ==> !#[trigger] owns_by_prefix(ms[k], f),
                match best {
                    Some(b) => {
                        &&& exists|k: int| 0 <= k < j && #[trigger] window_hit(ms[k], split_nonempty(f)) && ms[k].rel@.len() == b
                        &&& forall|k: int| 0 <= k < j && #[trigger] window_hit(ms[k], split_nonempty(f)) ==> ms[k].rel@.len() <= b
                    },
                    None => forall|k: int| 0 <= k < j ==> !#[trigger] window_hit(ms[k], split_nonempty(f)),
                },
            decreases ms.len() - j,
        {
            let m = &self.members[j];
            let hit = components_contain(&comps, &m.rel);
            assert(hit == window_hit(ms[j as int], split_nonempty(f)));
            if hit {
                let len = m.rel.len();
                match best {
                    Some(b) => {
                        if len > b {
                            best = Some(len);
                        }
                    },
                    None => {
                        best = Some(len);
                    },
                }
            }
            j = j + 1;
        }
        match best {
            None => false,
            Some(b) => {
                proof {
                    assert(best_window(ms, split_nonempty(f), b as nat));
                    let c = choose|c: nat| best_window(ms, split_nonempty(f), c);
                    let w1 = choose|k: int| 0 <= k < ms.len() && #[trigger] window_hit(ms[k], split_nonempty(f)) && ms[k].rel@.len() == c;
                    let w2 = choose|k: int| 0 <= k < ms.len() && #[trigger] window_hit(ms[k], split_nonempty(f)) && ms[k].rel@.len() == b;
                    assert(ms[w1].rel@.len() <= b);
                    assert(ms[w2].rel@.len() <= c);
                }
                let mut keep = false;
                let mut k: usize = 0;
                while k < self.members.len()
                    invariant
                        ms == self.members@,
                        k <= ms.len(),
                        strs(comps@) == split_nonempty(f),
                        keep == exists|t: int| 0 <= t < k && #[trigger] window_hit(ms[t], split_nonempty(f)) && ms[t].rel@.len() == b && ms[t].selected,
                    decreases ms.len() - k,
                {
                    let m = &self.members[k];
                    let hit = components_contain(&comps, &m.rel);
                    assert(hit == window_hit(ms[k as int], split_nonempty(f)));
                    if m.selected && m.rel.len() == b && hit {
                        keep = true;
                    }
                    k = k + 1;
                }
                !keep
            },
        }
    }
}

broadcast use vstd::seq_lib::group_to_multiset_ensures;

/// `s` is in non-descending text order.
pub open spec fn text_sorted(s: Seq<String>) -> bool {
    forall|i: int, j: int| 0 <= i < j < s.len() ==> !chars_lt(#[trigger] s[j]@, #[trigger] s[i]@)
}

/// `s` is in strictly ascending text order (so no text occurs twice).
pub open spec fn text_strictly_sorted(s: Seq<String>) -> bool {
    forall|i: int, j: int| 0 <= i < j < s.len() ==> chars_lt(#[trigger] s[i]@, #[trigger] s[j]@)
}

/// Sort strings into text (code-point) order.
pub fn sort_texts(v: &Vec<String>) -> (out: Vec<String>)
    ensures
        out@.to_multiset() == v@.to_multiset(),
        text_sorted(out@),
{
    let mut out: Vec<String> = Vec::new();
    let mut i: usize = 0;
    assert(v@.take(0) =~= Seq::<String>::empty());
    while i < v.len()
        invariant
            i <= v.len(),
            out@.to_multiset() == v@.take(i as int).to_multiset(),
            text_sorted(out@),
        decreases v.len() - i,
    {
        let x = v[i].clone();
        let cx = chars_of(x.as_str());
        let mut p: usize = 0;
        while p < out.len() && !chars_less(&cx, &chars_of(out[p].as_str()))
            invariant
                p <= out@.len(),
                cx@ == x@,
                forall|k: int| 0 <= k < p ==> !chars_lt(x@, #[trigger] out@[k]@),
            decreases out@.len() - p,
        {
            p = p + 1;
        }
        let ghost old_out = out@;
        proof {
            assert forall|a: int, b: int| 0 <= a < b < old_out.len() + 1 implies !chars_lt(
                #[trigger] old_out.insert(p as int, x)[b]@,
                #[trigger] old_out.insert(p as int, x)[a]@,
            ) by {
                if a == p && b > p {
                    let y = old_out[b - 1];
                    if chars_lt(y@, x@) {
                        lemma_chars_lt_trans(y@, x@, old_out[p as int]@);
                        lemma_chars_lt_eq_or(y@, y@);
                        if b - 1 > p {
                            assert(!chars_lt(old_out[b - 1]@, old_out[p as int]@));
                        }
                    }
                } else if a < p && b > p {
                    assert(!chars_lt(old_out[b - 1]@, old_out[a]@));
                } else if a < p && b < p {
                    assert(!chars_lt(old_out[b]@, old_out[a]@));
                } else if a > p {
                    assert(!chars_lt(old_out[b - 1]@, old_out[a - 1]@));
                }
            }
        }
        out.insert(p, x);
        assert(v@.take(i + 1) =~= v@.take(i as int).push(v@[i as int]));
        i = i + 1;
    }
    assert(v@.take(v.len() as int) =~= v@);
    out
}

/// Drop repeated texts from a text-sorted list, keeping one of each.
pub fn dedup_sorted(v: &Vec<String>) -> (out: Vec<String>)
    requires
        text_sorted(v@),
    ensures
        text_strictly_sorted(out@),
        strs(out@).to_set() == strs(v@).to_set(),
{
    let mut out: Vec<String> = Vec::new();
    let mut i: usize = 0;
    assert(strs(v@.take(0)).to_set() =~= Set::<Seq<char>>::empty());
    assert(strs(out@).to_set() =~= Set::<Seq<char>>::empty());
    while i < v.len()
        invariant
            text_sorted(v@),
            i <= v.len(),
            text_strictly_sorted(out@),
            strs(out@).to_set() == strs(v@.take(i as int)).to_set(),
            i > 0 ==> out@.len() > 0 && out@.last()@ == v@[i - 1]@,
            i == 0 ==> out@.len() == 0,
        decreases v.len() - i,
    {
        let ghost before = out@;
        assert(v@.take(i + 1) =~= v@.take(i as int).push(v@[i as int]));
        proof {
            assert(strs(v@.take(i + 1)) =~= strs(v@.take(i as int)).push(v@[i as int]@));
            strs(v@.take(i as int)).lemma_push_to_set_commute(v@[i as int]@);
        }
        if out.len() == 0 || !same_text(out[out.len() - 1].as_str(), v[i].as_str()) {
            proof {
                if i > 0 {
                    assert(!chars_lt(v@[i as int]@, v@[i - 1]@));
                    lemma_chars_lt_eq_or(v@[i - 1]@, v@[i as int]@);
                    assert forall|a: int| 0 <= a < before.len() implies chars_lt(before[a]@, v@[i as int]@) by {
                        if a < before.len() - 1 {
                            lemma_chars_lt_trans(before[a]@, before.last()@, v@[i as int]@);
                        }
                    }
                }
            }
            out.push(v[i].clone());
            proof {
                assert(strs(out@) =~= strs(before).push(v@[i as int]@));
                strs(before).lemma_push_to_set_commute(v@[i as int]@);
            }
        } else {
            proof {
                assert(out@.last()@ == v@[i as int]@);
                assert(strs(out@)[out@.len() - 1] == v@[i as int]@);
                assert(strs(out@).to_set().insert(v@[i as int]@) =~= strs(out@).to_set());
            }
        }
        i = i + 1;
    }
    assert(v@.take(v.len() as int) =~= v@);
    out
}

/// The names of `ms`, in order.
pub open spec fn names_of(ms: Seq<WorkspaceMember>) -> Seq<String> {
    ms.map_values(|m: WorkspaceMember| m.name)
}

/// The requested names that no discovered member carries, in request order.
pub open spec fn unknown_names(discovered: Seq<WorkspaceMember>, requested: Seq<String>) -> Seq<String>
    decreases requested.len(),
{
    if requested.len() == 0 {
        seq![]
    } else {
        let r = unknown_names(discovered, requested.drop_last());
        if has_member_named(discovered, requested.last()@) {
            r
        } else {
            r.push(requested.last())
        }
    }
}

/// The members of `discovered` whose name was requested, in discovery order.
pub open spec fn selected_members(discovered: Seq<WorkspaceMember>, requested: Seq<String>) -> Seq<WorkspaceMember>
    decreases discovered.len(),
{
    if discovered.len() == 0 {
        seq![]
    } else {
        let r = selected_members(discovered.drop_last(), requested);
        if exists|k: int| 0 <= k < requested.len() && (#[trigger] requested[k])@ == discovered.last().name@ {
            r.push(discovered.last())
        } else {
            r
        }
    }
}

/// The error message for unknown package names: the distinct unknown names
/// in text order, then every discovered name in text order.
pub open spec fn unknown_packages_message(unknown: Seq<String>, names: Seq<String>) -> Seq<char> {
    "unknown package(s): "@ + join_with(strs(unknown), ", "@) + "; available workspace members: "@
        + join_with(strs(names), ", "@)
}

/// Resolve `-p/--package` selections against the discovered members.
/// Unknown names abort before any analysis, listing the available members;
/// duplicate selections collapse (each discovered member appears at most
/// once); the discovery order is preserved.
pub fn select_members(
    discovered: &Vec<WorkspaceMember>,
    requested: &Vec<String>,
) -> (r: Result<Vec<WorkspaceMember>, String>)
    ensures
        unknown_names(discovered@, requested@).len() == 0 <==> r is Ok,
        r matches Ok(v) ==> v@ == selected_members(discovered@, requested@),
        r matches Err(msg) ==> exists|u: Seq<String>, n: Seq<String>|
            text_strictly_sorted(u) && strs(u).to_set() == strs(unknown_names(discovered@, requested@)).to_set()
                && text_sorted(n) && n.to_multiset() == names_of(discovered@).to_multiset()
                && msg@ == unknown_packages_message(u, n),
{
    let mut unknown: Vec<String> = Vec::new();
    let mut i: usize = 0;
    assert(requested@.take(0) =~= Seq::<String>::empty());
    while i < requested.len()
        invariant
            i <= requested.len(),
            unknown@ == unknown_names(discovered@, requested@.take(i as int)),
        decreases requested.len() - i,
    {
        assert(requested@.take(i + 1).drop_last() =~= requested@.take(i as int));
        let mut found = false;
        let mut k: usize = 0;
        while k < discovered.len() && !found
            invariant
                i < requested.len(),
                k <= discovered.len(),
                found ==> has_member_named(discovered@, requested@[i as int]@),
                !found ==> forall|t: int| 0 <= t < k ==> (#[trigger] discovered@[t]).name@ != requested@[i as int]@,
            decreases discovered.len() - k,
        {
            if discovered[k].name == requested[i] {
                found = true;
            }
            k = k + 1;
        }
        if !found {
            unknown.push(requested[i].clone());
        }
        i = i + 1;
    }
    assert(requested@.take(requested.len() as int) =~= requested@);
    if unknown.len() > 0 {
        let sorted_unknown = sort_texts(&unknown);
        let distinct = dedup_sorted(&sorted_unknown);
        let mut names: Vec<String> = Vec::new();
        let mut j: usize = 0;
        while j < discovered.len()
            invariant
                j <= discovered.len(),
                names@ == names_of(discovered@).take(j as int),
            decreases discovered.len() - j,
        {
            names.push(discovered[j].name.clone());
            assert(names_of(discovered@).take(j + 1) =~= names_of(discovered@).take(j as int).push(discovered@[j as int].name));
            j = j + 1;
        }
        assert(names_of(discovered@).take(discovered.len() as int) =~= names_of(discovered@));
        let sorted_names = sort_texts(&names);
        let mut msg = String::new();
        push_str(&mut msg, "unknown package(s): ");
        push_joined(&mut msg, &distinct, ", ");
        push_str(&mut msg, "; available workspace members: ");
        push_joined(&mut msg, &sorted_names, ", ");
        proof {
            unknown@.to_multiset_ensures();
            sorted_unknown@.to_multiset_ensures();
            assert(strs(sorted_unknown@).to_set() =~= strs(unknown@).to_set()) by {
                assert forall|x: String| sorted_unknown@.contains(x) <==> unknown@.contains(x) by {
                    assert(sorted_unknown@.to_multiset().count(x) == unknown@.to_multiset().count(x));
                }
                assert forall|t: Seq<char>| strs(sorted_unknown@).contains(t) implies strs(unknown@).contains(t) by {
                    let k = choose|k: int| 0 <= k < strs(sorted_unknown@).len() && strs(sorted_unknown@)[k] == t;
                    assert(sorted_unknown@.contains(sorted_unknown@[k]));
                    let m = choose|m: int| 0 <= m < unknown@.len() && unknown@[m] == sorted_unknown@[k];
                    assert(strs(unknown@)[m] == t);
                }
                assert forall|t: Seq<char>| strs(unknown@).contains(t) implies strs(sorted_unknown@).contains(t) by {
                    let k = choose|k: int| 0 <= k < strs(unknown@).len() && strs(unknown@)[k] == t;
                    assert(unknown@.contains(unknown@[k]));
                    let m = choose|m: int| 0 <= m < sorted_unknown@.len() && sorted_unknown@[m] == unknown@[k];
                    assert(strs(sorted_unknown@)[m] == t);
                }
            }
            assert(strs(distinct@) =~= distinct@.map_values(|p: String| p@));
            assert(strs(sorted_names@) =~= sorted_names@.map_values(|p: String| p@));
            assert(msg@ =~= unknown_packages_message(distinct@, sorted_names@));
        }
        return Err(msg);
    }
    let mut out: Vec<WorkspaceMember> = Vec::new();
    let mut d: usize = 0;
    assert(discovered@.take(0) =~= Seq::<WorkspaceMember>::empty());
    while d < discovered.len()
        invariant
            d <= discovered.len(),
            out@ == selected_members(discovered@.take(d as int), requested@),
        decreases discovered.len() - d,
    {
        assert(discovered@.take(d + 1).drop_last() =~= discovered@.take(d as int));
        let mut wanted = false;
        let mut k: usize = 0;
        while k < requested.len() && !wanted
            invariant
                d < discovered.len(),
                k <= requested.len(),
                wanted ==> exists|t: int| 0 <= t < requested@.len() && (#[trigger] requested@[t])@ == discovered@[d as int].name@,
                !wanted ==> forall|t: int| 0 <= t < k ==> (#[trigger] requested@[t])@ != discovered@[d as int].name@,
            decreases requested.len() - k,
        {
            if requested[k] == discovered[d].name {
                wanted = true;
            }
            k = k + 1;
        }
        if wanted {
            out.push(discovered[d].copied());
        }
        d = d + 1;
    }
    assert(discovered@.take(discovered.len() as int) =~= discovered@);
    Ok(out)
}

/// The exclude glob for member directory `dir` nested under the walk root
/// `root`: its remainder under `root`, with forward slashes, then `/**`.
pub open spec fn nested_glob(root: Seq<char>, dir: Seq<char>) -> Seq<char> {
    forward_slashes(join_path(path_components(dir).skip(path_components(root).len() as int))) + "/**"@
}

/// Member directory `dir` lies strictly beneath `root`.
pub open spec fn nested_under(root: Seq<char>, dir: Seq<char>) -> bool {
    is_prefix_of(path_components(root), path_components(dir)) && path_components(dir)
        != path_components(root)
}

/// The exclude globs for every member nested beneath `root`, in discovery
/// order.
pub open spec fn nested_globs(root: Seq<char>, ms: Seq<WorkspaceMember>) -> Seq<Seq<char>>
    decreases ms.len(),
{
    if ms.len() == 0 {
        seq![]
    } else {
        let r = nested_globs(root, ms.drop_last());
        if nested_under(root, ms.last().dir@) {
            r.push(nested_glob(root, ms.last().dir@))
        } else {
            r
        }
    }
}

/// Exclude globs for other members' roots nested beneath `root`, so a
/// member walk never descends into a nested member's files. A member never
/// excludes itself, and members outside `root` are untouched.
pub fn nested_member_excludes(root: &str, discovered: &Vec<WorkspaceMember>) -> (r: Vec<String>)
    ensures
        strs(r@) == nested_globs(root@, discovered@),
{
    let rc = components(root);
    let mut out: Vec<String> = Vec::new();
    let mut i: usize = 0;
    assert(discovered@.take(0) =~= Seq::<WorkspaceMember>::empty());
    while i < discovered.len()
        invariant
            i <= discovered.len(),
            strs(rc@) == path_components(root@),
            strs(out@) == nested_globs(root@, discovered@.take(i as int)),
        decreases discovered.len() - i,
    {
        assert(discovered@.take(i + 1).drop_last() =~= discovered@.take(i as int));
        let dc = components(discovered[i].dir.as_str());
        if has_prefix_components(&dc, &rc) && !crate::paths::same_components(&dc, &rc) {
            let mut rest: Vec<String> = Vec::new();
            let mut j: usize = rc.len();
            while j < dc.len()
                invariant
                    rc@.len() <= j <= dc@.len(),
                    strs(rest@) == strs(dc@).subrange(rc@.len() as int, j as int),
                decreases dc.len() - j,
            {
                let ghost before = rest@;
                let piece = dc[j].clone();
                rest.push(piece);
                assert(strs(rest@) =~= strs(before).push(piece@));
                assert(strs(rest@) =~= strs(dc@).subrange(rc@.len() as int, j + 1));
                j = j + 1;
            }
            assert(strs(dc@).subrange(rc@.len() as int, dc@.len() as int) =~= strs(dc@).skip(rc@.len() as int));
            let joined = collect_path(&rest);
            let mut glob = replace_backslashes(joined.as_str());
            push_str(&mut glob, "/**");
            let ghost before = out@;
            out.push(glob);
            assert(strs(out@) =~= strs(before).push(glob@));
        }
        i = i + 1;
    }
    assert(discovered@.take(discovered.len() as int) =~= discovered@);
    out
}

/// The built-in default exclude globs: the standard Cargo target
/// directories, matched relative to each analyzed root.
pub fn default_excludes() -> (r: Vec<String>)
    ensures
        strs(r@) == seq!["tests/**"@, "benches/**"@, "examples/**"@],
{
    let mut r: Vec<String> = Vec::new();
    r.push(String::from_str("tests/**"));
    r.push(String::from_str("benches/**"));
    r.push(String::from_str("examples/**"));
    assert(strs(r@) =~= seq!["tests/**"@, "benches/**"@, "examples/**"@]);
    r
}

/// The effective exclude list: the default list (built-in, or replaced
/// wholesale by the `default-excludes` config key, or emptied by
/// `--no-default-excludes`), followed by the config `exclude` globs and
/// then the command-line ones, which always append and never replace.
pub fn effective_excludes(
    no_default_excludes: bool,
    config_default_excludes: Option<Vec<String>>,
    config_exclude: Vec<String>,
    cli_exclude: Vec<String>,
) -> (r: Vec<String>)
    ensures
        strs(r@) == (if no_default_excludes {
            Seq::<Seq<char>>::empty()
        } else {
            match config_default_excludes {
                Some(d) => strs(d@),
                None => seq!["tests/**"@, "benches/**"@, "examples/**"@],
            }
        }) + strs(config_exclude@) + strs(cli_exclude@),
{
    let mut out = if no_default_excludes {
        Vec::new()
    } else {
        match config_default_excludes {
            Some(d) => d,
            None => default_excludes(),
        }
    };
    let ghost base = out@;
    let mut c = config_exclude;
    let ghost cv = c@;
    out.append(&mut c);
    let ghost mid = out@;
    let mut l = cli_exclude;
    let ghost lv = l@;
    out.append(&mut l);
    assert(strs(out@) =~= strs(base) + strs(cv) + strs(lv));
    out
}

/// Strip the leading `crap` token cargo inserts when invoked as a
/// subcommand: `cargo crap [args]` runs `cargo-crap crap [args]`.
pub fn strip_cargo_subcommand(args: Vec<String>) -> (r: Vec<String>)
    ensures
        args@.len() > 1 && args@[1]@ == "crap"@ ==> r@ == args@.remove(1),
        !(args@.len() > 1 && args@[1]@ == "crap"@) ==> r@ == args@,
{
    let mut args = args;
    if args.len() > 1 && same_text(args[1].as_str(), "crap") {
        args.remove(1);
    }
    args
}

/// Whether an `--allow` entry is a path glob rather than a function-name
/// glob: it contains `/` or `**`.
pub fn is_path_allow_pattern(pattern: &str) -> (r: bool)
    ensures
        r == (has_char(pattern@, '/') || has_double(pattern@, '*')),
{
    contains_char(pattern, '/') || contains_double(pattern, '*')
}

/// Whether the human and summary renderers may emit colour: `NO_COLOR`
/// always disables; `FORCE_COLOR` then forces colour even into files and
/// pipes; otherwise colour is on only when writing to a terminal stdout.
pub fn resolve_color(
    no_color: bool,
    force_color: bool,
    output_is_file: bool,
    stdout_is_tty: bool,
) -> (r: bool)
    ensures
        r == (!no_color && (force_color || (!output_is_file && stdout_is_tty))),
{
    if no_color {
        false
    } else if force_color {
        true
    } else {
        !output_is_file && stdout_is_tty
    }
}

/// Resolve a boolean flag against config: the command-line switch wins when
/// set, otherwise the config value, defaulting to false.
pub fn resolve_bool(cli_flag: bool, config_value: Option<bool>) -> (r: bool)
    ensures
        r == (cli_flag || config_value == Some(true)),
{
    cli_flag || match config_value {
        Some(v) => v,
        None => false,
    }
}

/// Refuse `flag` when it is set but `--baseline` is absent.
pub fn require_baseline(flag_set: bool, baseline_present: bool, flag: &str) -> (r: Result<(), String>)
    ensures
        r is Err <==> flag_set && !baseline_present,
        r matches Err(msg) ==> msg@ == flag@ + " requires --baseline"@,
{
    if flag_set && !baseline_present {
        let mut msg = String::from_str(flag);
        push_str(&mut msg, " requires --baseline");
        return Err(msg);
    }
    Ok(())
}


/// The parent of a path, component-wise: `None` for a path without
/// components and for the bare root, else the path without its last
/// component (empty for a single relative component).
pub open spec fn parent_of(p: Seq<char>) -> Option<Seq<char>> {
    let cs = path_components(p);
    if cs.len() == 0 || cs == seq![seq!['/']] {
        None
    } else {
        Some(join_path(cs.drop_last()))
    }
}

/// The parent of a path, split again, is the path's components without the
/// last one.
pub proof fn lemma_parent_components(p: Seq<char>)
    requires
        parent_of(p) is Some,
    ensures
        path_components(parent_of(p)->0) == path_components(p).drop_last(),
{
    let cs = path_components(p);
    lemma_components_valid(p);
    lemma_take_valid(cs, cs.len() - 1);
    assert(cs.take(cs.len() - 1) =~= cs.drop_last());
    lemma_join_components(cs.drop_last());
}

/// The directory holding `path` (see [`parent_of`]).
pub fn parent_dir(path: &str) -> (r: Option<String>)
    ensures
        match r {
            Some(d) => parent_of(path@) == Some(d@),
            None => parent_of(path@) is None,
        },
{
    let cs = components(path);
    if cs.len() == 0 {
        return None;
    }
    if cs.len() == 1 && cs[0].unicode_len() == 1 && cs[0].as_str().get_char(0) == '/' {
        assert(cs@[0]@ =~= seq!['/']);
        assert(strs(cs@) =~= seq![seq!['/']]);
        return None;
    }
    proof {
        if strs(cs@) == seq![seq!['/']] {
            assert(strs(cs@)[0] == cs@[0]@);
            assert(cs@[0]@ == seq!['/']);
            assert(cs@[0]@.len() == 1 && cs@[0]@[0] == '/');
        }
    }
    let mut keep: Vec<String> = Vec::new();
    let mut i: usize = 0;
    while i + 1 < cs.len()
        invariant
            cs.len() >= 1,
            i + 1 <= cs.len(),
            strs(keep@) == strs(cs@).take(i as int),
        decreases cs.len() - i,
    {
        let piece = cs[i].clone();
        let ghost before = keep@;
        keep.push(piece);
        assert(strs(keep@) =~= strs(before).push(cs@[i as int]@));
        assert(strs(keep@) =~= strs(cs@).take(i + 1));
        i = i + 1;
    }
    assert(strs(cs@).take(i as int) =~= strs(cs@).drop_last());
    Some(collect_path(&keep))
}

/// One package record of `cargo metadata`, as far as it was readable.
#[derive(Debug, Clone)]
pub struct PackageRecord {
    pub name: Option<String>,
    pub manifest_path: Option<String>,
}

/// The member a package record describes: its name and the directory of
/// its manifest, when both are there.
pub open spec fn member_of(p: PackageRecord) -> Option<(Seq<char>, Seq<char>)> {
    member_of_fields(record_fields(p))
}

/// What a package record holds, as plain text: its name and manifest path,
/// each when present.
pub open spec fn record_fields(p: PackageRecord) -> (Option<Seq<char>>, Option<Seq<char>>) {
    (opt_text(p.name), opt_text(p.manifest_path))
}

/// The text of an optional string.
pub open spec fn opt_text(s: Option<String>) -> Option<Seq<char>> {
    match s {
        Some(t) => Some(t@),
        None => None,
    }
}

/// The member a package's fields describe (see [`member_of`]).
pub open spec fn member_of_fields(f: (Option<Seq<char>>, Option<Seq<char>>)) -> Option<(Seq<char>, Seq<char>)> {
    match f {
        (Some(n), Some(m)) => match parent_of(m) {
            Some(d) => Some((n, d)),
            None => None,
        },
        _ => None,
    }
}

/// The members of the package fields that yield one, in order.
pub open spec fn members_of_fields(fs: Seq<(Option<Seq<char>>, Option<Seq<char>>)>) -> Seq<(Seq<char>, Seq<char>)>
    decreases fs.len(),
{
    if fs.len() == 0 {
        seq![]
    } else {
        let r = members_of_fields(fs.drop_last());
        match member_of_fields(fs.last()) {
            Some(m) => r.push(m),
            None => r,
        }
    }
}

/// The members of the package records that yield one, in order.
pub open spec fn members_of(ps: Seq<PackageRecord>) -> Seq<(Seq<char>, Seq<char>)>
    decreases ps.len(),
{
    if ps.len() == 0 {
        seq![]
    } else {
        let r = members_of(ps.drop_last());
        match member_of(ps.last()) {
            Some(m) => r.push(m),
            None => r,
        }
    }
}

/// The workspace members listed by `cargo metadata`: one per package record
/// with a name and a manifest path that has a parent directory, in order.
/// No member at all is an error.
pub fn members_from_packages(packages: &Vec<PackageRecord>) -> (r: Result<Vec<WorkspaceMember>, String>)
    ensures
        r is Ok <==> members_of(packages@).len() > 0,
        r matches Ok(v) ==> v@.map_values(|m: WorkspaceMember| (m.name@, m.dir@)) == members_of(packages@),
        r matches Err(msg) ==> msg@ == "`cargo metadata` returned no packages"@,
{
    let mut out: Vec<WorkspaceMember> = Vec::new();
    let mut i: usize = 0;
    assert(packages@.take(0) =~= Seq::<PackageRecord>::empty());
    while i < packages.len()
        invariant
            i <= packages.len(),
            out@.map_values(|m: WorkspaceMember| (m.name@, m.dir@)) == members_of(packages@.take(i as int)),
        decreases packages.len() - i,
    {
        assert(packages@.take(i + 1).drop_last() =~= packages@.take(i as int));
        assert(packages@.take(i + 1).last() == packages@[i as int]);
        let p = &packages[i];
        let ghost before = out@;
        match (&p.name, &p.manifest_path) {
            (Some(n), Some(m)) => match parent_dir(m.as_str()) {
                Some(d) => {
                    out.push(WorkspaceMember { name: n.clone(), dir: d });
                    assert(out@.map_values(|mm: WorkspaceMember| (mm.name@, mm.dir@)) =~= before.map_values(
                        |mm: WorkspaceMember| (mm.name@, mm.dir@),
                    ).push((n@, d@)));
                },
                None => {},
            },
            _ => {},
        }
        i = i + 1;
    }
    assert(packages@.take(packages.len() as int) =~= packages@);
    if out.len() == 0 {
        return Err(String::from_str("`cargo metadata` returned no packages"));
    }
    Ok(out)
}

proof fn lemma_members_of_fields(ps: Seq<PackageRecord>)
    ensures
        members_of(ps) == members_of_fields(ps.map_values(|p: PackageRecord| record_fields(p))),
    decreases ps.len(),
{
    let fs = ps.map_values(|p: PackageRecord| record_fields(p));
    if ps.len() > 0 {
        lemma_members_of_fields(ps.drop_last());
        assert(ps.drop_last().map_values(|p: PackageRecord| record_fields(p)) =~= fs.drop_last());
        assert(fs.last() == record_fields(ps.last()));
    }
}

/// What `cargo metadata`'s output holds, as far as the workspace walk
/// reads it: `None` when the bytes are not JSON; otherwise `workspace_root`
/// when it is a string, and `packages` when it is an array, as each
/// package's `name` and `manifest_path`, each present when it is a string.
pub uninterp spec fn metadata_fields(bytes: Seq<u8>) -> Option<
    (Option<Seq<char>>, Option<Seq<(Option<Seq<char>>, Option<Seq<char>>)>>),
>;

/// The package fields of optional package records.
pub open spec fn opt_records(ps: Option<Vec<PackageRecord>>) -> Option<Seq<(Option<Seq<char>>, Option<Seq<char>>)>> {
    match ps {
        Some(v) => Some(v@.map_values(|p: PackageRecord| record_fields(p))),
        None => None,
    }
}

/// Parse `bytes` with `serde_json::from_slice` into a `serde_json::Value`
/// and read `workspace_root` (`as_str`) and `packages` (`as_array`, then
/// each element's `name` and `manifest_path` with `as_str`). Trusted: the
/// parse succeeds exactly when [`metadata_fields`] is `Some`, and what is
/// read is what that name says; on failure the parse error's text is
/// returned. Which bytes are JSON is not stated.
#[verifier::external_body]
fn read_metadata_json(bytes: &[u8]) -> (r: Result<(Option<String>, Option<Vec<PackageRecord>>), String>)
    ensures
        r is Ok <==> metadata_fields(bytes@) is Some,
        r matches Ok(v) ==> metadata_fields(bytes@) == Some((opt_text(v.0), opt_records(v.1))),
{
    let meta: serde_json::Value = serde_json::from_slice(bytes).map_err(|e| e.to_string())?;
    let root = meta["workspace_root"].as_str().map(str::to_string);
    let packages = meta["packages"].as_array().map(|a| {
        a.iter().map(|p| PackageRecord {
            name: p["name"].as_str().map(str::to_string),
            manifest_path: p["manifest_path"].as_str().map(str::to_string),
        }).collect()
    });
    Ok((root, packages))
}

/// The workspace root and members that `cargo metadata`'s output gives
/// (see [`parse_workspace_metadata`]); `None` when it gives none and the
/// run fails.
pub open spec fn metadata_outcome(bytes: Seq<u8>) -> Option<(Seq<char>, Seq<(Seq<char>, Seq<char>)>)> {
    match metadata_fields(bytes) {
        Some((Some(root), Some(ps))) => if members_of_fields(ps).len() > 0 {
            Some((root, members_of_fields(ps)))
        } else {
            None
        },
        _ => None,
    }
}

/// Parse `cargo metadata` JSON into the workspace root and the member list
/// (see [`members_from_packages`]). The errors: the output is not JSON;
/// `workspace_root` is missing; `packages` is missing; no package yields a
/// member.
pub fn parse_workspace_metadata(stdout: &[u8]) -> (r: Result<(String, Vec<WorkspaceMember>), String>)
    ensures
        r is Ok <==> metadata_outcome(stdout@) is Some,
        r matches Ok((root, ms)) ==> metadata_outcome(stdout@) == Some(
            (root@, ms@.map_values(|m: WorkspaceMember| (m.name@, m.dir@))),
        ),
        r matches Err(msg) ==> match metadata_fields(stdout@) {
            None => "parsing `cargo metadata` output: "@.is_prefix_of(msg@),
            Some((None, _)) => msg@ == "`cargo metadata` output missing `workspace_root`"@,
            Some((Some(_), None)) => msg@ == "`cargo metadata` output missing `packages`"@,
            Some((Some(_), Some(_))) => msg@ == "`cargo metadata` returned no packages"@,
        },
{
    match read_metadata_json(stdout) {
        Err(cause) => {
            let mut msg = String::from_str("parsing `cargo metadata` output: ");
            let ghost head = msg@;
            push_str(&mut msg, cause.as_str());
            assert(msg@.subrange(0, head.len() as int) =~= head);
            Err(msg)
        },
        Ok((None, _)) => Err(String::from_str("`cargo metadata` output missing `workspace_root`")),
        Ok((Some(_), None)) => Err(String::from_str("`cargo metadata` output missing `packages`")),
        Ok((Some(root), Some(packages))) => {
            proof {
                lemma_members_of_fields(packages@);
            }
            match members_from_packages(&packages) {
                Ok(members) => Ok((root, members)),
                Err(e) => Err(e),
            }
        },
    }
}

/// One member root to walk, with the exclude globs that walk applies.
#[derive(Debug, Clone)]
pub struct MemberWalk {
    pub dir: String,
    pub excludes: Vec<String>,
}

/// What a workspace run analyzes: the members, one walk per member, and,
/// for a `-p` selection, the scope that attributes baseline entries.
#[derive(Debug)]
pub struct WorkspacePlan {
    pub members: Vec<WorkspaceMember>,
    pub walks: Vec<MemberWalk>,
    pub scope: Option<MemberScope>,
}

/// The members a workspace run analyzes: every discovered member for
/// `--workspace` (no `-p` names), else the selection.
pub open spec fn planned_members(discovered: Seq<WorkspaceMember>, packages: Seq<String>) -> Seq<WorkspaceMember> {
    if packages.len() == 0 {
        discovered
    } else {
        selected_members(discovered, packages)
    }
}

/// Plan a workspace run: resolve the `-p` names against the discovered
/// members, give each analyzed member a walk whose excludes are the run's
/// excludes followed by the roots of every discovered member nested
/// beneath it (an unselected nested member's files must not leak into its
/// parent's walk), and scope baseline entries when `-p` narrowed the run.
/// Fails exactly when `select_members` does.
pub fn plan_workspace(
    workspace_root: &str,
    discovered: &Vec<WorkspaceMember>,
    packages: &Vec<String>,
    excludes: &Vec<String>,
) -> (r: Result<WorkspacePlan, String>)
    ensures
        r is Err <==> packages@.len() > 0 && unknown_names(discovered@, packages@).len() > 0,
        r matches Ok(plan) ==> {
            &&& plan.members@ == planned_members(discovered@, packages@)
            &&& plan.walks@.len() == plan.members@.len()
            &&& forall|i: int|
                0 <= i < plan.walks@.len() ==> {
                    &&& (#[trigger] plan.walks@[i]).dir@ == plan.members@[i].dir@
                    &&& strs(plan.walks@[i].excludes@) == strs(excludes@) + nested_globs(
                        plan.members@[i].dir@,
                        discovered@,
                    )
                }
            &&& plan.scope is Some <==> packages@.len() > 0
            &&& plan.scope matches Some(sc) ==> {
                &&& sc.members@.len() == discovered@.len()
                &&& forall|k: int|
                    0 <= k < discovered@.len() ==> scoped_from(
                        workspace_root@,
                        #[trigger] discovered@[k],
                        plan.members@,
                        sc.members@[k],
                    )
            }
        },
{
    let members = if packages.len() == 0 {
        let mut all: Vec<WorkspaceMember> = Vec::new();
        let mut k: usize = 0;
        while k < discovered.len()
            invariant
                k <= discovered.len(),
                all@ == discovered@.take(k as int),
            decreases discovered.len() - k,
        {
            all.push(discovered[k].copied());
            assert(discovered@.take(k + 1) =~= discovered@.take(k as int).push(discovered@[k as int]));
            k = k + 1;
        }
        assert(discovered@.take(discovered.len() as int) =~= discovered@);
        all
    } else {
        match select_members(discovered, packages) {
            Ok(v) => v,
            Err(e) => return Err(e),
        }
    };
    let mut walks: Vec<MemberWalk> = Vec::new();
    let mut i: usize = 0;
    while i < members.len()
        invariant
            i <= members.len(),
            walks@.len() == i,
            forall|t: int|
                0 <= t < i ==> {
                    &&& (#[trigger] walks@[t]).dir@ == members@[t].dir@
                    &&& strs(walks@[t].excludes@) == strs(excludes@) + nested_globs(members@[t].dir@, discovered@)
                },
        decreases members.len() - i,
    {
        let mut ex: Vec<String> = Vec::new();
        let mut j: usize = 0;
        while j < excludes.len()
            invariant
                j <= excludes.len(),
                strs(ex@) == strs(excludes@).take(j as int),
            decreases excludes.len() - j,
        {
            let g = excludes[j].clone();
            let ghost before = ex@;
            ex.push(g);
            assert(strs(ex@) =~= strs(before).push(excludes@[j as int]@));
            assert(strs(ex@) =~= strs(excludes@).take(j + 1));
            j = j + 1;
        }
        assert(strs(excludes@).take(excludes.len() as int) =~= strs(excludes@));
        let mut nested = nested_member_excludes(members[i].dir.as_str(), discovered);
        let ghost ex_before = ex@;
        let ghost nested_v = nested@;
        ex.append(&mut nested);
        assert(strs(ex@) =~= strs(ex_before) + strs(nested_v));
        walks.push(MemberWalk { dir: members[i].dir.clone(), excludes: ex });
        i = i + 1;
    }
    let scope = if packages.len() == 0 {
        None
    } else {
        Some(MemberScope::new(workspace_root, discovered, &members))
    };
    Ok(WorkspacePlan { members, walks, scope })
}
} // verus!
