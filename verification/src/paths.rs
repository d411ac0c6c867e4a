//! Component-wise path arithmetic.
//!
//! Paths are strings; every comparison the tool makes between two paths is
//! made on their *components* under the Unix rules: a leading `/` is the root
//! component, empty pieces between separators are dropped, a `.` piece is
//! dropped except as the very first component of a relative path, and every
//! other piece is one component. `foo/bar.rs` is therefore a suffix of
//! `/a/foo/bar.rs` but not of `/a/oofoo/bar.rs`.

use vstd::prelude::*;
use crate::text::{chars_of, join_with, push_char, push_joined, push_str};

verus! {

/// The views of a sequence of strings.
pub open spec fn strs(v: Seq<String>) -> Seq<Seq<char>> {
    v.map_values(|s: String| s@)
}

/// The raw pieces of `s` between `/` separators, empty pieces included.
/// There is always at least one piece.
pub open spec fn split_pieces(s: Seq<char>) -> Seq<Seq<char>>
    decreases s.len(),
{
    if s.len() == 0 {
        seq![Seq::<char>::empty()]
    } else {
        let p = split_pieces(s.drop_last());
        if s.last() == '/' {
            p.push(Seq::<char>::empty())
        } else {
            p.update(p.len() - 1, p.last().push(s.last()))
        }
    }
}

/// A piece that is a real component: not empty and not `.`.
pub open spec fn keep_piece(p: Seq<char>) -> bool {
    p.len() > 0 && p != seq!['.']
}

/// The pieces of `ps` that are real components, in order.
pub open spec fn kept_pieces(ps: Seq<Seq<char>>) -> Seq<Seq<char>>
    decreases ps.len(),
{
    if ps.len() == 0 {
        seq![]
    } else {
        let r = kept_pieces(ps.drop_last());
        if keep_piece(ps.last()) {
            r.push(ps.last())
        } else {
            r
        }
    }
}

/// Whether `s` is an absolute path (it starts at the root).
pub open spec fn is_absolute(s: Seq<char>) -> bool {
    s.len() > 0 && s[0] == '/'
}

/// The components of the path `s`: `/` for the root, `.` only as the first
/// component of a relative path that starts with it, and every other
/// non-empty, non-`.` piece.
pub open spec fn path_components(s: Seq<char>) -> Seq<Seq<char>> {
    let ps = split_pieces(s);
    if is_absolute(s) {
        seq![seq!['/']] + kept_pieces(ps)
    } else if ps[0] == seq!['.'] {
        seq![seq!['.']] + kept_pieces(ps.drop_first())
    } else {
        kept_pieces(ps)
    }
}

/// The path string a component sequence collects into: components joined
/// with `/`, with no separator added right after the root.
pub open spec fn join_path(cs: Seq<Seq<char>>) -> Seq<char>
    decreases cs.len(),
{
    if cs.len() == 0 {
        seq![]
    } else {
        let acc = join_path(cs.drop_last());
        if acc.len() == 0 {
            cs.last()
        } else if acc.last() == '/' {
            acc + cs.last()
        } else {
            acc + seq!['/'] + cs.last()
        }
    }
}

/// `b` is a component-wise prefix of `a`.
pub open spec fn is_prefix_of<T>(b: Seq<T>, a: Seq<T>) -> bool {
    b.len() <= a.len() && a.take(b.len() as int) == b
}

/// `b` is a component-wise suffix of `a`.
pub open spec fn is_suffix_of<T>(b: Seq<T>, a: Seq<T>) -> bool {
    b.len() <= a.len() && a.skip(a.len() - b.len()) == b
}

proof fn lemma_split_pieces_nonempty(s: Seq<char>)
    ensures
        split_pieces(s).len() >= 1,
    decreases s.len(),
{
    if s.len() > 0 {
        lemma_split_pieces_nonempty(s.drop_last());
    }
}

/// An ordinary path component: non-empty, not `.`, without a separator.
pub open spec fn is_name(c: Seq<char>) -> bool {
    c.len() > 0 && c != seq!['.'] && !c.contains('/')
}

/// A sequence that some path has as its components: ordinary names, except
/// that the first may be the root `/` or `.`.
pub open spec fn valid_components(cs: Seq<Seq<char>>) -> bool {
    forall|i: int|
        0 <= i < cs.len() ==> is_name(#[trigger] cs[i]) || (i == 0 && (cs[i] == seq!['/'] || cs[i] == seq!['.']))
}

proof fn lemma_split_pieces_no_sep(s: Seq<char>)
    ensures
        forall|i: int| 0 <= i < split_pieces(s).len() ==> !(#[trigger] split_pieces(s)[i]).contains('/'),
    decreases s.len(),
{
    lemma_split_pieces_nonempty(s);
    if s.len() > 0 {
        let p = split_pieces(s.drop_last());
        lemma_split_pieces_no_sep(s.drop_last());
        lemma_split_pieces_nonempty(s.drop_last());
        if s.last() != '/' {
            assert forall|i: int| 0 <= i < split_pieces(s).len() implies !(#[trigger] split_pieces(s)[i]).contains('/') by {
                if i == p.len() - 1 {
                    let q = p.last().push(s.last());
                    assert(split_pieces(s)[i] == q);
                    if q.contains('/') {
                        let k = choose|k: int| 0 <= k < q.len() && q[k] == '/';
                        if k < p.last().len() {
                            assert(p.last()[k] == '/');
                            assert(p[p.len() - 1].contains('/'));
                        }
                    }
                } else {
                    assert(split_pieces(s)[i] == p[i]);
                }
            }
        } else {
            assert forall|i: int| 0 <= i < split_pieces(s).len() implies !(#[trigger] split_pieces(s)[i]).contains('/') by {
                if i < p.len() {
                    assert(split_pieces(s)[i] == p[i]);
                }
            }
        }
    }
}

proof fn lemma_kept_pieces_names(ps: Seq<Seq<char>>)
    requires
        forall|i: int| 0 <= i < ps.len() ==> !(#[trigger] ps[i]).contains('/'),
    ensures
        forall|i: int| 0 <= i < kept_pieces(ps).len() ==> is_name(#[trigger] kept_pieces(ps)[i]),
    decreases ps.len(),
{
    if ps.len() > 0 {
        lemma_kept_pieces_names(ps.drop_last());
        let r = kept_pieces(ps.drop_last());
        if keep_piece(ps.last()) {
            assert forall|i: int| 0 <= i < kept_pieces(ps).len() implies is_name(#[trigger] kept_pieces(ps)[i]) by {
                if i < r.len() {
                    assert(kept_pieces(ps)[i] == r[i]);
                } else {
                    assert(kept_pieces(ps)[i] == ps[ps.len() - 1]);
                }
            }
        }
    }
}

/// The components of any path form a valid component sequence.
pub proof fn lemma_components_valid(s: Seq<char>)
    ensures
        valid_components(path_components(s)),
{
    let ps = split_pieces(s);
    lemma_split_pieces_nonempty(s);
    lemma_split_pieces_no_sep(s);
    lemma_kept_pieces_names(ps);
    if is_absolute(s) {
        let k = kept_pieces(ps);
        assert forall|i: int| 0 <= i < path_components(s).len() implies is_name(#[trigger] path_components(s)[i]) || (
        i == 0 && (path_components(s)[i] == seq!['/'] || path_components(s)[i] == seq!['.'])) by {
            if i > 0 {
                assert(path_components(s)[i] == k[i - 1]);
            }
        }
    } else if ps[0] == seq!['.'] {
        let d = ps.drop_first();
        assert forall|i: int| 0 <= i < d.len() implies !(#[trigger] d[i]).contains('/') by {
            assert(d[i] == ps[i + 1]);
        }
        lemma_kept_pieces_names(d);
        let k = kept_pieces(d);
        assert forall|i: int| 0 <= i < path_components(s).len() implies is_name(#[trigger] path_components(s)[i]) || (
        i == 0 && (path_components(s)[i] == seq!['/'] || path_components(s)[i] == seq!['.'])) by {
            if i > 0 {
                assert(path_components(s)[i] == k[i - 1]);
            }
        }
    }
}

proof fn lemma_split_append_name(a: Seq<char>, c: Seq<char>)
    requires
        !c.contains('/'),
    ensures
        split_pieces(a + c) == split_pieces(a).update(
            split_pieces(a).len() - 1,
            split_pieces(a).last() + c,
        ),
    decreases c.len(),
{
    lemma_split_pieces_nonempty(a);
    let sa = split_pieces(a);
    if c.len() == 0 {
        assert(a + c =~= a);
        assert(sa.last() + c =~= sa.last());
        assert(sa.update(sa.len() - 1, sa.last()) =~= sa);
    } else {
        let c0 = c.drop_last();
        let x = c.last();
        assert(!c0.contains('/')) by {
            if c0.contains('/') {
                let k = choose|k: int| 0 <= k < c0.len() && c0[k] == '/';
                assert(c[k] == '/');
            }
        }
        assert(x != '/') by {
            assert(c[c.len() - 1] == x);
        }
        lemma_split_append_name(a, c0);
        assert((a + c).drop_last() =~= a + c0);
        assert((a + c).last() == x);
        let s0 = split_pieces(a + c0);
        lemma_split_pieces_nonempty(a + c0);
        assert(split_pieces(a + c) == s0.update(s0.len() - 1, s0.last().push(x)));
        assert(s0.last() == sa.last() + c0);
        assert((sa.last() + c0).push(x) =~= sa.last() + c);
        assert(s0.update(s0.len() - 1, s0.last().push(x)) =~= sa.update(sa.len() - 1, sa.last() + c));
    }
}

proof fn lemma_split_sep_name(a: Seq<char>, c: Seq<char>)
    requires
        !c.contains('/'),
    ensures
        split_pieces(a + seq!['/'] + c) == split_pieces(a).push(c),
{
    let a1 = a.push('/');
    assert(a + seq!['/'] =~= a1);
    assert(a1.drop_last() =~= a);
    lemma_split_append_name(a1, c);
    let s1 = split_pieces(a1);
    assert(s1 == split_pieces(a).push(Seq::<char>::empty()));
    assert(Seq::<char>::empty() + c =~= c);
    assert(s1.update(s1.len() - 1, s1.last() + c) =~= split_pieces(a).push(c));
}

proof fn lemma_split_name(c: Seq<char>)
    requires
        !c.contains('/'),
    ensures
        split_pieces(c) == seq![c],
{
    lemma_split_append_name(Seq::<char>::empty(), c);
    assert(Seq::<char>::empty() + c =~= c);
    assert(split_pieces(Seq::<char>::empty()) == seq![Seq::<char>::empty()]);
    assert(seq![Seq::<char>::empty()].update(0, Seq::<char>::empty() + c) =~= seq![c]);
}

proof fn lemma_kept_push(ps: Seq<Seq<char>>, p: Seq<char>)
    ensures
        kept_pieces(ps.push(p)) == if keep_piece(p) {
            kept_pieces(ps).push(p)
        } else {
            kept_pieces(ps)
        },
{
    assert(ps.push(p).drop_last() =~= ps);
}

proof fn lemma_kept_one(p: Seq<char>)
    ensures
        kept_pieces(seq![p]) == if keep_piece(p) {
            seq![p]
        } else {
            Seq::<Seq<char>>::empty()
        },
{
    let e = Seq::<Seq<char>>::empty();
    assert(e.push(p) =~= seq![p]);
    lemma_kept_push(e, p);
    assert(kept_pieces(e) == e);
    assert(e.push(p) =~= seq![p]);
}

/// Collecting a valid component sequence into a path and splitting that
/// path again gives the same components back.
pub proof fn lemma_join_components(cs: Seq<Seq<char>>)
    requires
        valid_components(cs),
    ensures
        path_components(join_path(cs)) == cs,
        join_path(cs).len() == 0 <==> cs.len() == 0,
        cs.len() > 0 ==> (is_absolute(join_path(cs)) <==> cs[0] == seq!['/']),
        join_path(cs).len() > 0 && join_path(cs).last() == '/' ==> cs == seq![seq!['/']],
    decreases cs.len(),
{
    if cs.len() == 0 {
        assert(path_components(Seq::<char>::empty()) =~= Seq::<Seq<char>>::empty()) by {
            assert(split_pieces(Seq::<char>::empty()) == seq![Seq::<char>::empty()]);
            lemma_kept_one(Seq::<char>::empty());
        }
    } else {
        let cs0 = cs.drop_last();
        let c = cs.last();
        assert(valid_components(cs0)) by {
            assert forall|i: int| 0 <= i < cs0.len() implies is_name(#[trigger] cs0[i]) || (i == 0 && (cs0[i] == seq!['/']
                || cs0[i] == seq!['.'])) by {
                assert(cs0[i] == cs[i]);
            }
        }
        lemma_join_components(cs0);
        let acc = join_path(cs0);
        if cs0.len() == 0 {
            assert(join_path(cs) == c);
            assert(cs =~= seq![c]);
            if c == seq!['/'] {
                assert(split_pieces(c) =~= seq![Seq::<char>::empty(), Seq::<char>::empty()]) by {
                    assert(c.drop_last() =~= Seq::<char>::empty());
                    assert(split_pieces(Seq::<char>::empty()) == seq![Seq::<char>::empty()]);
                }
                let ps = split_pieces(c);
                assert(kept_pieces(ps) =~= Seq::<Seq<char>>::empty()) by {
                    assert(ps.drop_last() =~= seq![Seq::<char>::empty()]);
                    assert(ps.drop_last().drop_last() =~= Seq::<Seq<char>>::empty());
                }
                assert(path_components(c) =~= seq![seq!['/']]);
            } else {
                assert(is_name(c) || c == seq!['.']);
                assert(!c.contains('/')) by {
                    if c == seq!['.'] {
                        if c.contains('/') {
                            let k = choose|k: int| 0 <= k < c.len() && c[k] == '/';
                        }
                    }
                }
                lemma_split_name(c);
                assert(c[0] != '/') by {
                    if c[0] == '/' {
                        assert(c.contains('/'));
                    }
                }
                if c == seq!['.'] {
                    assert(seq![c].drop_first() =~= Seq::<Seq<char>>::empty());
                    assert(kept_pieces(Seq::<Seq<char>>::empty()) == Seq::<Seq<char>>::empty());
                    assert(path_components(c) =~= seq![seq!['.']]);
                } else {
                    lemma_kept_one(c);
                }
                if c.last() == '/' {
                    assert(c.contains('/'));
                }
            }
        } else {
            assert(is_name(c));
            lemma_split_pieces_nonempty(acc);
            if acc.last() == '/' {
                assert(cs0 == seq![seq!['/']]);
                assert(acc == seq!['/']) by {
                    assert(cs0.drop_last() =~= Seq::<Seq<char>>::empty());
                    assert(join_path(Seq::<Seq<char>>::empty()) == Seq::<char>::empty());
                }
                let j = acc + c;
                assert(join_path(cs) == j);
                lemma_split_append_name(acc, c);
                assert(split_pieces(acc) =~= seq![Seq::<char>::empty(), Seq::<char>::empty()]) by {
                    assert(acc.drop_last() =~= Seq::<char>::empty());
                    assert(split_pieces(Seq::<char>::empty()) == seq![Seq::<char>::empty()]);
                }
                assert(Seq::<char>::empty() + c =~= c);
                let ps = split_pieces(j);
                assert(ps =~= seq![Seq::<char>::empty(), c]);
                assert(is_absolute(j)) by {
                    assert(j[0] == acc[0]);
                }
                assert(kept_pieces(ps) =~= seq![c]) by {
                    lemma_kept_one(Seq::<char>::empty());
                    assert(seq![Seq::<char>::empty()].push(c) =~= ps);
                    lemma_kept_push(seq![Seq::<char>::empty()], c);
                    assert(Seq::<Seq<char>>::empty().push(c) =~= seq![c]);
                }
                assert(cs =~= seq![seq!['/'], c]);
                assert(path_components(j) =~= cs);
                assert(j.last() == c.last());
                if c.last() == '/' {
                    assert(c.contains('/'));
                }
            } else {
                let j = acc + seq!['/'] + c;
                assert(join_path(cs) == j);
                lemma_split_sep_name(acc, c);
                let sa = split_pieces(acc);
                let ps = split_pieces(j);
                assert(ps == sa.push(c));
                assert(j[0] == acc[0]);
                assert(kept_pieces(sa.push(c)) == kept_pieces(sa).push(c)) by {
                    assert(sa.push(c).drop_last() =~= sa);
                }
                if is_absolute(acc) {
                    assert(path_components(j) =~= path_components(acc).push(c));
                } else if sa[0] == seq!['.'] {
                    assert(ps[0] == sa[0]);
                    assert(ps.drop_first() =~= sa.drop_first().push(c));
                    assert(kept_pieces(sa.drop_first().push(c)) == kept_pieces(sa.drop_first()).push(c)) by {
                        assert(sa.drop_first().push(c).drop_last() =~= sa.drop_first());
                    }
                    assert(path_components(j) =~= path_components(acc).push(c));
                } else {
                    assert(ps[0] == sa[0]);
                    assert(path_components(j) =~= path_components(acc).push(c));
                }
                assert(cs =~= cs0.push(c));
                assert(j.last() == c.last());
                if c.last() == '/' {
                    assert(c.contains('/'));
                }
            }
        }
    }
}

proof fn lemma_first_piece_nonempty(s: Seq<char>)
    requires
        s.len() > 0,
        s[0] != '/',
    ensures
        split_pieces(s)[0].len() > 0,
    decreases s.len(),
{
    let p = split_pieces(s.drop_last());
    lemma_split_pieces_nonempty(s.drop_last());
    if s.len() == 1 {
        assert(s.drop_last() =~= Seq::<char>::empty());
        assert(s.last() == s[0]);
    } else {
        lemma_first_piece_nonempty(s.drop_last());
        if s.last() != '/' && p.len() == 1 {
            assert(split_pieces(s)[0] == p[0].push(s.last()));
        } else {
            assert(split_pieces(s)[0] == p[0]);
        }
    }
}

/// A non-empty path has at least one component.
pub proof fn lemma_components_nonempty(s: Seq<char>)
    requires
        s.len() > 0,
    ensures
        path_components(s).len() > 0,
{
    if !is_absolute(s) {
        lemma_first_piece_nonempty(s);
        let ps = split_pieces(s);
        lemma_split_pieces_nonempty(s);
        if ps[0] != seq!['.'] {
            assert(ps =~= seq![ps[0]] + ps.drop_first());
            lemma_kept_starts(ps);
        }
    }
}

proof fn lemma_kept_starts(ps: Seq<Seq<char>>)
    requires
        ps.len() > 0,
        keep_piece(ps[0]),
    ensures
        kept_pieces(ps).len() > 0,
    decreases ps.len(),
{
    if ps.len() == 1 {
        assert(ps =~= seq![ps[0]]);
        lemma_kept_one(ps[0]);
    } else {
        lemma_kept_starts(ps.drop_last());
        lemma_kept_push(ps.drop_last(), ps.last());
        assert(ps.drop_last().push(ps.last()) =~= ps);
    }
}

/// A prefix of a valid component sequence is valid.
pub proof fn lemma_take_valid(cs: Seq<Seq<char>>, n: int)
    requires
        valid_components(cs),
        0 <= n <= cs.len(),
    ensures
        valid_components(cs.take(n)),
{
    assert forall|i: int| 0 <= i < cs.take(n).len() implies is_name(#[trigger] cs.take(n)[i]) || (i == 0 && (
    cs.take(n)[i] == seq!['/'] || cs.take(n)[i] == seq!['.'])) by {
        assert(cs.take(n)[i] == cs[i]);
    }
}

/// What is left of a valid component sequence once at least one leading
/// component is dropped is valid.
pub proof fn lemma_skip_valid(cs: Seq<Seq<char>>, n: int)
    requires
        valid_components(cs),
        1 <= n <= cs.len(),
    ensures
        valid_components(cs.skip(n)),
{
    assert forall|i: int| 0 <= i < cs.skip(n).len() implies is_name(#[trigger] cs.skip(n)[i]) || (i == 0 && (
    cs.skip(n)[i] == seq!['/'] || cs.skip(n)[i] == seq!['.'])) by {
        assert(cs.skip(n)[i] == cs[i + n]);
        assert(is_name(cs[i + n]));
    }
}

/// How many leading pieces of `ps` hold its first `n` real components (all
/// of `ps` when it holds fewer).
pub open spec fn kept_prefix_len(ps: Seq<Seq<char>>, n: nat) -> int
    decreases ps.len(),
{
    if n == 0 || ps.len() == 0 {
        0
    } else if keep_piece(ps[0]) {
        1 + kept_prefix_len(ps.drop_first(), (n - 1) as nat)
    } else {
        1 + kept_prefix_len(ps.drop_first(), n)
    }
}

/// How many leading pieces of `ps` are not real components.
pub open spec fn front_trim(ps: Seq<Seq<char>>) -> int
    decreases ps.len(),
{
    if ps.len() == 0 || keep_piece(ps[0]) {
        0
    } else {
        1 + front_trim(ps.drop_first())
    }
}

/// The length of `ps` once its trailing pieces that are not real
/// components are dropped.
pub open spec fn back_keep(ps: Seq<Seq<char>>) -> int
    decreases ps.len(),
{
    if ps.len() == 0 || keep_piece(ps.last()) {
        ps.len() as int
    } else {
        back_keep(ps.drop_last())
    }
}

/// What is left of `s` once its first `k` components are taken off, as raw
/// text: the pieces after them, without leading and trailing pieces that
/// are empty or `.`, joined by `/` — doubled separators and `.` pieces in
/// between stay as written. With `k == 0` it is `s` itself.
pub open spec fn raw_remainder(s: Seq<char>, k: int) -> Seq<char> {
    if k <= 0 {
        s
    } else {
        let ps = split_pieces(s);
        let lead: int = if is_absolute(s) || ps[0] == seq!['.'] { 1 } else { 0 };
        let start = lead + kept_prefix_len(ps.skip(lead), (k - lead) as nat);
        let rest = ps.skip(start);
        let rest2 = rest.skip(front_trim(rest));
        join_with(rest2.take(back_keep(rest2)), seq!['/'])
    }
}

proof fn lemma_kept_prefix_len_bound(ps: Seq<Seq<char>>, n: nat)
    ensures
        0 <= kept_prefix_len(ps, n) <= ps.len(),
    decreases ps.len(),
{
    if n > 0 && ps.len() > 0 {
        if keep_piece(ps[0]) {
            lemma_kept_prefix_len_bound(ps.drop_first(), (n - 1) as nat);
        } else {
            lemma_kept_prefix_len_bound(ps.drop_first(), n);
        }
    }
}

proof fn lemma_front_trim_bound(ps: Seq<Seq<char>>)
    ensures
        0 <= front_trim(ps) <= ps.len(),
    decreases ps.len(),
{
    if ps.len() > 0 && !keep_piece(ps[0]) {
        lemma_front_trim_bound(ps.drop_first());
    }
}

proof fn lemma_back_keep_bound(ps: Seq<Seq<char>>)
    ensures
        0 <= back_keep(ps) <= ps.len(),
    decreases ps.len(),
{
    if ps.len() > 0 && !keep_piece(ps.last()) {
        lemma_back_keep_bound(ps.drop_last());
    }
}

/// Whether a piece is a real component (see [`keep_piece`]).
fn piece_kept(p: &String) -> (r: bool)
    ensures
        r == keep_piece(p@),
{
    let keep = p.unicode_len() > 0 && !(p.unicode_len() == 1 && p.as_str().get_char(0) == '.');
    proof {
        if p@.len() == 1 && p@[0] == '.' {
            assert(p@ =~= seq!['.']);
        }
        if p@ == seq!['.'] {
            assert(p@.len() == 1 && p@[0] == '.');
        }
    }
    keep
}

/// `s` with its first `k` components taken off, as raw text (see
/// [`raw_remainder`]).
pub fn remainder_after(s: &str, k: usize) -> (r: String)
    ensures
        r@ == raw_remainder(s@, k as int),
{
    let cs = chars_of(s);
    if k == 0 {
        let mut out = String::new();
        push_str(&mut out, s);
        assert(out@ =~= s@);
        return out;
    }
    let ps = pieces_of(&cs);
    let ghost pv = strs(ps@);
    proof {
        lemma_split_pieces_nonempty(s@);
    }
    let lead: usize = if (cs.len() > 0 && cs[0] == '/') || (ps[0].unicode_len() == 1 && ps[0].as_str().get_char(0) == '.') {
        1
    } else {
        0
    };
    proof {
        if ps@[0]@.len() == 1 && ps@[0]@[0] == '.' {
            assert(ps@[0]@ =~= seq!['.']);
        }
        if pv[0] == seq!['.'] {
            assert(ps@[0]@.len() == 1 && ps@[0]@[0] == '.');
        }
    }
    let need: usize = k - lead;
    let mut i: usize = lead;
    let mut c: usize = 0;
    proof {
        lemma_kept_prefix_len_bound(pv.skip(lead as int), need as nat);
    }
    while c < need && i < ps.len()
        invariant
            pv == strs(ps@),
            lead <= i <= ps.len(),
            c <= need,
            lead + kept_prefix_len(pv.skip(lead as int), need as nat) == i + kept_prefix_len(
                pv.skip(i as int),
                (need - c) as nat,
            ),
        decreases ps.len() - i,
    {
        assert(pv.skip(i as int).drop_first() =~= pv.skip(i + 1));
        assert(pv.skip(i as int)[0] == ps@[i as int]@);
        if piece_kept(&ps[i]) {
            c = c + 1;
        }
        i = i + 1;
    }
    assert(kept_prefix_len(pv.skip(i as int), (need - c) as nat) == 0);
    let ghost rest = pv.skip(i as int);
    let mut f: usize = i;
    while f < ps.len() && !piece_kept(&ps[f])
        invariant
            pv == strs(ps@),
            i <= f <= ps.len(),
            rest == pv.skip(i as int),
            front_trim(rest) == (f - i) + front_trim(pv.skip(f as int)),
        decreases ps.len() - f,
    {
        assert(pv.skip(f as int).drop_first() =~= pv.skip(f + 1));
        assert(pv.skip(f as int)[0] == ps@[f as int]@);
        f = f + 1;
    }
    proof {
        if f < ps.len() {
            assert(pv.skip(f as int)[0] == ps@[f as int]@);
        }
        assert(rest.skip(front_trim(rest)) =~= pv.skip(f as int));
    }
    let ghost rest2 = pv.skip(f as int);
    let mut e: usize = ps.len();
    assert(rest2.take((e - f) as int) =~= rest2);
    while e > f && !piece_kept(&ps[e - 1])
        invariant
            pv == strs(ps@),
            f <= e <= ps.len(),
            rest2 == pv.skip(f as int),
            back_keep(rest2) == back_keep(rest2.take((e - f) as int)),
        decreases e,
    {
        let ghost t = rest2.take((e - f) as int);
        assert(t.last() == ps@[e - 1]@);
        assert(t.drop_last() =~= rest2.take((e - 1 - f) as int));
        e = e - 1;
    }
    proof {
        let t = rest2.take((e - f) as int);
        if e > f {
            assert(t.last() == ps@[e - 1]@);
        }
        assert(back_keep(t) == t.len());
    }
    let mut kept: Vec<String> = Vec::new();
    let mut j: usize = f;
    assert(pv.subrange(f as int, f as int) =~= Seq::<Seq<char>>::empty());
    while j < e
        invariant
            pv == strs(ps@),
            f <= j <= e,
            e <= ps.len(),
            strs(kept@) == pv.subrange(f as int, j as int),
        decreases e - j,
    {
        let piece = ps[j].clone();
        let ghost before = kept@;
        kept.push(piece);
        assert(strs(kept@) =~= strs(before).push(ps@[j as int]@));
        assert(strs(kept@) =~= pv.subrange(f as int, j + 1));
        j = j + 1;
    }
    assert(pv.subrange(f as int, e as int) =~= rest2.take(back_keep(rest2)));
    let mut out = String::new();
    push_joined(&mut out, &kept, "/");
    proof {
        reveal_strlit("/");
        assert("/"@ =~= seq!['/']);
        assert(kept@.map_values(|p: String| p@) =~= strs(kept@));
        assert(Seq::<char>::empty() + join_with(strs(kept@), seq!['/']) =~= join_with(strs(kept@), seq!['/']));
    }
    out
}

/// Split `cs` into its raw pieces (see [`split_pieces`]).
pub(crate) fn pieces_of(cs: &Vec<char>) -> (out: Vec<String>)
    ensures
        strs(out@) == split_pieces(cs@),
{
    let mut done: Vec<String> = Vec::new();
    let mut cur = String::new();
    let mut i: usize = 0;
    proof {
        assert(cs@.take(0) =~= Seq::<char>::empty());
        assert(strs(done@).push(cur@) =~= split_pieces(cs@.take(0)));
    }
    while i < cs.len()
        invariant
            i <= cs.len(),
            strs(done@).push(cur@) == split_pieces(cs@.take(i as int)),
        decreases cs.len() - i,
    {
        let c = cs[i];
        let ghost prev = cs@.take(i as int);
        assert(cs@.take(i + 1).drop_last() =~= prev);
        assert(cs@.take(i + 1).last() == c);
        if c == '/' {
            let finished = cur;
            done.push(finished);
            cur = String::new();
            assert(strs(done@).push(cur@) =~= split_pieces(prev).push(Seq::<char>::empty()));
        } else {
            let ghost before = cur@;
            push_char(&mut cur, c);
            assert(strs(done@).push(cur@) =~= split_pieces(prev).update(
                split_pieces(prev).len() - 1,
                before.push(c),
            ));
        }
        i = i + 1;
    }
    assert(cs@.take(cs.len() as int) =~= cs@);
    done.push(cur);
    assert(strs(done@) =~= split_pieces(cs@));
    done
}

/// Keep the real components among `ps[start..]`.
fn keep_from(ps: &Vec<String>, start: usize) -> (out: Vec<String>)
    requires
        start <= ps.len(),
    ensures
        strs(out@) == kept_pieces(strs(ps@).skip(start as int)),
{
    let mut out: Vec<String> = Vec::new();
    let mut j: usize = start;
    assert(strs(ps@).subrange(start as int, start as int) =~= Seq::<Seq<char>>::empty());
    while j < ps.len()
        invariant
            start <= j <= ps.len(),
            strs(out@) == kept_pieces(strs(ps@).subrange(start as int, j as int)),
        decreases ps.len() - j,
    {
        let ghost sub = strs(ps@).subrange(start as int, j + 1);
        assert(sub.drop_last() =~= strs(ps@).subrange(start as int, j as int));
        assert(sub.last() == ps@[j as int]@);
        let p = &ps[j];
        let keep = p.unicode_len() > 0 && !(p.unicode_len() == 1 && p.as_str().get_char(0) == '.');
        proof {
            if p@.len() == 1 && p@[0] == '.' {
                assert(p@ =~= seq!['.']);
            }
            if p@ == seq!['.'] {
                assert(p@.len() == 1 && p@[0] == '.');
            }
        }
        if keep {
            out.push(p.clone());
        }
        assert(strs(out@) =~= kept_pieces(sub));
        j = j + 1;
    }
    assert(strs(ps@).subrange(start as int, ps.len() as int) =~= strs(ps@).skip(start as int));
    out
}

/// The components of `path` (see [`path_components`]).
pub fn components(path: &str) -> (out: Vec<String>)
    ensures
        strs(out@) == path_components(path@),
{
    let cs = chars_of(path);
    let ps = pieces_of(&cs);
    proof {
        lemma_split_pieces_nonempty(path@);
    }
    assert(strs(ps@).skip(0) =~= strs(ps@));
    if cs.len() > 0 && cs[0] == '/' {
        let rest = keep_from(&ps, 0);
        let mut out: Vec<String> = Vec::new();
        let mut root = String::new();
        push_char(&mut root, '/');
        out.push(root);
        let mut r = rest;
        out.append(&mut r);
        assert(strs(out@) =~= seq![seq!['/']] + kept_pieces(split_pieces(path@)));
        out
    } else {
        let p0 = &ps[0];
        let dot = p0.unicode_len() == 1 && p0.as_str().get_char(0) == '.';
        proof {
            if p0@.len() == 1 && p0@[0] == '.' {
                assert(p0@ =~= seq!['.']);
            }
        }
        if dot {
            let rest = keep_from(&ps, 1);
            let mut out: Vec<String> = Vec::new();
            let mut d = String::new();
            push_char(&mut d, '.');
            out.push(d);
            let mut r = rest;
            out.append(&mut r);
            assert(strs(ps@).skip(1) =~= split_pieces(path@).drop_first());
            assert(strs(out@) =~= seq![seq!['.']] + kept_pieces(split_pieces(path@).drop_first()));
            out
        } else {
            keep_from(&ps, 0)
        }
    }
}

/// The path string that `cs` collects into (see [`join_path`]).
pub fn collect_path(cs: &Vec<String>) -> (out: String)
    ensures
        out@ == join_path(strs(cs@)),
{
    let mut out = String::new();
    let mut i: usize = 0;
    assert(strs(cs@).take(0) =~= Seq::<Seq<char>>::empty());
    while i < cs.len()
        invariant
            i <= cs.len(),
            out@ == join_path(strs(cs@).take(i as int)),
        decreases cs.len() - i,
    {
        assert(strs(cs@).take(i + 1).drop_last() =~= strs(cs@).take(i as int));
        let n = out.unicode_len();
        if n == 0 {
            push_str(&mut out, cs[i].as_str());
            assert(out@ =~= strs(cs@)[i as int]);
        } else if out.as_str().get_char(n - 1) == '/' {
            push_str(&mut out, cs[i].as_str());
        } else {
            push_char(&mut out, '/');
            push_str(&mut out, cs[i].as_str());
        }
        i = i + 1;
    }
    assert(strs(cs@).take(cs.len() as int) =~= strs(cs@));
    out
}

/// Whether two component lists are equal, component by component.
pub fn same_components(a: &Vec<String>, b: &Vec<String>) -> (r: bool)
    ensures
        r == (strs(a@) == strs(b@)),
{
    if a.len() != b.len() {
        assert(strs(a@).len() != strs(b@).len());
        return false;
    }
    let mut i: usize = 0;
    while i < a.len()
        invariant
            a.len() == b.len(),
            i <= a.len(),
            forall|k: int| 0 <= k < i ==> a@[k]@ == b@[k]@,
        decreases a.len() - i,
    {
        if a[i] != b[i] {
            assert(strs(a@)[i as int] != strs(b@)[i as int]);
            return false;
        }
        i = i + 1;
    }
    assert(strs(a@) =~= strs(b@));
    true
}

/// Whether `needle` is a component-wise suffix of `hay`, given as component
/// lists.
pub fn has_suffix_components(hay: &Vec<String>, needle: &Vec<String>) -> (r: bool)
    ensures
        r == is_suffix_of(strs(needle@), strs(hay@)),
{
    if needle.len() > hay.len() {
        return false;
    }
    let off = hay.len() - needle.len();
    let mut i: usize = 0;
    while i < needle.len()
        invariant
            off + needle.len() == hay.len(),
            i <= needle.len(),
            forall|k: int| 0 <= k < i ==> hay@[off + k]@ == needle@[k]@,
        decreases needle.len() - i,
    {
        if hay[off + i] != needle[i] {
            assert(strs(hay@).skip(off as int)[i as int] != strs(needle@)[i as int]);
            return false;
        }
        i = i + 1;
    }
    assert(strs(hay@).skip(off as int) =~= strs(needle@));
    true
}

/// Whether `prefix` is a component-wise prefix of `path`, given as
/// component lists.
pub fn has_prefix_components(path: &Vec<String>, prefix: &Vec<String>) -> (r: bool)
    ensures
        r == is_prefix_of(strs(prefix@), strs(path@)),
{
    if prefix.len() > path.len() {
        return false;
    }
    let mut i: usize = 0;
    while i < prefix.len()
        invariant
            prefix.len() <= path.len(),
            i <= prefix.len(),
            forall|k: int| 0 <= k < i ==> path@[k]@ == prefix@[k]@,
        decreases prefix.len() - i,
    {
        if path[i] != prefix[i] {
            assert(strs(path@).take(prefix.len() as int)[i as int] != strs(prefix@)[i as int]);
            return false;
        }
        i = i + 1;
    }
    assert(strs(path@).take(prefix.len() as int) =~= strs(prefix@));
    true
}

/// True if `haystack` ends with `needle`, compared component by component:
/// `foo/bar.rs` is a suffix of `/p/foo/bar.rs` but not of `/p/oofoo/bar.rs`.
pub fn path_has_suffix(haystack: &str, needle: &str) -> (r: bool)
    ensures
        r == is_suffix_of(path_components(needle@), path_components(haystack@)),
{
    let h = components(haystack);
    let n = components(needle);
    has_suffix_components(&h, &n)
}

/// Whether `path` starts with `base`, compared component by component.
pub fn path_starts_with(path: &str, base: &str) -> (r: bool)
    ensures
        r == is_prefix_of(path_components(base@), path_components(path@)),
{
    let p = components(path);
    let b = components(base);
    has_prefix_components(&p, &b)
}

/// The rank of a component's kind in path order: the root, then `.`, then
/// `..`, then ordinary names.
pub open spec fn comp_rank(c: Seq<char>) -> int {
    if c == seq!['/'] {
        1
    } else if c == seq!['.'] {
        2
    } else if c == seq!['.', '.'] {
        3
    } else {
        4
    }
}

/// Lexicographic order on character sequences by code point (the same as
/// byte order on their UTF-8 encodings).
pub open spec fn chars_lt(a: Seq<char>, b: Seq<char>) -> bool
    decreases a.len(),
{
    if a.len() == 0 {
        b.len() > 0
    } else if b.len() == 0 {
        false
    } else if a[0] < b[0] {
        true
    } else if a[0] == b[0] {
        chars_lt(a.drop_first(), b.drop_first())
    } else {
        false
    }
}

/// Order on single components: by kind, then by text.
pub open spec fn comp_lt(a: Seq<char>, b: Seq<char>) -> bool {
    comp_rank(a) < comp_rank(b) || (comp_rank(a) == comp_rank(b) && chars_lt(a, b))
}

/// Lexicographic order on component sequences.
pub open spec fn comps_lt(a: Seq<Seq<char>>, b: Seq<Seq<char>>) -> bool
    decreases a.len(),
{
    if a.len() == 0 {
        b.len() > 0
    } else if b.len() == 0 {
        false
    } else if comp_lt(a[0], b[0]) {
        true
    } else if a[0] == b[0] {
        comps_lt(a.drop_first(), b.drop_first())
    } else {
        false
    }
}

/// Path order: paths compare component by component.
pub open spec fn path_lt(a: Seq<char>, b: Seq<char>) -> bool {
    comps_lt(path_components(a), path_components(b))
}

pub proof fn lemma_chars_lt_eq_or(a: Seq<char>, b: Seq<char>)
    ensures
        chars_lt(a, b) || chars_lt(b, a) || a == b,
        !(chars_lt(a, b) && chars_lt(b, a)),
        !chars_lt(a, a),
    decreases a.len(),
{
    if a.len() > 0 && b.len() > 0 && a[0] == b[0] {
        lemma_chars_lt_eq_or(a.drop_first(), b.drop_first());
        if a.drop_first() == b.drop_first() {
            assert(a =~= seq![a[0]] + a.drop_first());
            assert(b =~= seq![b[0]] + b.drop_first());
        }
    } else if a.len() == 0 && b.len() == 0 {
        assert(a =~= b);
    }
    if a.len() > 0 {
        lemma_chars_lt_eq_or(a.drop_first(), a.drop_first());
    }
}

pub proof fn lemma_chars_lt_trans(a: Seq<char>, b: Seq<char>, c: Seq<char>)
    requires
        chars_lt(a, b),
        chars_lt(b, c),
    ensures
        chars_lt(a, c),
    decreases a.len(),
{
    if a.len() > 0 && b.len() > 0 && c.len() > 0 && a[0] == b[0] && b[0] == c[0] {
        lemma_chars_lt_trans(a.drop_first(), b.drop_first(), c.drop_first());
    }
}

/// `comp_lt` is a strict total order on components.
pub proof fn lemma_comp_lt_total(a: Seq<char>, b: Seq<char>)
    ensures
        comp_lt(a, b) || comp_lt(b, a) || a == b,
        !(comp_lt(a, b) && comp_lt(b, a)),
        !comp_lt(a, a),
{
    lemma_chars_lt_eq_or(a, b);
}

proof fn lemma_comp_lt_trans(a: Seq<char>, b: Seq<char>, c: Seq<char>)
    requires
        comp_lt(a, b),
        comp_lt(b, c),
    ensures
        comp_lt(a, c),
{
    if comp_rank(a) == comp_rank(b) && comp_rank(b) == comp_rank(c) {
        lemma_chars_lt_trans(a, b, c);
    }
}

/// `comps_lt` is a strict total order on component sequences.
pub proof fn lemma_comps_lt_total(a: Seq<Seq<char>>, b: Seq<Seq<char>>)
    ensures
        comps_lt(a, b) || comps_lt(b, a) || a == b,
        !(comps_lt(a, b) && comps_lt(b, a)),
        !comps_lt(a, a),
    decreases a.len(),
{
    if a.len() > 0 && b.len() > 0 {
        lemma_comp_lt_total(a[0], b[0]);
        if a[0] == b[0] {
            lemma_comps_lt_total(a.drop_first(), b.drop_first());
            if a.drop_first() == b.drop_first() {
                assert(a =~= seq![a[0]] + a.drop_first());
                assert(b =~= seq![b[0]] + b.drop_first());
            }
        }
    } else if a.len() == 0 && b.len() == 0 {
        assert(a =~= b);
    }
    if a.len() > 0 {
        lemma_comp_lt_total(a[0], a[0]);
        lemma_comps_lt_total(a.drop_first(), a.drop_first());
    }
}

/// `comps_lt` is transitive.
pub proof fn lemma_comps_lt_trans(a: Seq<Seq<char>>, b: Seq<Seq<char>>, c: Seq<Seq<char>>)
    requires
        comps_lt(a, b),
        comps_lt(b, c),
    ensures
        comps_lt(a, c),
    decreases a.len(),
{
    if a.len() > 0 && b.len() > 0 && c.len() > 0 {
        lemma_comp_lt_total(a[0], b[0]);
        lemma_comp_lt_total(b[0], c[0]);
        if comp_lt(a[0], b[0]) && comp_lt(b[0], c[0]) {
            lemma_comp_lt_trans(a[0], b[0], c[0]);
        } else if a[0] == b[0] && b[0] == c[0] {
            lemma_comps_lt_trans(a.drop_first(), b.drop_first(), c.drop_first());
        }
    }
}

fn comp_rank_of(c: &Vec<char>) -> (r: u8)
    ensures
        r as int == comp_rank(c@),
{
    if c.len() == 1 && c[0] == '/' {
        assert(c@ =~= seq!['/']);
        1
    } else if c.len() == 1 && c[0] == '.' {
        assert(c@ =~= seq!['.']);
        assert(c@ != seq!['/']);
        2
    } else if c.len() == 2 && c[0] == '.' && c[1] == '.' {
        assert(c@ =~= seq!['.', '.']);
        assert(c@ != seq!['/']);
        assert(c@ != seq!['.']);
        3
    } else {
        proof {
            if c@ == seq!['/'] {
                assert(c@.len() == 1 && c@[0] == '/');
            }
            if c@ == seq!['.'] {
                assert(c@.len() == 1 && c@[0] == '.');
            }
            if c@ == seq!['.', '.'] {
                assert(c@.len() == 2 && c@[0] == '.' && c@[1] == '.');
            }
        }
        4
    }
}

/// Code-point lexicographic comparison of two character vectors.
pub fn chars_less(a: &Vec<char>, b: &Vec<char>) -> (r: bool)
    ensures
        r == chars_lt(a@, b@),
{
    let mut i: usize = 0;
    assert(a@.skip(0) =~= a@);
    assert(b@.skip(0) =~= b@);
    while i < a.len() && i < b.len()
        invariant
            i <= a.len(),
            i <= b.len(),
            chars_lt(a@, b@) == chars_lt(a@.skip(i as int), b@.skip(i as int)),
        decreases a.len() - i,
    {
        let x = a[i];
        let y = b[i];
        assert(a@.skip(i as int)[0] == x);
        assert(b@.skip(i as int)[0] == y);
        if x < y {
            return true;
        }
        if x != y {
            return false;
        }
        assert(a@.skip(i as int).drop_first() =~= a@.skip(i + 1));
        assert(b@.skip(i as int).drop_first() =~= b@.skip(i + 1));
        i = i + 1;
    }
    i == a.len() && i < b.len()
}

fn comp_less(a: &String, b: &String) -> (r: bool)
    ensures
        r == comp_lt(a@, b@),
{
    let ca = chars_of(a.as_str());
    let cb = chars_of(b.as_str());
    let ra = comp_rank_of(&ca);
    let rb = comp_rank_of(&cb);
    ra < rb || (ra == rb && chars_less(&ca, &cb))
}

/// Lexicographic comparison of two component lists.
pub fn components_less(a: &Vec<String>, b: &Vec<String>) -> (r: bool)
    ensures
        r == comps_lt(strs(a@), strs(b@)),
{
    let mut i: usize = 0;
    assert(strs(a@).skip(0) =~= strs(a@));
    assert(strs(b@).skip(0) =~= strs(b@));
    while i < a.len() && i < b.len()
        invariant
            i <= a.len(),
            i <= b.len(),
            comps_lt(strs(a@), strs(b@)) == comps_lt(strs(a@).skip(i as int), strs(b@).skip(i as int)),
        decreases a.len() - i,
    {
        assert(strs(a@).skip(i as int)[0] == a@[i as int]@);
        assert(strs(b@).skip(i as int)[0] == b@[i as int]@);
        if comp_less(&a[i], &b[i]) {
            return true;
        }
        if a[i] != b[i] {
            return false;
        }
        assert(strs(a@).skip(i as int).drop_first() =~= strs(a@).skip(i + 1));
        assert(strs(b@).skip(i as int).drop_first() =~= strs(b@).skip(i + 1));
        i = i + 1;
    }
    i == a.len() && i < b.len()
}

/// Whether `a` sorts before `b` in path order.
pub fn path_less(a: &str, b: &str) -> (r: bool)
    ensures
        r == path_lt(a@, b@),
{
    components_less(&components(a), &components(b))
}

} // verus!
