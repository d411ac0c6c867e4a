//! Per-crate rollups for workspace runs: how many functions each crate
//! has, and how many of them exceed the threshold.

use vstd::prelude::*;

use crate::paths::{chars_lt, lemma_chars_lt_eq_or, lemma_chars_lt_trans, chars_less};
use crate::text::{chars_of, push_decimal, push_str, decimal};

verus! {

/// One row of the per-crate rollup.
#[derive(Debug, Clone)]
pub struct CrateRollup {
    pub name: String,
    pub total: usize,
    pub crappy: usize,
}

/// How many of `crates` are tagged with the crate `n`.
pub open spec fn tagged(crates: Seq<Option<String>>, n: Seq<char>) -> nat
    decreases crates.len(),
{
    if crates.len() == 0 {
        0
    } else {
        tagged(crates.drop_last(), n) + if crates.last() matches Some(m) && m@ == n { 1nat } else { 0nat }
    }
}

/// How many of `crates` are tagged with the crate `n` and flagged crappy.
pub open spec fn tagged_crappy(crates: Seq<Option<String>>, crappy: Seq<bool>, n: Seq<char>) -> nat
    decreases crates.len(),
{
    if crates.len() == 0 {
        0
    } else {
        tagged_crappy(crates.drop_last(), crappy.drop_last(), n) + if crates.last() matches Some(m) && m@ == n
            && crappy.last() {
            1nat
        } else {
            0nat
        }
    }
}

/// `r` is the rollup of the entries tagged `crates` with crappy flags
/// `crappy`: one row per crate that tags an entry, in name order, with the
/// crate's entry count and crappy count.
pub open spec fn is_rollup(crates: Seq<Option<String>>, crappy: Seq<bool>, r: Seq<CrateRollup>) -> bool {
    &&& forall|k: int, l: int| 0 <= k < l < r.len() ==> chars_lt(#[trigger] r[k].name@, #[trigger] r[l].name@)
    &&& forall|k: int|
        0 <= k < r.len() ==> {
            &&& #[trigger] r[k].total == tagged(crates, r[k].name@)
            &&& r[k].crappy == tagged_crappy(crates, crappy, r[k].name@)
            &&& r[k].total > 0
        }
    &&& forall|i: int|
        0 <= i < crates.len() && #[trigger] crates[i] is Some ==> exists|k: int|
            0 <= k < r.len() && r[k].name@ == crates[i]->0@
}

proof fn lemma_tagged_step(crates: Seq<Option<String>>, crappy: Seq<bool>, i: int, n: Seq<char>)
    requires
        0 <= i < crates.len(),
        crates.len() == crappy.len(),
    ensures
        tagged(crates.take(i + 1), n) == tagged(crates.take(i), n) + if crates[i] matches Some(m) && m@ == n { 1nat } else { 0nat },
        tagged_crappy(crates.take(i + 1), crappy.take(i + 1), n) == tagged_crappy(crates.take(i), crappy.take(i), n)
            + if crates[i] matches Some(m) && m@ == n && crappy[i] { 1nat } else { 0nat },
        tagged_crappy(crates.take(i), crappy.take(i), n) <= tagged(crates.take(i), n),
        tagged(crates.take(i), n) <= i,
{
    assert(crates.take(i + 1).drop_last() =~= crates.take(i));
    assert(crappy.take(i + 1).drop_last() =~= crappy.take(i));
    lemma_tagged_bounds(crates.take(i), crappy.take(i), n);
}

proof fn lemma_tagged_bounds(crates: Seq<Option<String>>, crappy: Seq<bool>, n: Seq<char>)
    ensures
        tagged_crappy(crates, crappy, n) <= tagged(crates, n),
        tagged(crates, n) <= crates.len(),
    decreases crates.len(),
{
    if crates.len() > 0 {
        lemma_tagged_bounds(crates.drop_last(), crappy.drop_last(), n);
    }
}

/// Aggregate entries by crate (see [`is_rollup`]): `crates[i]` is the crate
/// entry `i` belongs to, `crappy[i]` whether it exceeds the threshold.
/// Entries without a crate are left out.
pub fn crate_rollups(crates: &Vec<Option<String>>, crappy: &Vec<bool>) -> (r: Vec<CrateRollup>)
    requires
        crates.len() == crappy.len(),
    ensures
        is_rollup(crates@, crappy@, r@),
{
    let mut out: Vec<CrateRollup> = Vec::new();
    let mut i: usize = 0;
    assert(crates@.take(0) =~= Seq::<Option<String>>::empty());
    assert(crappy@.take(0) =~= Seq::<bool>::empty());
    while i < crates.len()
        invariant
            i <= crates.len(),
            crates.len() == crappy.len(),
            is_rollup(crates@.take(i as int), crappy@.take(i as int), out@),
            forall|k: int| 0 <= k < out@.len() ==> #[trigger] out@[k].total <= i,
        decreases crates.len() - i,
    {
        let ghost old_out = out@;
        let ghost pre = crates@.take(i as int);
        let ghost pre_f = crappy@.take(i as int);
        let ghost post = crates@.take(i + 1);
        let ghost post_f = crappy@.take(i + 1);
        proof {
            assert forall|n: Seq<char>| true implies tagged(post, n) == tagged(pre, n) + (if crates@[i as int] matches Some(m)
                && m@ == n { 1nat } else { 0nat }) && tagged_crappy(post, post_f, n) == tagged_crappy(pre, pre_f, n) + (
            if crates@[i as int] matches Some(m) && m@ == n && crappy@[i as int] { 1nat } else { 0nat }) && tagged(pre, n) <= i by {
                lemma_tagged_step(crates@, crappy@, i as int, n);
            }
        }
        match &crates[i] {
            None => {
                proof {
                    assert forall|j: int| 0 <= j < post.len() && #[trigger] post[j] is Some implies exists|k: int|
                        0 <= k < out@.len() && out@[k].name@ == post[j]->0@ by {
                        assert(pre[j] == post[j]);
                    }
                }
            },
            Some(name) => {
                let nc = chars_of(name.as_str());
                let mut p: usize = 0;
                while p < out.len() && chars_less(&chars_of(out[p].name.as_str()), &nc)
                    invariant
                        p <= out@.len(),
                        nc@ == name@,
                        forall|k: int| 0 <= k < p ==> chars_lt(#[trigger] out@[k].name@, name@),
                    decreases out@.len() - p,
                {
                    p = p + 1;
                }
                let found = p < out.len() && out[p].name == *name;
                if found {
                    let flag = crappy[i];
                    let t = out[p].total;
                    let c = out[p].crappy;
                    proof {
                        lemma_tagged_bounds(pre, pre_f, name@);
                    }
                    let row = CrateRollup {
                        name: out[p].name.clone(),
                        total: t + 1,
                        crappy: if flag { c + 1 } else { c },
                    };
                    out.set(p, row);
                    proof {
                        assert forall|k: int| 0 <= k < out@.len() implies {
                            &&& #[trigger] out@[k].total == tagged(post, out@[k].name@)
                            &&& out@[k].crappy == tagged_crappy(post, post_f, out@[k].name@)
                            &&& out@[k].total > 0
                        } by {
                            lemma_tagged_step(crates@, crappy@, i as int, out@[k].name@);
                            if k == p {
                                assert(old_out[p as int].name@ == name@);
                                assert(old_out[p as int].total == tagged(pre, name@));
                                assert(out@[p as int].name@ == name@);
                                assert(out@[p as int].total == old_out[p as int].total + 1);
                                assert(crates@[i as int] matches Some(m) && m@ == name@);
                                assert(tagged(post, name@) == tagged(pre, name@) + 1);
                                assert(old_out[p as int].crappy == tagged_crappy(pre, pre_f, name@));
                                assert(out@[p as int].crappy == tagged_crappy(post, post_f, name@));
                            }
                            if k != p {
                                assert(out@[k] == old_out[k]);
                                if old_out[k].name@ == name@ {
                                    if k < p {
                                        lemma_chars_lt_eq_or(name@, name@);
                                    } else {
                                        lemma_chars_lt_eq_or(name@, name@);
                                        assert(chars_lt(old_out[p as int].name@, old_out[k].name@));
                                    }
                                }
                                assert(old_out[k].name@ != name@);
                                assert(old_out[k].total == tagged(pre, old_out[k].name@));
                                assert(tagged(post, old_out[k].name@) == tagged(pre, old_out[k].name@));
                                assert(old_out[k].crappy == tagged_crappy(pre, pre_f, old_out[k].name@));
                            }
                        }
                        assert forall|k: int, l: int| 0 <= k < l < out@.len() implies chars_lt(
                            #[trigger] out@[k].name@,
                            #[trigger] out@[l].name@,
                        ) by {
                            assert(old_out[k].name@ == out@[k].name@);
                            assert(old_out[l].name@ == out@[l].name@);
                        }
                        assert forall|j: int| 0 <= j < post.len() && #[trigger] post[j] is Some implies exists|k: int|
                            0 <= k < out@.len() && out@[k].name@ == post[j]->0@ by {
                            if j < i {
                                assert(pre[j] == post[j]);
                                let k = choose|k: int| 0 <= k < old_out.len() && old_out[k].name@ == pre[j]->0@;
                                assert(out@[k].name@ == old_out[k].name@);
                            } else {
                                assert(out@[p as int].name@ == name@);
                            }
                        }
                    }
                } else {
                    let row = CrateRollup {
                        name: name.clone(),
                        total: 1,
                        crappy: if crappy[i] { 1 } else { 0 },
                    };
                    proof {
                        assert forall|k: int| 0 <= k < old_out.len() implies old_out[k].name@ != name@ by {
                            if k < p {
                                lemma_chars_lt_eq_or(old_out[k].name@, name@);
                            } else {
                                lemma_chars_lt_eq_or(old_out[p as int].name@, name@);
                                if k > p {
                                    if old_out[k].name@ == name@ {
                                        assert(chars_lt(old_out[p as int].name@, old_out[k].name@));
                                    }
                                }
                            }
                        }
                        lemma_tagged_bounds(pre, pre_f, name@);
                        if tagged(pre, name@) > 0 {
                            lemma_tagged_present(pre, name@);
                        }
                        if p < old_out.len() {
                            lemma_chars_lt_eq_or(old_out[p as int].name@, name@);
                        }
                    }
                    out.insert(p, row);
                    proof {
                        let s = out@;
                        assert(s == old_out.insert(p as int, row));
                        assert forall|k: int| 0 <= k < s.len() implies {
                            &&& #[trigger] s[k].total == tagged(post, s[k].name@)
                            &&& s[k].crappy == tagged_crappy(post, post_f, s[k].name@)
                            &&& s[k].total > 0
                        } by {
                            lemma_tagged_step(crates@, crappy@, i as int, s[k].name@);
                            if k < p {
                                assert(s[k] == old_out[k]);
                            } else if k > p {
                                assert(s[k] == old_out[k - 1]);
                            }
                        }
                        assert forall|k: int, l: int| 0 <= k < l < s.len() implies chars_lt(
                            #[trigger] s[k].name@,
                            #[trigger] s[l].name@,
                        ) by {
                            if l < p {
                                assert(s[k] == old_out[k] && s[l] == old_out[l]);
                            } else if l == p {
                                assert(s[k] == old_out[k]);
                            } else if k == p {
                                assert(s[l] == old_out[l - 1]);
                                if l - 1 > p {
                                    assert(chars_lt(old_out[p as int].name@, old_out[l - 1].name@));
                                    lemma_chars_lt_trans(name@, old_out[p as int].name@, old_out[l - 1].name@);
                                }
                            } else if k < p {
                                assert(s[k] == old_out[k] && s[l] == old_out[l - 1]);
                            } else {
                                assert(s[k] == old_out[k - 1] && s[l] == old_out[l - 1]);
                            }
                        }
                        assert forall|j: int| 0 <= j < post.len() && #[trigger] post[j] is Some implies exists|k: int|
                            0 <= k < s.len() && s[k].name@ == post[j]->0@ by {
                            if j < i {
                                assert(pre[j] == post[j]);
                                let k = choose|k: int| 0 <= k < old_out.len() && old_out[k].name@ == pre[j]->0@;
                                if k < p {
                                    assert(s[k] == old_out[k]);
                                } else {
                                    assert(s[k + 1] == old_out[k]);
                                }
                            } else {
                                assert(s[p as int].name@ == name@);
                            }
                        }
                        assert forall|k: int| 0 <= k < s.len() implies #[trigger] s[k].total <= i + 1 by {
                            if k < p {
                                assert(s[k] == old_out[k]);
                            } else if k > p {
                                assert(s[k] == old_out[k - 1]);
                            }
                        }
                    }
                }
            },
        }
        i = i + 1;
    }
    assert(crates@.take(crates.len() as int) =~= crates@);
    assert(crappy@.take(crappy.len() as int) =~= crappy@);
    out
}

proof fn lemma_tagged_present(crates: Seq<Option<String>>, n: Seq<char>)
    requires
        tagged(crates, n) > 0,
    ensures
        exists|i: int| 0 <= i < crates.len() && #[trigger] crates[i] is Some && crates[i]->0@ == n,
    decreases crates.len(),
{
    if crates.last() matches Some(m) && m@ == n {
        assert(crates[crates.len() - 1] is Some);
    } else {
        lemma_tagged_present(crates.drop_last(), n);
        let i = choose|i: int| 0 <= i < crates.drop_last().len() && #[trigger] crates.drop_last()[i] is Some
            && crates.drop_last()[i]->0@ == n;
        assert(crates[i] == crates.drop_last()[i]);
    }
}

/// Whether any entry carries a crate name (a workspace run).
pub fn has_crate_data(crates: &Vec<Option<String>>) -> (r: bool)
    ensures
        r == exists|i: int| 0 <= i < crates@.len() && #[trigger] crates@[i] is Some,
{
    let mut i: usize = 0;
    while i < crates.len()
        invariant
            i <= crates.len(),
            forall|k: int| 0 <= k < i ==> !(#[trigger] crates@[k] is Some),
        decreases crates.len() - i,
    {
        if crates[i].is_some() {
            return true;
        }
        i = i + 1;
    }
    false
}

/// One markdown row of the per-crate table.
pub open spec fn rollup_row(r: CrateRollup) -> Seq<char> {
    "| "@ + r.name@ + " | "@ + decimal(r.total as nat) + " | "@ + decimal(r.crappy as nat) + " |\n"@
}

/// The markdown rows of `rs`, in order.
pub open spec fn rollup_rows(rs: Seq<CrateRollup>) -> Seq<char>
    decreases rs.len(),
{
    if rs.len() == 0 {
        seq![]
    } else {
        rollup_rows(rs.drop_last()) + rollup_row(rs.last())
    }
}

/// The markdown per-crate section: nothing without rollups, else a heading
/// and a three-column table.
pub open spec fn per_crate_markdown(rs: Seq<CrateRollup>) -> Seq<char> {
    if rs.len() == 0 {
        seq![]
    } else {
        "## Per-crate summary\n\n| Crate | Functions | Crappy |\n|---|---:|---:|\n"@ + rollup_rows(rs) + "\n"@
    }
}

fn push_row(out: &mut String, r: &CrateRollup)
    ensures
        final(out)@ == old(out)@ + rollup_row(*r),
{
    push_str(out, "| ");
    push_str(out, r.name.as_str());
    push_str(out, " | ");
    push_decimal(out, r.total);
    push_str(out, " | ");
    push_decimal(out, r.crappy);
    push_str(out, " |\n");
    assert(out@ =~= old(out)@ + rollup_row(*r));
}

/// Append the markdown per-crate section (see [`per_crate_markdown`]).
pub fn write_per_crate_markdown(out: &mut String, rollups: &Vec<CrateRollup>)
    ensures
        final(out)@ == old(out)@ + per_crate_markdown(rollups@),
{
    if rollups.len() == 0 {
        assert(old(out)@ + per_crate_markdown(rollups@) =~= old(out)@);
        return;
    }
    push_str(out, "## Per-crate summary\n\n| Crate | Functions | Crappy |\n|---|---:|---:|\n");
    let ghost head = out@;
    let mut i: usize = 0;
    assert(rollups@.take(0) =~= Seq::<CrateRollup>::empty());
    assert(head + rollup_rows(rollups@.take(0)) =~= head);
    while i < rollups.len()
        invariant
            i <= rollups.len(),
            out@ == head + rollup_rows(rollups@.take(i as int)),
        decreases rollups.len() - i,
    {
        let ghost before = out@;
        push_row(out, &rollups[i]);
        assert(rollups@.take(i + 1).drop_last() =~= rollups@.take(i as int));
        assert(rollup_rows(rollups@.take(i + 1)) == rollup_rows(rollups@.take(i as int)) + rollup_row(rollups@[i as int]));
        assert(out@ =~= head + rollup_rows(rollups@.take(i + 1)));
        i = i + 1;
    }
    assert(rollups@.take(rollups.len() as int) =~= rollups@);
    push_str(out, "\n");
    assert(out@ =~= old(out)@ + per_crate_markdown(rollups@));
}

} // verus!
