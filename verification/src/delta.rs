//! Pairing a run's entries with a baseline run's entries.
//!
//! The join key is the exact `(file path, function name)` pair, with the
//! file path's separators normalized to forward slashes so baselines written
//! on another platform still pair. A second pass pairs a function that
//! moved between files, by its name, with the baseline entry it came from.
//! Entries with no baseline partner are new; baseline entries that no current
//! entry pairs with are removed.

use vstd::prelude::*;

use crate::text::{forward_slashes, replace_backslashes, same_text};

verus! {

/// Change status of a single function relative to the baseline.
#[derive(Debug, Clone, Copy, PartialEq, Eq, Structural)]
pub enum DeltaStatus {
    /// Score increased by more than the tolerance — needs attention.
    Regressed,
    /// Score decreased by more than the tolerance — improved since baseline.
    Improved,
    /// Function was not present in the baseline (e.g. newly added code).
    New,
    /// Score changed by no more than the tolerance — effectively unchanged.
    Unchanged,
    /// Function moved from another file (paired by name in the second
    /// pass) with no score change beyond the tolerance.
    Moved,
}

/// The part of a report entry the pairing looks at.
#[derive(Debug, Clone)]
pub struct EntryKey {
    pub file: String,
    pub function: String,
}

/// The separator-normalized form of a path: the file half of the join key.
pub fn path_key(p: &str) -> (r: String)
    ensures
        r@ == forward_slashes(p@),
{
    replace_backslashes(p)
}

/// Two entries carry the same join key.
pub open spec fn same_key(a: EntryKey, b: EntryKey) -> bool {
    forward_slashes(a.file@) == forward_slashes(b.file@) && a.function@ == b.function@
}

/// `j` is the last baseline entry carrying `c`'s key.
pub open spec fn last_partner(c: EntryKey, baseline: Seq<EntryKey>, j: int) -> bool {
    &&& 0 <= j < baseline.len()
    &&& same_key(c, baseline[j])
    &&& forall|k: int| j < k < baseline.len() ==> !#[trigger] same_key(c, baseline[k])
}

/// Some entry of `s` carries `e`'s key.
pub open spec fn key_in(s: Seq<EntryKey>, e: EntryKey) -> bool {
    exists|k: int| 0 <= k < s.len() && #[trigger] same_key(s[k], e)
}

/// `current[i]` has no baseline entry carrying its key.
pub open spec fn unpaired_current(current: Seq<EntryKey>, baseline: Seq<EntryKey>, i: int) -> bool {
    !key_in(baseline, current[i])
}

/// `baseline[j]` has no current entry carrying its key.
pub open spec fn unpaired_baseline(current: Seq<EntryKey>, baseline: Seq<EntryKey>, j: int) -> bool {
    !key_in(current, baseline[j])
}

/// The second pass: `current[i]` moved from `baseline[j]`. Both are left
/// without a key partner, they carry the same function name, and that name
/// is unambiguous on both sides: no other unpaired current entry and no
/// other unpaired baseline entry carries it.
pub open spec fn moved_pair(current: Seq<EntryKey>, baseline: Seq<EntryKey>, i: int, j: int) -> bool {
    &&& 0 <= i < current.len()
    &&& 0 <= j < baseline.len()
    &&& unpaired_current(current, baseline, i)
    &&& unpaired_baseline(current, baseline, j)
    &&& current[i].function@ == baseline[j].function@
    &&& forall|k: int|
        0 <= k < current.len() && k != i && #[trigger] unpaired_current(current, baseline, k)
            ==> current[k].function@ != current[i].function@
    &&& forall|k: int|
        0 <= k < baseline.len() && k != j && #[trigger] unpaired_baseline(current, baseline, k)
            ==> baseline[k].function@ != current[i].function@
}

/// Some current entry moved from `baseline[j]`.
pub open spec fn moved_from(current: Seq<EntryKey>, baseline: Seq<EntryKey>, j: int) -> bool {
    exists|i: int| #[trigger] moved_pair(current, baseline, i, j)
}

/// The positions of the baseline entries that no current entry pairs with,
/// neither by key nor as a move, in baseline order.
pub open spec fn removed_positions(current: Seq<EntryKey>, baseline: Seq<EntryKey>, n: int) -> Seq<usize>
    decreases n,
{
    if n <= 0 {
        seq![]
    } else {
        let r = removed_positions(current, baseline, n - 1);
        if key_in(current, baseline[n - 1]) || moved_from(current, baseline, n - 1) {
            r
        } else {
            r.push((n - 1) as usize)
        }
    }
}

/// How a run's entries pair with a baseline's.
#[derive(Debug)]
pub struct Pairing {
    /// For each current entry, the baseline entry carrying its key.
    pub partner: Vec<Option<usize>>,
    /// For each current entry, the baseline entry it moved from (second
    /// pass, by function name, only for entries without a key partner).
    pub previous: Vec<Option<usize>>,
    /// Baseline entries that no current entry pairs with.
    pub removed: Vec<usize>,
}

/// Key equality between two entries (see [`same_key`]).
fn keys_match(a: &EntryKey, b: &EntryKey) -> (r: bool)
    ensures
        r == same_key(*a, *b),
{
    let fa = path_key(a.file.as_str());
    let fb = path_key(b.file.as_str());
    same_text(fa.as_str(), fb.as_str()) && same_text(a.function.as_str(), b.function.as_str())
}

/// Function-name equality between two entries.
fn names_match(a: &EntryKey, b: &EntryKey) -> (r: bool)
    ensures
        r == (a.function@ == b.function@),
{
    same_text(a.function.as_str(), b.function.as_str())
}

/// For each baseline entry, whether no current entry carries its key.
fn open_baseline(current: &Vec<EntryKey>, baseline: &Vec<EntryKey>) -> (r: Vec<bool>)
    ensures
        r@.len() == baseline@.len(),
        forall|j: int| 0 <= j < baseline@.len() ==> #[trigger] r@[j] == unpaired_baseline(current@, baseline@, j),
{
    let mut open: Vec<bool> = Vec::new();
    let mut j: usize = 0;
    while j < baseline.len()
        invariant
            j <= baseline.len(),
            open@.len() == j,
            forall|t: int| 0 <= t < j ==> #[trigger] open@[t] == unpaired_baseline(current@, baseline@, t),
        decreases baseline.len() - j,
    {
        let mut paired = false;
        let mut c: usize = 0;
        while c < current.len() && !paired
            invariant
                j < baseline.len(),
                c <= current.len(),
                paired ==> key_in(current@, baseline@[j as int]),
                !paired ==> forall|t: int| 0 <= t < c ==> !#[trigger] same_key(current@[t], baseline@[j as int]),
            decreases current.len() - c,
        {
            if keys_match(&current[c], &baseline[j]) {
                paired = true;
            }
            c = c + 1;
        }
        open.push(!paired);
        j = j + 1;
    }
    open
}

/// The baseline entry `current[i]` moved from, if any (see [`moved_pair`]).
fn moved_source(
    current: &Vec<EntryKey>,
    baseline: &Vec<EntryKey>,
    partner: &Vec<Option<usize>>,
    open: &Vec<bool>,
    i: usize,
) -> (r: Option<usize>)
    requires
        i < current.len(),
        partner@.len() == current@.len(),
        open@.len() == baseline@.len(),
        forall|t: int| 0 <= t < current@.len() ==> (#[trigger] partner@[t] is None <==> unpaired_current(current@, baseline@, t)),
        forall|t: int| 0 <= t < baseline@.len() ==> #[trigger] open@[t] == unpaired_baseline(current@, baseline@, t),
    ensures
        match r {
            Some(j) => moved_pair(current@, baseline@, i as int, j as int),
            None => forall|j: int| !moved_pair(current@, baseline@, i as int, j),
        },
{
    let ghost cs = current@;
    let ghost bs = baseline@;
    if partner[i].is_some() {
        return None;
    }
    let mut clash_c = false;
    let mut k: usize = 0;
    while k < current.len() && !clash_c
        invariant
            i < current.len(),
            k <= current.len(),
            partner@.len() == current@.len(),
            forall|t: int| 0 <= t < current@.len() ==> (#[trigger] partner@[t] is None <==> unpaired_current(current@, baseline@, t)),
            clash_c ==> exists|t: int|
                0 <= t < current@.len() && t != i && #[trigger] unpaired_current(current@, baseline@, t)
                    && current@[t].function@ == current@[i as int].function@,
            !clash_c ==> forall|t: int|
                0 <= t < k && t != i && #[trigger] unpaired_current(current@, baseline@, t)
                    ==> current@[t].function@ != current@[i as int].function@,
        decreases current.len() - k,
    {
        if k != i && partner[k].is_none() && names_match(&current[k], &current[i]) {
            assert(unpaired_current(current@, baseline@, k as int));
            clash_c = true;
        }
        k = k + 1;
    }
    if clash_c {
        return None;
    }
    let mut found: Option<usize> = None;
    let mut clash_b = false;
    let mut m: usize = 0;
    while m < baseline.len() && !clash_b
        invariant
            i < current.len(),
            m <= baseline.len(),
            open@.len() == baseline@.len(),
            forall|t: int| 0 <= t < baseline@.len() ==> #[trigger] open@[t] == unpaired_baseline(current@, baseline@, t),
            match found {
                Some(j) => j < m && unpaired_baseline(current@, baseline@, j as int)
                    && baseline@[j as int].function@ == current@[i as int].function@,
                None => true,
            },
            !clash_b ==> forall|t: int|
                0 <= t < m && #[trigger] unpaired_baseline(current@, baseline@, t)
                    && baseline@[t].function@ == current@[i as int].function@ ==> found == Some(t as usize),
            clash_b ==> exists|t1: int, t2: int|
                0 <= t1 < baseline@.len() && 0 <= t2 < baseline@.len() && t1 != t2
                    && #[trigger] unpaired_baseline(current@, baseline@, t1)
                    && #[trigger] unpaired_baseline(current@, baseline@, t2)
                    && baseline@[t1].function@ == current@[i as int].function@
                    && baseline@[t2].function@ == current@[i as int].function@,
        decreases baseline.len() - m,
    {
        if open[m] && names_match(&baseline[m], &current[i]) {
            assert(unpaired_baseline(current@, baseline@, m as int));
            match found {
                Some(j) => {
                    assert(unpaired_baseline(current@, baseline@, j as int));
                    clash_b = true;
                },
                None => {
                    found = Some(m);
                },
            }
        }
        m = m + 1;
    }
    proof {
        assert(unpaired_current(cs, bs, i as int));
    }
    if clash_b {
        proof {
            let (t1, t2) = choose|t1: int, t2: int|
                0 <= t1 < bs.len() && 0 <= t2 < bs.len() && t1 != t2
                    && #[trigger] unpaired_baseline(cs, bs, t1)
                    && #[trigger] unpaired_baseline(cs, bs, t2)
                    && bs[t1].function@ == cs[i as int].function@
                    && bs[t2].function@ == cs[i as int].function@;
            assert forall|j: int| !moved_pair(cs, bs, i as int, j) by {
                if moved_pair(cs, bs, i as int, j) {
                    if t1 != j {
                        assert(unpaired_baseline(cs, bs, t1));
                    } else {
                        assert(unpaired_baseline(cs, bs, t2));
                    }
                }
            }
        }
        return None;
    }
    match found {
        Some(j) => {
            proof {
                assert forall|t: int|
                    0 <= t < bs.len() && t != j && #[trigger] unpaired_baseline(cs, bs, t)
                        implies bs[t].function@ != cs[i as int].function@ by {
                    if bs[t].function@ == cs[i as int].function@ {
                        assert(found == Some(t as usize));
                    }
                }
            }
            Some(j)
        },
        None => {
            proof {
                assert forall|j: int| !moved_pair(cs, bs, i as int, j) by {
                    if moved_pair(cs, bs, i as int, j) {
                        assert(unpaired_baseline(cs, bs, j));
                    }
                }
            }
            None
        },
    }
}

/// Pair every current entry with the baseline entry carrying the same key —
/// the last such baseline entry when the baseline repeats a key. A current
/// entry left without one is paired, in a second pass, with the baseline
/// entry it moved from: the one unpaired baseline entry with its function
/// name, when it is also the one unpaired current entry with that name.
/// The baseline entries left without any partner are listed as removed.
pub fn pair_entries(current: &Vec<EntryKey>, baseline: &Vec<EntryKey>) -> (r: Pairing)
    ensures
        r.partner@.len() == current@.len(),
        forall|i: int|
            0 <= i < current@.len() ==> match #[trigger] r.partner@[i] {
                Some(j) => last_partner(current@[i], baseline@, j as int),
                None => !key_in(baseline@, current@[i]),
            },
        r.previous@.len() == current@.len(),
        forall|i: int|
            0 <= i < current@.len() ==> match #[trigger] r.previous@[i] {
                Some(j) => moved_pair(current@, baseline@, i, j as int),
                None => forall|j: int| !moved_pair(current@, baseline@, i, j),
            },
        r.removed@ == removed_positions(current@, baseline@, baseline@.len() as int),
{
    let mut partner: Vec<Option<usize>> = Vec::new();
    let mut i: usize = 0;
    while i < current.len()
        invariant
            i <= current.len(),
            partner@.len() == i,
            forall|t: int|
                0 <= t < i ==> match #[trigger] partner@[t] {
                    Some(j) => last_partner(current@[t], baseline@, j as int),
                    None => !key_in(baseline@, current@[t]),
                },
        decreases current.len() - i,
    {
        let mut found: Option<usize> = None;
        let mut k: usize = baseline.len();
        while k > 0 && found.is_none()
            invariant
                k <= baseline.len(),
                i < current.len(),
                match found {
                    Some(j) => last_partner(current@[i as int], baseline@, j as int),
                    None => forall|t: int| k <= t < baseline@.len() ==> !#[trigger] same_key(current@[i as int], baseline@[t]),
                },
            decreases k,
        {
            k = k - 1;
            if keys_match(&current[i], &baseline[k]) {
                found = Some(k);
            }
        }
        proof {
            if found.is_none() {
                assert forall|t: int| 0 <= t < baseline@.len() implies !#[trigger] same_key(baseline@[t], current@[i as int]) by {
                    assert(!same_key(current@[i as int], baseline@[t]));
                }
            }
        }
        partner.push(found);
        i = i + 1;
    }
    proof {
        assert forall|t: int| 0 <= t < current@.len() implies (#[trigger] partner@[t] is None <==> unpaired_current(
            current@,
            baseline@,
            t,
        )) by {
            if partner@[t] is Some {
                let j = partner@[t]->0;
                assert(same_key(baseline@[j as int], current@[t]));
                assert(key_in(baseline@, current@[t]));
            }
        }
    }
    let open = open_baseline(current, baseline);
    let mut previous: Vec<Option<usize>> = Vec::new();
    let mut i: usize = 0;
    while i < current.len()
        invariant
            i <= current.len(),
            previous@.len() == i,
            partner@.len() == current@.len(),
            open@.len() == baseline@.len(),
            forall|t: int| 0 <= t < current@.len() ==> (#[trigger] partner@[t] is None <==> unpaired_current(current@, baseline@, t)),
            forall|t: int| 0 <= t < baseline@.len() ==> #[trigger] open@[t] == unpaired_baseline(current@, baseline@, t),
            forall|t: int|
                0 <= t < i ==> match #[trigger] previous@[t] {
                    Some(j) => moved_pair(current@, baseline@, t, j as int),
                    None => forall|j: int| !moved_pair(current@, baseline@, t, j),
                },
        decreases current.len() - i,
    {
        let m = moved_source(current, baseline, &partner, &open, i);
        previous.push(m);
        i = i + 1;
    }
    let mut removed: Vec<usize> = Vec::new();
    let mut j: usize = 0;
    while j < baseline.len()
        invariant
            j <= baseline.len(),
            previous@.len() == current@.len(),
            open@.len() == baseline@.len(),
            forall|t: int| 0 <= t < baseline@.len() ==> #[trigger] open@[t] == unpaired_baseline(current@, baseline@, t),
            forall|t: int|
                0 <= t < current@.len() ==> match #[trigger] previous@[t] {
                    Some(q) => moved_pair(current@, baseline@, t, q as int),
                    None => forall|q: int| !moved_pair(current@, baseline@, t, q),
                },
            removed@ == removed_positions(current@, baseline@, j as int),
        decreases baseline.len() - j,
    {
        let mut taken = false;
        let mut c: usize = 0;
        while c < current.len() && !taken
            invariant
                j < baseline.len(),
                c <= current.len(),
                previous@.len() == current@.len(),
                forall|t: int|
                    0 <= t < current@.len() ==> match #[trigger] previous@[t] {
                        Some(q) => moved_pair(current@, baseline@, t, q as int),
                        None => forall|q: int| !moved_pair(current@, baseline@, t, q),
                    },
                taken ==> moved_from(current@, baseline@, j as int),
                !taken ==> forall|t: int| 0 <= t < c ==> !#[trigger] moved_pair(current@, baseline@, t, j as int),
            decreases current.len() - c,
        {
            match previous[c] {
                Some(q) => {
                    if q == j {
                        assert(moved_pair(current@, baseline@, c as int, j as int));
                        taken = true;
                    } else {
                        proof {
                            lemma_moved_pair_unique(current@, baseline@, c as int, q as int, j as int);
                        }
                    }
                },
                None => {
                    assert(!moved_pair(current@, baseline@, c as int, j as int));
                },
            }
            c = c + 1;
        }
        proof {
            if !taken {
                assert forall|t: int| !#[trigger] moved_pair(current@, baseline@, t, j as int) by {
                    if 0 <= t < current@.len() {
                    }
                }
            }
        }
        if open[j] && !taken {
            removed.push(j);
        }
        j = j + 1;
    }
    Pairing { partner, previous, removed }
}

/// A current entry moves from at most one baseline entry.
proof fn lemma_moved_pair_unique(current: Seq<EntryKey>, baseline: Seq<EntryKey>, i: int, j1: int, j2: int)
    requires
        moved_pair(current, baseline, i, j1),
    ensures
        moved_pair(current, baseline, i, j2) ==> j1 == j2,
{
    if moved_pair(current, baseline, i, j2) && j1 != j2 {
        assert(unpaired_baseline(current, baseline, j2));
    }
}

/// How many statuses equal `s`.
pub open spec fn count_of(v: Seq<DeltaStatus>, s: DeltaStatus) -> nat
    decreases v.len(),
{
    if v.len() == 0 {
        0
    } else {
        count_of(v.drop_last(), s) + if v.last() == s { 1nat } else { 0nat }
    }
}

/// Number of entries with status `s` — `Regressed` gives the regression
/// count that `--fail-regression` gates on.
pub fn count_status(statuses: &Vec<DeltaStatus>, s: DeltaStatus) -> (r: usize)
    ensures
        r == count_of(statuses@, s),
{
    let mut n: usize = 0;
    let mut i: usize = 0;
    assert(statuses@.take(0) =~= Seq::<DeltaStatus>::empty());
    while i < statuses.len()
        invariant
            i <= statuses.len(),
            n == count_of(statuses@.take(i as int), s),
            n <= i,
        decreases statuses.len() - i,
    {
        assert(statuses@.take(i + 1).drop_last() =~= statuses@.take(i as int));
        if statuses[i] == s {
            n = n + 1;
        }
        i = i + 1;
    }
    assert(statuses@.take(statuses.len() as int) =~= statuses@);
    n
}

/// The positions, in order, of the first `n` statuses that a delta table
/// shows: `Unchanged` rows only when `show_unchanged`, every other status
/// always.
pub open spec fn shown_positions(statuses: Seq<DeltaStatus>, show_unchanged: bool, n: int) -> Seq<usize>
    decreases n,
{
    if n <= 0 {
        seq![]
    } else {
        let r = shown_positions(statuses, show_unchanged, n - 1);
        if show_unchanged || statuses[n - 1] != DeltaStatus::Unchanged {
            r.push((n - 1) as usize)
        } else {
            r
        }
    }
}

/// The positions of the rows a delta table shows, in order.
pub fn visible_rows(statuses: &Vec<DeltaStatus>, show_unchanged: bool) -> (r: Vec<usize>)
    ensures
        r@ == shown_positions(statuses@, show_unchanged, statuses@.len() as int),
{
    let mut out: Vec<usize> = Vec::new();
    let mut i: usize = 0;
    while i < statuses.len()
        invariant
            i <= statuses.len(),
            out@ == shown_positions(statuses@, show_unchanged, i as int),
        decreases statuses.len() - i,
    {
        if show_unchanged || statuses[i] != DeltaStatus::Unchanged {
            out.push(i);
        }
        i = i + 1;
    }
    out
}


proof fn lemma_removed_positions(current: Seq<EntryKey>, baseline: Seq<EntryKey>, n: int)
    requires
        0 <= n <= baseline.len(),
        baseline.len() <= usize::MAX,
    ensures
        forall|k: int|
            0 <= k < removed_positions(current, baseline, n).len() ==> 0 <= #[trigger] removed_positions(
                current,
                baseline,
                n,
            )[k] < n && !key_in(current, baseline[removed_positions(current, baseline, n)[k] as int]) && !moved_from(
                current,
                baseline,
                removed_positions(current, baseline, n)[k] as int,
            ),
        forall|j: int| 0 <= j < n && !key_in(current, baseline[j]) && !moved_from(current, baseline, j) ==> removed_positions(current, baseline, n).contains(j as usize),
    decreases n,
{
    if n > 0 {
        lemma_removed_positions(current, baseline, n - 1);
        let r = removed_positions(current, baseline, n - 1);
        if !key_in(current, baseline[n - 1]) && !moved_from(current, baseline, n - 1) {
            let r2 = r.push((n - 1) as usize);
            assert(removed_positions(current, baseline, n) == r2);
            assert(r2[r.len() as int] == (n - 1) as usize);
            assert forall|k: int| 0 <= k < r2.len() implies 0 <= #[trigger] r2[k] < n && !key_in(current, baseline[r2[k] as int]) && !moved_from(current, baseline, r2[k] as int) by {
                if k < r.len() {
                    assert(r2[k] == r[k]);
                }
            }
            assert forall|j: int| 0 <= j < n && !key_in(current, baseline[j]) && !moved_from(current, baseline, j) implies r2.contains(j as usize) by {
                if j < n - 1 {
                    let k = choose|k: int| 0 <= k < r.len() && r[k] == j as usize;
                    assert(r2[k] == j as usize);
                } else {
                    assert(r2[r.len() as int] == j as usize);
                }
            }
        }
    }
}

/// A baseline entry is reported removed exactly when no current entry
/// carries its key and no current entry moved from it, so no baseline entry
/// is ever both paired with a current entry — by key or as a move — and
/// reported removed.
pub proof fn lemma_removed_iff_unpaired(current: Seq<EntryKey>, baseline: Seq<EntryKey>, j: int)
    requires
        0 <= j < baseline.len(),
        baseline.len() <= usize::MAX,
    ensures
        removed_positions(current, baseline, baseline.len() as int).contains(j as usize) <==> (!key_in(
            current,
            baseline[j],
        ) && !moved_from(current, baseline, j)),
        forall|i: int| 0 <= i < current.len() && last_partner(current[i], baseline, j) ==> !removed_positions(
            current,
            baseline,
            baseline.len() as int,
        ).contains(j as usize),
        forall|i: int| #[trigger] moved_pair(current, baseline, i, j) ==> !removed_positions(
            current,
            baseline,
            baseline.len() as int,
        ).contains(j as usize),
{
    lemma_removed_positions(current, baseline, baseline.len() as int);
    let r = removed_positions(current, baseline, baseline.len() as int);
    if r.contains(j as usize) {
        let k = choose|k: int| 0 <= k < r.len() && r[k] == j as usize;
        assert(0 <= r[k] < baseline.len());
        assert(r[k] as int == j);
    }
    assert forall|i: int| 0 <= i < current.len() && last_partner(current[i], baseline, j) implies !r.contains(j as usize) by {
        assert(same_key(current[i], baseline[j]));
        assert(key_in(current, baseline[j]));
    }
}

/// Moves pair one to one: a current entry moves from at most one baseline
/// entry, a baseline entry is moved from by at most one current entry, and
/// neither side of a move has a key partner.
pub proof fn lemma_moves_one_to_one(current: Seq<EntryKey>, baseline: Seq<EntryKey>, i1: int, i2: int, j1: int, j2: int)
    requires
        moved_pair(current, baseline, i1, j1),
        moved_pair(current, baseline, i2, j2),
    ensures
        i1 == i2 <==> j1 == j2,
        !key_in(baseline, current[i1]),
        !key_in(current, baseline[j1]),
{
    if i1 == i2 {
        lemma_moved_pair_unique(current, baseline, i1, j1, j2);
    }
    if j1 == j2 && i1 != i2 {
        assert(unpaired_current(current, baseline, i2));
        assert(current[i2].function@ == baseline[j1].function@);
    }
}


/// Pairing by key joins exactly the entries whose separator-normalized file
/// paths are equal and whose function names are equal: a key partner has
/// both, and an entry with such a baseline entry always has a key partner.
pub proof fn lemma_key_pairing_is_exact(current: Seq<EntryKey>, baseline: Seq<EntryKey>, i: int, j: int)
    requires
        0 <= i < current.len(),
        0 <= j < baseline.len(),
    ensures
        last_partner(current[i], baseline, j) ==> forward_slashes(current[i].file@) == forward_slashes(baseline[j].file@)
            && current[i].function@ == baseline[j].function@,
        forward_slashes(current[i].file@) == forward_slashes(baseline[j].file@) && current[i].function@
            == baseline[j].function@ ==> key_in(baseline, current[i]),
{
    if forward_slashes(current[i].file@) == forward_slashes(baseline[j].file@) && current[i].function@
        == baseline[j].function@ {
        assert(same_key(baseline[j], current[i]));
    }
}

} // verus!
