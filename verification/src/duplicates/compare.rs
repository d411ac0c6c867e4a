//! The integer core of Jaccard similarity over fingerprint sets: how many
//! fingerprints two functions share, and how many they have between them.

use std::collections::BTreeSet;
use vstd::prelude::*;
use vstd::std_specs::iter::IteratorSpec;

use super::extract::{location_precedes, location_precedes_spec, FunctionPrint, Location};

verus! {

broadcast use vstd::laws_cmp::group_laws_cmp, vstd::std_specs::btree::group_btree_axioms;

/// How many fingerprints occur in both `a` and `b`: `|A ∩ B|`.
pub fn shared_count(a: &BTreeSet<u64>, b: &BTreeSet<u64>) -> (r: usize)
    ensures
        r == a@.intersect(b@).len(),
        a@.finite(),
        b@.finite(),
{
    proof {
        lemma_btree_set_finite(a);
        lemma_btree_set_finite(b);
    }
    let total = a.len();
    let mut count: usize = 0;
    let ghost mut seen: Set<u64> = Set::empty();
    let ghost keys = a.iter().remaining();
    proof {
        assert(keys.take(0).unref() =~= Seq::<u64>::empty());
        assert(keys.take(0).unref().to_set() =~= Set::<u64>::empty());
        assert(seen.intersect(b@) =~= Set::<u64>::empty());
    }
    for x in it: a.iter()
        invariant
            keys == it.seq(),
            keys.unref().to_set() == a@,
            keys.no_duplicates(),
            keys.len() == a@.len(),
            keys.len() == total,
            b@.finite(),
            seen == keys.take(it.index()).unref().to_set(),
            seen.finite(),
            count == seen.intersect(b@).len(),
            count <= it.index(),
    {
        let ghost i = it.index();
        proof {
            assert(keys.take(i + 1) =~= keys.take(i).push(keys[i]));
            assert(keys.take(i + 1).unref() =~= keys.take(i).unref().push(*keys[i]));
            keys.take(i).unref().lemma_push_to_set_commute(*keys[i]);
            assert(!seen.contains(*keys[i])) by {
                if seen.contains(*keys[i]) {
                    let j = choose|j: int| 0 <= j < i && keys.take(i).unref()[j] == *keys[i];
                    assert(keys[j] == keys[i]);
                }
            }
        }
        if b.contains(x) {
            proof {
                assert(seen.insert(*x).intersect(b@) =~= seen.intersect(b@).insert(*x));
            }
            count = count + 1;
        } else {
            proof {
                assert(seen.insert(*x).intersect(b@) =~= seen.intersect(b@));
            }
        }
        proof {
            seen = seen.insert(*x);
        }
    }
    proof {
        assert(keys.take(keys.len() as int) =~= keys);
    }
    count
}

/// A `BTreeSet`'s contents are a finite set.
pub proof fn lemma_btree_set_finite(s: &BTreeSet<u64>)
    ensures
        s@.finite(),
{
    let keys = s.iter().remaining();
    vstd::seq_lib::seq_to_set_is_finite(keys.unref());
}

/// How many fingerprints occur in `a` or `b`: `|A ∪ B| = |A| + |B| − |A ∩ B|`.
pub fn union_count(a: &BTreeSet<u64>, b: &BTreeSet<u64>) -> (r: usize)
    requires
        a@.union(b@).len() <= usize::MAX,
    ensures
        r == a@.union(b@).len(),
{
    let shared = shared_count(a, b);
    proof {
        lemma_union_size(a@, b@);
    }
    a.len() - shared + b.len()
}

/// `|A ∪ B| + |A ∩ B| = |A| + |B|` for finite sets.
pub proof fn lemma_union_size(a: Set<u64>, b: Set<u64>)
    requires
        a.finite(),
        b.finite(),
    ensures
        a.union(b).len() + a.intersect(b).len() == a.len() + b.len(),
        a.intersect(b).len() <= a.len(),
        a.intersect(b).len() <= b.len(),
{
    vstd::set_lib::lemma_set_intersect_union_lens(a, b);
    vstd::set_lib::lemma_len_intersect(a, b);
    assert(a.intersect(b) =~= b.intersect(a));
    vstd::set_lib::lemma_len_intersect(b, a);
}

/// The two counts Jaccard similarity is the quotient of, for two functions:
/// `(shared, total)` = `(|A ∩ B|, |A ∪ B|)`.
pub fn overlap(a: &FunctionPrint, b: &FunctionPrint) -> (r: (usize, usize))
    requires
        a.prints@.union(b.prints@).len() <= usize::MAX,
    ensures
        r.0 == a.prints@.intersect(b.prints@).len(),
        r.1 == a.prints@.union(b.prints@).len(),
{
    (shared_count(&a.prints, &b.prints), union_count(&a.prints, &b.prints))
}

/// Jaccard similarity is symmetric, bounded, and reflexive, stated on its two
/// counts: swapping the functions changes neither count; the shared count
/// never exceeds the total, so the quotient lies in `[0, 1]`; a total of zero
/// happens only for two empty sets; and a set compared with itself shares
/// everything, so the quotient is exactly one.
pub proof fn lemma_overlap_laws(a: Set<u64>, b: Set<u64>)
    requires
        a.finite(),
        b.finite(),
    ensures
        a.intersect(b).len() == b.intersect(a).len(),
        a.union(b).len() == b.union(a).len(),
        a.intersect(b).len() <= a.union(b).len(),
        a.union(b).len() == 0 ==> a.is_empty() && b.is_empty(),
        a.intersect(a).len() == a.union(a).len(),
{
    assert(a.intersect(b) =~= b.intersect(a));
    assert(a.union(b) =~= b.union(a));
    assert(a.intersect(a) =~= a);
    assert(a.union(a) =~= a);
    lemma_union_size(a, b);
    if a.union(b).len() == 0 {
        vstd::set_lib::lemma_len_union(a, b);
        if !a.is_empty() {
            let x = a.choose();
            assert(a.union(b).contains(x));
        }
        if !b.is_empty() {
            let x = b.choose();
            assert(a.union(b).contains(x));
        }
    }
}

/// Put the two sides of a candidate pair in location order, so a pair has
/// one spelling rather than two: the side that sorts first comes first.
pub fn order_sides(a: &Location, b: &Location) -> (r: (Location, Location))
    ensures
        !location_precedes_spec(*b, *a) ==> r == (*a, *b),
        location_precedes_spec(*b, *a) ==> r == (*b, *a),
{
    if location_precedes(b, a) {
        (b.copied(), a.copied())
    } else {
        (a.copied(), b.copied())
    }
}

} // verus!
