//! Located, fingerprinted functions.

use std::collections::BTreeSet;
use vstd::prelude::*;

use crate::paths::{chars_less, path_lt, path_less, chars_lt};
use crate::text::chars_of;
use crate::duplicates::fingerprint::{fingerprints, print_set};
use crate::duplicates::normalize::{count_forest, count_nodes, lemma_forest_prefix_le, NormNode};
use crate::duplicates::syntax::{lemma_normal_form_unique, normalize_node, normalizes, SynNode};

verus! {

/// Where one function is, and what it is called.
///
/// Carried apart from the fingerprints because it is all a reported pair
/// needs: the sets answer "how alike", the location answers "which two", and
/// only the second survives into the report.
///
/// The field order is the ordering (see [`location_precedes`]). File and
/// start line alone are not a total order — `fn a() {} fn b() {}` on one
/// line share both, and a tie there would let the order functions happened
/// to be discovered in leak into the report.
#[derive(Debug, Clone, PartialEq, Eq)]
pub struct Location {
    /// File the function was found in.
    pub file: String,
    /// 1-indexed first line, inclusive.
    pub start_line: usize,
    /// 1-indexed last line, inclusive.
    pub end_line: usize,
    /// Function or method name, as written.
    pub name: String,
}

/// One function, located and fingerprinted.
#[derive(Debug)]
pub struct FunctionPrint {
    /// Where it is and what it is called.
    pub location: Location,
    /// Number of nodes in the normalized tree.
    pub node_count: usize,
    /// Every distinct normalized subtree shape in the function.
    pub prints: BTreeSet<u64>,
}

/// Location order: by file (in path order), then start line, then end line,
/// then name.
pub open spec fn location_precedes_spec(a: Location, b: Location) -> bool {
    if path_lt(a.file@, b.file@) {
        true
    } else if path_lt(b.file@, a.file@) {
        false
    } else if a.start_line != b.start_line {
        a.start_line < b.start_line
    } else if a.end_line != b.end_line {
        a.end_line < b.end_line
    } else {
        chars_lt(a.name@, b.name@)
    }
}

/// Whether `a` sorts strictly before `b` in location order.
pub fn location_precedes(a: &Location, b: &Location) -> (r: bool)
    ensures
        r == location_precedes_spec(*a, *b),
{
    if path_less(a.file.as_str(), b.file.as_str()) {
        true
    } else if path_less(b.file.as_str(), a.file.as_str()) {
        false
    } else if a.start_line != b.start_line {
        a.start_line < b.start_line
    } else if a.end_line != b.end_line {
        a.end_line < b.end_line
    } else {
        chars_less(&chars_of(a.name.as_str()), &chars_of(b.name.as_str()))
    }
}

impl Location {
    /// A field-for-field copy.
    pub fn copied(&self) -> (r: Location)
        ensures
            r == *self,
    {
        Location {
            file: self.file.clone(),
            start_line: self.start_line,
            end_line: self.end_line,
            name: self.name.clone(),
        }
    }
}


/// The number of nodes of `node`, or `None` when it does not fit in a
/// `usize`.
pub fn checked_node_count(node: &NormNode) -> (r: Option<usize>)
    ensures
        match r {
            Some(c) => c == count_nodes(*node),
            None => count_nodes(*node) > usize::MAX,
        },
    decreases *node,
{
    let ghost cs = node.children@;
    let mut total: usize = 1;
    let mut i: usize = 0;
    assert(cs.take(0) =~= Seq::<NormNode>::empty());
    proof {
        lemma_forest_prefix_le(cs, cs.len() as int);
        assert(cs.take(cs.len() as int) =~= cs);
    }
    while i < node.children.len()
        invariant
            cs == node.children@,
            i <= cs.len(),
            total == 1 + count_forest(cs.take(i as int)),
            count_nodes(*node) == 1 + count_forest(cs),
        decreases cs.len() - i,
    {
        assert(cs.take(i + 1).drop_last() =~= cs.take(i as int));
        assert(cs.take(i + 1).last() == cs[i as int]);
        proof {
            lemma_forest_prefix_le(cs, i + 1);
        }
        assert(decreases_to!(*node => node.children));
        match checked_node_count(&node.children[i]) {
            None => {
                return None;
            },
            Some(c) => match total.checked_add(c) {
                None => {
                    return None;
                },
                Some(t) => {
                    total = t;
                },
            },
        }
        i = i + 1;
    }
    assert(cs.take(cs.len() as int) =~= cs);
    Some(total)
}

/// Fingerprint one located function from its syntax: normalize it, count
/// the normal form's nodes and collect its fingerprint set. `None` when the
/// node count does not fit in a `usize`.
pub fn print_function(location: Location, syntax: &SynNode) -> (r: Option<FunctionPrint>)
    ensures
        exists|t: NormNode| normalizes(*syntax, t),
        forall|t: NormNode|
            normalizes(*syntax, t) ==> match r {
                Some(p) => p.location == location && p.node_count == count_nodes(t) && p.prints@ == print_set(t),
                None => count_nodes(t) > usize::MAX,
            },
{
    let tree = normalize_node(syntax);
    proof {
        assert forall|t: NormNode| normalizes(*syntax, t) implies count_nodes(t) == count_nodes(tree) && print_set(t)
            == print_set(tree) by {
            lemma_normal_form_unique(*syntax, t, tree);
        }
    }
    match checked_node_count(&tree) {
        Some(node_count) => {
            let prints = fingerprints(&tree);
            Some(FunctionPrint { location, node_count, prints })
        },
        None => None,
    }
}


/// One item of a parsed source file that the function walk stops at: a
/// function or a module. The functions and modules nested anywhere inside
/// one (in a function body, an `impl` block, a trait) are listed under it
/// in source order; those inside any other item are listed in its place.
#[derive(Debug)]
pub enum SynItem {
    /// A free function or a method in an `impl`.
    Fn {
        /// Whether it carries `#[test]`.
        is_test: bool,
        /// 1-indexed line of the `fn` keyword.
        start_line: usize,
        /// 1-indexed line of the body's closing brace.
        end_line: usize,
        /// Its name, as written.
        name: String,
        /// Its signature and body.
        syntax: SynNode,
        /// The items declared inside it.
        nested: Vec<SynItem>,
    },
    /// A module.
    Mod {
        /// Whether it carries `#[cfg(test)]`.
        cfg_test: bool,
        /// Its items.
        items: Vec<SynItem>,
    },
}

/// A parsed source file: its items in source order.
#[derive(Debug)]
pub struct SynFile {
    pub items: Vec<SynItem>,
}

/// The functions the walk fingerprints among `items`, in visit order: each
/// function before the functions nested in it. Test code is skipped whole:
/// a `#[test]` function and everything inside it, and a `#[cfg(test)]`
/// module and everything inside it.
pub open spec fn visited(items: Seq<SynItem>) -> Seq<SynItem>
    decreases items,
{
    if items.len() == 0 {
        seq![]
    } else {
        visited(items.drop_last()) + visited_item(items.last())
    }
}

/// The functions the walk fingerprints in one item (see [`visited`]).
pub open spec fn visited_item(it: SynItem) -> Seq<SynItem>
    decreases it,
{
    match it {
        SynItem::Fn { is_test, nested, .. } => if is_test {
            seq![]
        } else {
            seq![it] + visited(nested@)
        },
        SynItem::Mod { cfg_test, items } => if cfg_test {
            seq![]
        } else {
            visited(items@)
        },
    }
}

/// `p` is the fingerprinted form of the function `it` found in `path`.
pub open spec fn print_of(p: FunctionPrint, it: SynItem, path: Seq<char>) -> bool {
    match it {
        SynItem::Fn { start_line, end_line, name, syntax, .. } => {
            &&& p.location.file@ == path
            &&& p.location.start_line == start_line
            &&& p.location.end_line == end_line
            &&& p.location.name@ == name@
            &&& forall|t: NormNode|
                normalizes(syntax, t) ==> p.node_count == count_nodes(t) && p.prints@ == print_set(t)
        },
        _ => false,
    }
}

/// The normal form of the function `it` has more nodes than a `usize`
/// counts.
pub open spec fn too_large(it: SynItem) -> bool {
    match it {
        SynItem::Fn { syntax, .. } => exists|t: NormNode| normalizes(syntax, t) && count_nodes(t) > usize::MAX,
        _ => false,
    }
}

/// Append the prints of the functions of `items` to `out`, in visit order.
/// `false` when one of them is too large to count.
fn visit_items(items: &Vec<SynItem>, path: &str, out: &mut Vec<FunctionPrint>) -> (ok: bool)
    ensures
        ok ==> {
            &&& final(out)@.len() == old(out)@.len() + visited(items@).len()
            &&& final(out)@.take(old(out)@.len() as int) == old(out)@
            &&& forall|k: int|
                0 <= k < visited(items@).len() ==> print_of(
                    #[trigger] final(out)@[old(out)@.len() + k],
                    visited(items@)[k],
                    path@,
                )
        },
        !ok ==> exists|k: int| 0 <= k < visited(items@).len() && too_large(#[trigger] visited(items@)[k]),
    decreases items@,
{
    let ghost start = out@;
    let ghost n0 = out@.len();
    let ghost is = items@;
    let mut i: usize = 0;
    assert(is.take(0) =~= Seq::<SynItem>::empty());
    assert(out@.take(n0 as int) =~= start);
    while i < items.len()
        invariant
            is == items@,
            i <= is.len(),
            n0 == start.len(),
            out@.len() == n0 + visited(is.take(i as int)).len(),
            out@.take(n0 as int) == start,
            forall|k: int|
                0 <= k < visited(is.take(i as int)).len() ==> print_of(
                    #[trigger] out@[n0 + k],
                    visited(is.take(i as int))[k],
                    path@,
                ),
        decreases is.len() - i,
    {
        let ghost before = out@;
        let ghost done = visited(is.take(i as int));
        assert(is.take(i + 1).drop_last() =~= is.take(i as int));
        assert(is.take(i + 1).last() == is[i as int]);
        assert(visited(is.take(i + 1)) == done + visited_item(is[i as int]));
        assert(decreases_to!(items@ => items@[i as int]));
        let ok = visit_item(&items[i], path, out);
        if !ok {
            proof {
                let vi = visited_item(is[i as int]);
                let k = choose|k: int| 0 <= k < vi.len() && too_large(#[trigger] vi[k]);
                lemma_visited_prefix(is, i as int + 1);
                assert(visited(is.take(i + 1))[done.len() + k] == vi[k]);
                assert(visited(is)[done.len() + k] == vi[k]);
            }
            return false;
        }
        proof {
            let vi = visited_item(is[i as int]);
            assert forall|k: int|
                0 <= k < visited(is.take(i + 1)).len() implies print_of(
                    #[trigger] out@[n0 + k],
                    visited(is.take(i + 1))[k],
                    path@,
                ) by {
                if k < done.len() {
                    assert(out@[n0 + k] == out@.take(before.len() as int)[n0 + k]);
                    assert(before[n0 + k] == out@[n0 + k]);
                } else {
                    assert(out@[n0 + k] == out@[before.len() + (k - done.len())]);
                }
            }
            assert(out@.take(n0 as int) =~= before.take(n0 as int));
        }
        i = i + 1;
    }
    assert(is.take(is.len() as int) =~= is);
    true
}

/// `visited` of a prefix is a prefix of `visited` of the whole.
proof fn lemma_visited_prefix(is: Seq<SynItem>, n: int)
    requires
        0 <= n <= is.len(),
    ensures
        visited(is).len() >= visited(is.take(n)).len(),
        forall|k: int| 0 <= k < visited(is.take(n)).len() ==> visited(is)[k] == visited(is.take(n))[k],
    decreases is.len() - n,
{
    if n < is.len() {
        lemma_visited_prefix(is, n + 1);
        assert(is.take(n + 1).drop_last() =~= is.take(n));
    } else {
        assert(is.take(n) =~= is);
    }
}

/// Append the prints of the functions of one item to `out` (see
/// [`visit_items`]).
fn visit_item(item: &SynItem, path: &str, out: &mut Vec<FunctionPrint>) -> (ok: bool)
    ensures
        ok ==> {
            &&& final(out)@.len() == old(out)@.len() + visited_item(*item).len()
            &&& final(out)@.take(old(out)@.len() as int) == old(out)@
            &&& forall|k: int|
                0 <= k < visited_item(*item).len() ==> print_of(
                    #[trigger] final(out)@[old(out)@.len() + k],
                    visited_item(*item)[k],
                    path@,
                )
        },
        !ok ==> exists|k: int| 0 <= k < visited_item(*item).len() && too_large(#[trigger] visited_item(*item)[k]),
    decreases *item,
{
    match item {
        SynItem::Fn { is_test, start_line, end_line, name, syntax, nested } => {
            if *is_test {
                assert(out@.take(out@.len() as int) =~= out@);
                return true;
            }
            let location = Location {
                file: String::from_str(path),
                start_line: *start_line,
                end_line: *end_line,
                name: name.clone(),
            };
            let ghost start = out@;
            let ghost vi = visited_item(*item);
            assert(vi[0] == *item);
            match print_function(location, syntax) {
                None => {
                    assert(too_large(vi[0]));
                    return false;
                },
                Some(p) => {
                    out.push(p);
                },
            }
            let ghost mid = out@;
            assert(print_of(mid[start.len() as int], vi[0], path@));
            assert(decreases_to!(*item => *nested));
            let ok = visit_items(nested, path, out);
            if !ok {
                proof {
                    let k = choose|k: int| 0 <= k < visited(nested@).len() && too_large(#[trigger] visited(nested@)[k]);
                    assert(vi[1 + k] == visited(nested@)[k]);
                }
                return false;
            }
            proof {
                assert forall|k: int| 0 <= k < vi.len() implies print_of(
                    #[trigger] out@[start.len() + k],
                    vi[k],
                    path@,
                ) by {
                    if k == 0 {
                        assert(out@[start.len() as int] == out@.take(mid.len() as int)[start.len() as int]);
                    } else {
                        assert(vi[k] == visited(nested@)[k - 1]);
                        assert(out@[start.len() + k] == out@[mid.len() + (k - 1)]);
                    }
                }
                assert forall|j: int| 0 <= j < start.len() implies out@[j] == start[j] by {
                    assert(out@[j] == out@.take(mid.len() as int)[j]);
                    assert(mid[j] == start[j]);
                }
                assert(out@.take(start.len() as int) =~= start);
            }
            true
        },
        SynItem::Mod { cfg_test, items } => {
            if *cfg_test {
                assert(out@.take(out@.len() as int) =~= out@);
                return true;
            }
            assert(decreases_to!(*item => *items));
            visit_items(items, path, out)
        },
    }
}

/// Fingerprint every function of a parsed file found in `path`, in visit
/// order (see [`visited`]); `None` when one of them is too large to count.
pub fn functions_in_file(file: &SynFile, path: &str) -> (r: Option<Vec<FunctionPrint>>)
    ensures
        match r {
            Some(v) => {
                &&& v@.len() == visited(file.items@).len()
                &&& forall|k: int|
                    0 <= k < v@.len() ==> print_of(#[trigger] v@[k], visited(file.items@)[k], path@)
            },
            None => exists|k: int|
                0 <= k < visited(file.items@).len() && too_large(#[trigger] visited(file.items@)[k]),
        },
{
    let mut out: Vec<FunctionPrint> = Vec::new();
    if visit_items(&file.items, path, &mut out) {
        proof {
            assert forall|k: int| 0 <= k < out@.len() implies print_of(#[trigger] out@[k], visited(file.items@)[k], path@) by {
                assert(out@[0 + k] == out@[k]);
            }
        }
        Some(out)
    } else {
        None
    }
}

} // verus!
