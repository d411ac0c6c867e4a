//! Deterministic structural fingerprints over a normalized tree.
//!
//! Every subtree of a normalized function gets one fingerprint, and equal
//! subtrees get equal fingerprints. A function's fingerprint *set* is what
//! similarity is computed over, so the set contains one entry per distinct
//! shape appearing anywhere in the function — including the whole function.
//!
//! The hash is FNV-1a with the standard 64-bit parameters over a fixed byte
//! encoding of each node: the node kind's variant position as 8 little-endian
//! bytes, then its payload (a receiver shape, a mutability flag, an operator
//! token followed by `0xff`, a literal kind), then the 8 little-endian bytes
//! of each child's fingerprint in order. Folding the child's *fingerprint*
//! rather than re-walking the child is what makes equal subtrees hash
//! equally wherever they appear.

use std::collections::BTreeSet;
use vstd::prelude::*;
use vstd::utf8::encode_utf8;

use super::normalize::{
    count_forest, count_nodes, kind_index, kind_position, LitKind, NodeKind, NormNode,
    ReceiverShape,
};

verus! {

broadcast use vstd::laws_cmp::group_laws_cmp;

/// A structural fingerprint: the hash of one normalized subtree.
#[derive(Debug, Clone, Copy, PartialEq, Eq, Structural, PartialOrd, Ord, Hash)]
pub struct Fingerprint(pub u64);

/// FNV-1a 64-bit offset basis.
pub const FNV_OFFSET: u64 = 0xcbf2_9ce4_8422_2325;

/// FNV-1a 64-bit prime.
pub const FNV_PRIME: u64 = 0x0000_0100_0000_01b3;

/// One FNV-1a round: xor the byte in, then multiply by the prime modulo 2⁶⁴.
pub open spec fn fnv_step(state: u64, b: u8) -> u64 {
    (((state ^ (b as u64)) as nat * FNV_PRIME as nat) % 0x1_0000_0000_0000_0000nat) as u64
}

/// FNV-1a rounds over `bytes`, in order, starting from `state`.
pub open spec fn fnv_fold(state: u64, bytes: Seq<u8>) -> u64
    decreases bytes.len(),
{
    if bytes.len() == 0 {
        state
    } else {
        fnv_step(fnv_fold(state, bytes.drop_last()), bytes.last())
    }
}

/// The 8 little-endian bytes of `x`.
pub open spec fn le_bytes(x: u64) -> Seq<u8> {
    seq![
        (x & 0xff) as u8,
        ((x >> 8u64) & 0xff) as u8,
        ((x >> 16u64) & 0xff) as u8,
        ((x >> 24u64) & 0xff) as u8,
        ((x >> 32u64) & 0xff) as u8,
        ((x >> 40u64) & 0xff) as u8,
        ((x >> 48u64) & 0xff) as u8,
        ((x >> 56u64) & 0xff) as u8,
    ]
}

/// The byte a flag is encoded as.
pub open spec fn bool_byte(b: bool) -> u8 {
    if b { 1 } else { 0 }
}

/// The position of a literal kind in the declaration of [`LitKind`].
pub open spec fn lit_index(l: LitKind) -> u64 {
    match l {
        LitKind::Int => 0,
        LitKind::Float => 1,
        LitKind::Str => 2,
        LitKind::ByteStr => 3,
        LitKind::Byte => 4,
        LitKind::Char => 5,
        LitKind::Bool => 6,
        LitKind::Verbatim => 7,
    }
}

/// The encoding of a receiver shape: the `Option` variant, then the shape's
/// variant, then a `Ref`'s mutability.
pub open spec fn receiver_bytes(r: Option<ReceiverShape>) -> Seq<u8> {
    match r {
        None => le_bytes(0),
        Some(shape) => le_bytes(1) + match shape {
            ReceiverShape::Value => le_bytes(0),
            ReceiverShape::Ref { mutable } => le_bytes(1) + seq![bool_byte(mutable)],
            ReceiverShape::Typed => le_bytes(2),
        },
    }
}

/// The bytes a node kind contributes to its node's fingerprint: its variant
/// position, then its payload.
pub open spec fn kind_bytes(k: NodeKind) -> Seq<u8> {
    le_bytes(kind_index(k)) + match k {
        NodeKind::Function { receiver, is_async, is_unsafe, is_const } => receiver_bytes(receiver)
            + seq![bool_byte(is_async), bool_byte(is_unsafe), bool_byte(is_const)],
        NodeKind::Binary(op) => encode_utf8(op@) + seq![0xffu8],
        NodeKind::Unary(op) => encode_utf8(op@) + seq![0xffu8],
        NodeKind::Reference { mutable } => seq![bool_byte(mutable)],
        NodeKind::TypeRef { mutable } => seq![bool_byte(mutable)],
        NodeKind::TypePtr { mutable } => seq![bool_byte(mutable)],
        NodeKind::Lit(l) => le_bytes(lit_index(l)),
        _ => Seq::<u8>::empty(),
    }
}

/// The fingerprint of the tree rooted at `n`.
pub open spec fn node_print(n: NormNode) -> u64
    decreases n,
{
    fold_children(fnv_fold(FNV_OFFSET, kind_bytes(n.kind)), n.children@)
}

/// `h` with the fingerprints of the trees in `cs` folded in, in order.
pub open spec fn fold_children(h: u64, cs: Seq<NormNode>) -> u64
    decreases cs,
{
    if cs.len() == 0 {
        h
    } else {
        fnv_fold(fold_children(h, cs.drop_last()), le_bytes(node_print(cs.last())))
    }
}

/// The fingerprints of every subtree of `n`, `n` itself included.
pub open spec fn print_set(n: NormNode) -> Set<u64>
    decreases n,
{
    forest_prints(n.children@).insert(node_print(n))
}

/// The fingerprints of every subtree of every tree in `cs`.
pub open spec fn forest_prints(cs: Seq<NormNode>) -> Set<u64>
    decreases cs,
{
    if cs.len() == 0 {
        Set::empty()
    } else {
        forest_prints(cs.drop_last()).union(print_set(cs.last()))
    }
}

/// Hashing two byte strings one after the other is hashing their
/// concatenation.
pub proof fn lemma_fnv_fold_append(state: u64, a: Seq<u8>, b: Seq<u8>)
    ensures
        fnv_fold(state, a + b) == fnv_fold(fnv_fold(state, a), b),
    decreases b.len(),
{
    if b.len() == 0 {
        assert(a + b =~= a);
    } else {
        lemma_fnv_fold_append(state, a, b.drop_last());
        assert((a + b).drop_last() =~= a + b.drop_last());
        assert((a + b).last() == b.last());
    }
}

/// FNV-1a as a running hash state.
pub struct Fnv1a {
    pub state: u64,
}

impl Fnv1a {
    /// A fresh hasher at the FNV offset basis.
    pub fn new() -> (h: Self)
        ensures
            h.state == FNV_OFFSET,
    {
        Fnv1a { state: FNV_OFFSET }
    }

    /// Feed `bytes`, in order.
    pub fn write(&mut self, bytes: &[u8])
        ensures
            final(self).state == fnv_fold(old(self).state, bytes@),
    {
        let mut i: usize = 0;
        assert(bytes@.take(0) =~= Seq::<u8>::empty());
        while i < bytes.len()
            invariant
                i <= bytes.len(),
                self.state == fnv_fold(old(self).state, bytes@.take(i as int)),
            decreases bytes.len() - i,
        {
            let b = bytes[i];
            assert(bytes@.take(i + 1).drop_last() =~= bytes@.take(i as int));
            self.state = (self.state ^ (b as u64)).wrapping_mul(FNV_PRIME);
            i = i + 1;
        }
        assert(bytes@.take(bytes.len() as int) =~= bytes@);
    }

    /// Feed one byte.
    pub fn write_u8(&mut self, b: u8)
        ensures
            final(self).state == fnv_fold(old(self).state, seq![b]),
    {
        let v: Vec<u8> = vec![b];
        self.write(v.as_slice());
        assert(v@ =~= seq![b]);
    }

    /// Feed the 8 little-endian bytes of `x`.
    pub fn write_u64(&mut self, x: u64)
        ensures
            final(self).state == fnv_fold(old(self).state, le_bytes(x)),
    {
        let v: Vec<u8> = vec![
            (x & 0xff) as u8,
            ((x >> 8u64) & 0xff) as u8,
            ((x >> 16u64) & 0xff) as u8,
            ((x >> 24u64) & 0xff) as u8,
            ((x >> 32u64) & 0xff) as u8,
            ((x >> 40u64) & 0xff) as u8,
            ((x >> 48u64) & 0xff) as u8,
            ((x >> 56u64) & 0xff) as u8,
        ];
        self.write(v.as_slice());
        assert(v@ =~= le_bytes(x));
    }

    /// The hash of everything fed so far.
    pub fn finish(&self) -> (r: u64)
        ensures
            r == self.state,
    {
        self.state
    }
}

fn bool_to_byte(b: bool) -> (r: u8)
    ensures
        r == bool_byte(b),
{
    if b { 1 } else { 0 }
}

fn lit_position(l: LitKind) -> (r: u64)
    ensures
        r == lit_index(l),
{
    match l {
        LitKind::Int => 0,
        LitKind::Float => 1,
        LitKind::Str => 2,
        LitKind::ByteStr => 3,
        LitKind::Byte => 4,
        LitKind::Char => 5,
        LitKind::Bool => 6,
        LitKind::Verbatim => 7,
    }
}

fn hash_receiver(r: Option<ReceiverShape>, h: &mut Fnv1a)
    ensures
        final(h).state == fnv_fold(old(h).state, receiver_bytes(r)),
{
    match r {
        None => {
            h.write_u64(0);
        },
        Some(shape) => {
            h.write_u64(1);
            let ghost mid = h.state;
            match shape {
                ReceiverShape::Value => {
                    h.write_u64(0);
                },
                ReceiverShape::Ref { mutable } => {
                    h.write_u64(1);
                    let ghost mid2 = h.state;
                    h.write_u8(bool_to_byte(mutable));
                    proof {
                        lemma_fnv_fold_append(mid, le_bytes(1), seq![bool_byte(mutable)]);
                    }
                },
                ReceiverShape::Typed => {
                    h.write_u64(2);
                },
            }
            proof {
                let tail = match shape {
                    ReceiverShape::Value => le_bytes(0),
                    ReceiverShape::Ref { mutable } => le_bytes(1) + seq![bool_byte(mutable)],
                    ReceiverShape::Typed => le_bytes(2),
                };
                lemma_fnv_fold_append(old(h).state, le_bytes(1), tail);
            }
        },
    }
}

fn hash_payload(k: &NodeKind, h: &mut Fnv1a)
    ensures
        final(h).state == fnv_fold(old(h).state, kind_bytes(*k).skip(8)),
{
    let ghost idx = le_bytes(kind_index(*k));
    match k {
        NodeKind::Function { receiver, is_async, is_unsafe, is_const } => {
            hash_receiver(*receiver, h);
            let ghost s1 = h.state;
            h.write_u8(bool_to_byte(*is_async));
            let ghost s2 = h.state;
            h.write_u8(bool_to_byte(*is_unsafe));
            let ghost s3 = h.state;
            h.write_u8(bool_to_byte(*is_const));
            proof {
                let a = seq![bool_byte(*is_async)];
                let b = seq![bool_byte(*is_unsafe)];
                let c = seq![bool_byte(*is_const)];
                lemma_fnv_fold_append(s1, a, b);
                lemma_fnv_fold_append(s1, a + b, c);
                assert(a + b + c =~= seq![bool_byte(*is_async), bool_byte(*is_unsafe), bool_byte(*is_const)]);
                lemma_fnv_fold_append(old(h).state, receiver_bytes(*receiver), a + b + c);
                assert(kind_bytes(*k).skip(8) =~= receiver_bytes(*receiver) + (a + b + c));
            }
        },
        NodeKind::Binary(op) | NodeKind::Unary(op) => {
            let bytes = op.as_str().as_bytes();
            h.write(bytes);
            let ghost s1 = h.state;
            h.write_u8(0xff);
            proof {
                lemma_fnv_fold_append(old(h).state, encode_utf8(op@), seq![0xffu8]);
                assert(kind_bytes(*k).skip(8) =~= encode_utf8(op@) + seq![0xffu8]);
            }
        },
        NodeKind::Reference { mutable } | NodeKind::TypeRef { mutable }
        | NodeKind::TypePtr { mutable } => {
            h.write_u8(bool_to_byte(*mutable));
            assert(kind_bytes(*k).skip(8) =~= seq![bool_byte(*mutable)]);
        },
        NodeKind::Lit(l) => {
            h.write_u64(lit_position(*l));
            assert(kind_bytes(*k).skip(8) =~= le_bytes(lit_index(*l)));
        },
        _ => {
            assert(kind_bytes(*k).skip(8) =~= Seq::<u8>::empty());
        },
    }
}

/// Feed the encoding of a node kind (see [`kind_bytes`]).
fn hash_kind(k: &NodeKind, h: &mut Fnv1a)
    ensures
        final(h).state == fnv_fold(old(h).state, kind_bytes(*k)),
{
    h.write_u64(kind_position(k));
    let ghost mid = h.state;
    hash_payload(k, h);
    proof {
        assert(kind_bytes(*k) =~= le_bytes(kind_index(*k)) + kind_bytes(*k).skip(8));
        lemma_fnv_fold_append(old(h).state, le_bytes(kind_index(*k)), kind_bytes(*k).skip(8));
    }
}

/// One post-order pass: each node is hashed once, using the fingerprints its
/// children just returned, and every fingerprint met on the way is added to
/// `out`.
fn collect(node: &NormNode, out: &mut BTreeSet<u64>) -> (p: u64)
    ensures
        p == node_print(*node),
        final(out)@ == old(out)@.union(print_set(*node)),
    decreases *node,
{
    let mut hasher = Fnv1a::new();
    hash_kind(&node.kind, &mut hasher);
    let ghost h0 = hasher.state;
    let ghost cs = node.children@;
    let mut i: usize = 0;
    assert(cs.take(0) =~= Seq::<NormNode>::empty());
    assert(old(out)@.union(Set::empty()) =~= old(out)@);
    while i < node.children.len()
        invariant
            cs == node.children@,
            i <= cs.len(),
            hasher.state == fold_children(h0, cs.take(i as int)),
            out@ == old(out)@.union(forest_prints(cs.take(i as int))),
        decreases cs.len() - i,
    {
        assert(cs.take(i + 1).drop_last() =~= cs.take(i as int));
        assert(cs.take(i + 1).last() == cs[i as int]);
        assert(decreases_to!(*node => node.children));
        let c = collect(&node.children[i], out);
        hasher.write_u64(c);
        assert(out@ =~= old(out)@.union(forest_prints(cs.take(i + 1))));
        i = i + 1;
    }
    assert(cs.take(cs.len() as int) =~= cs);
    let print = hasher.finish();
    out.insert(print);
    assert(out@ =~= old(out)@.union(print_set(*node)));
    print
}

/// The fingerprint of one subtree.
pub fn fingerprint(node: &NormNode) -> (r: Fingerprint)
    ensures
        r.0 == node_print(*node),
{
    let mut scratch: BTreeSet<u64> = BTreeSet::new();
    Fingerprint(collect(node, &mut scratch))
}

/// Every distinct subtree shape in this tree, including the tree itself.
///
/// A set, not a multiset: a shape repeated inside one function contributes
/// once, because similarity asks which shapes two functions have in common,
/// not how often each occurs.
pub fn fingerprints(root: &NormNode) -> (r: BTreeSet<u64>)
    ensures
        r@ == print_set(*root),
{
    let mut out: BTreeSet<u64> = BTreeSet::new();
    collect(root, &mut out);
    assert(Set::<u64>::empty().union(print_set(*root)) =~= print_set(*root));
    out
}

/// The whole tree's fingerprint is a member of its fingerprint set.
pub proof fn lemma_root_print_in_set(n: NormNode)
    ensures
        print_set(n).contains(node_print(n)),
{
}

/// Every subtree's shapes are shapes of the tree that contains it.
pub proof fn lemma_child_prints_in_set(n: NormNode, i: int)
    requires
        0 <= i < n.children@.len(),
    ensures
        print_set(n.children@[i]).subset_of(print_set(n)),
{
    lemma_forest_member(n.children@, i);
}

proof fn lemma_forest_member(cs: Seq<NormNode>, i: int)
    requires
        0 <= i < cs.len(),
    ensures
        print_set(cs[i]).subset_of(forest_prints(cs)),
    decreases cs.len(),
{
    if i < cs.len() - 1 {
        lemma_forest_member(cs.drop_last(), i);
    }
}

/// A tree's fingerprint set is finite and never has more entries than the
/// tree has nodes: identical subtrees share one entry.
pub proof fn lemma_print_set_bounded(n: NormNode)
    ensures
        print_set(n).finite(),
        print_set(n).len() <= count_nodes(n),
    decreases n,
{
    lemma_forest_prints_bounded(n.children@);
}

/// The fingerprint sets of a forest, together, are finite and no larger than
/// the forest's node count.
pub proof fn lemma_forest_prints_bounded(cs: Seq<NormNode>)
    ensures
        forest_prints(cs).finite(),
        forest_prints(cs).len() <= count_forest(cs),
    decreases cs,
{
    if cs.len() > 0 {
        lemma_forest_prints_bounded(cs.drop_last());
        lemma_print_set_bounded(cs.last());
        vstd::set_lib::lemma_len_union(forest_prints(cs.drop_last()), print_set(cs.last()));
    }
}

/// A node's fingerprint depends on its children only through their
/// fingerprints: two nodes of the same kind whose children hash pairwise
/// equal hash equal, wherever they appear.
pub proof fn lemma_print_is_compositional(a: NormNode, b: NormNode)
    requires
        a.kind == b.kind,
        a.children@.len() == b.children@.len(),
        forall|i: int|
            0 <= i < a.children@.len() ==> node_print(#[trigger] a.children@[i]) == node_print(
                b.children@[i],
            ),
    ensures
        node_print(a) == node_print(b),
{
    lemma_fold_children_pointwise(
        fnv_fold(FNV_OFFSET, kind_bytes(a.kind)),
        a.children@,
        b.children@,
    );
}

proof fn lemma_fold_children_pointwise(h: u64, xs: Seq<NormNode>, ys: Seq<NormNode>)
    requires
        xs.len() == ys.len(),
        forall|i: int| 0 <= i < xs.len() ==> node_print(#[trigger] xs[i]) == node_print(ys[i]),
    ensures
        fold_children(h, xs) == fold_children(h, ys),
    decreases xs.len(),
{
    if xs.len() > 0 {
        let xd = xs.drop_last();
        let yd = ys.drop_last();
        assert forall|i: int| 0 <= i < xd.len() implies node_print(#[trigger] xd[i]) == node_print(
            yd[i],
        ) by {
            assert(xd[i] == xs[i]);
            assert(yd[i] == ys[i]);
        }
        lemma_fold_children_pointwise(h, xd, yd);
        assert(node_print(xs[xs.len() - 1]) == node_print(ys[ys.len() - 1]));
    }
}

} // verus!
