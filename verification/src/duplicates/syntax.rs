//! The syntax a function is normalized from.
//!
//! A [`SynNode`] records one syntactic construct of a Rust function as the
//! parser saw it — including the names, paths, member names and literal
//! texts that normalization throws away — and its syntactic children in
//! source order. [`normalize_node`] turns it into a [`NormNode`]:
//!
//! * grouping constructs (parentheses, invisible groups, a block used as an
//!   expression) are transparent and stand for their only child;
//! * every other construct becomes one node whose kind keeps what decides
//!   the shape (operator tokens, mutability, receiver form, literal kind,
//!   whether a statement ends in `;`) and drops every name and literal
//!   value;
//! * children keep their order.

use vstd::prelude::*;

use crate::duplicates::normalize::{count_forest, count_nodes, LitKind, NodeKind, NormNode, ReceiverShape};
use crate::duplicates::fingerprint::{fnv_fold, fold_children, forest_prints, kind_bytes, node_print, print_set, FNV_OFFSET};

verus! {

/// One syntactic construct, with the plain values the parser gives for it.
#[derive(Debug, Clone)]
pub enum SynTag {
    /// A function or method; children are the typed parameters, the
    /// declared return type if any, and the body.
    Function {
        name: String,
        receiver: Option<ReceiverShape>,
        is_async: bool,
        is_unsafe: bool,
        is_const: bool,
    },
    /// A typed parameter; children are the pattern and the type.
    Param,
    /// A declared return type; the child is the type.
    ReturnType,
    /// A braced block; children are its statements.
    Block,
    /// A `let` statement; children are the pattern, the initializer and the
    /// `else` branch, when present.
    Local,
    /// An expression statement, with or without its trailing `;`.
    ExprStmt { semi: bool },
    /// A nested item declaration.
    ItemStmt,
    /// A macro invocation in statement, expression or type position.
    Macro { text: String },
    /// `( … )` around an expression.
    Paren,
    /// An invisible group around an expression.
    Group,
    /// A block used as an expression; the child is the block.
    ExprBlock,
    If,
    /// The `let` of an `if let` / `while let`.
    LetCond,
    Match,
    Arm,
    ForLoop,
    While,
    Loop,
    Break,
    Continue,
    Return,
    Binary { op: String },
    Unary { op: String },
    Assign,
    Cast,
    Reference { mutable: bool },
    Call,
    MethodCall { method: String },
    Field { member: String },
    Index,
    Try,
    Await,
    Closure,
    StructLit { path: String },
    ArrayLit,
    TupleLit,
    Repeat,
    Range,
    UnsafeBlock,
    AsyncBlock,
    TryBlock,
    ConstBlock,
    /// A path expression or path pattern.
    Path { path: String },
    /// A literal expression or literal pattern.
    Lit { kind: LitKind, text: String },
    TypeSlice,
    TypeArray,
    TypeTuple,
    TypeRef { mutable: bool },
    TypePtr { mutable: bool },
    /// A named type; children are the final segment's type arguments.
    TypePath { path: String },
    TypeFn,
    TypeImplTrait,
    TypeTraitObject,
    TypeNever,
    TypeInfer,
    /// `( … )` around a type.
    TypeParen,
    /// An invisible group around a type.
    TypeGroup,
    /// A binding pattern; the child is the `@` subpattern, if any.
    PatIdent { name: String },
    PatWild,
    PatRest,
    /// `( … )` around a pattern.
    PatParen,
    PatTuple,
    PatTupleStruct { path: String },
    PatStruct { path: String },
    PatSlice,
    PatRef,
    PatOr,
    PatType,
    /// Any construct not modelled above.
    Other,
}

/// A syntactic construct and its syntactic children, in source order.
#[derive(Debug)]
pub struct SynNode {
    pub tag: SynTag,
    pub children: Vec<SynNode>,
}

/// Grouping constructs, which stand for their only child.
pub open spec fn is_transparent(t: SynTag) -> bool {
    match t {
        SynTag::Paren | SynTag::Group | SynTag::ExprBlock | SynTag::TypeParen | SynTag::TypeGroup
        | SynTag::PatParen => true,
        _ => false,
    }
}

/// The normalized kind of a construct: what decides its shape, without any
/// name, path or literal value.
pub open spec fn kind_of(t: SynTag) -> NodeKind {
    match t {
        SynTag::Function { receiver, is_async, is_unsafe, is_const, .. } => NodeKind::Function {
            receiver,
            is_async,
            is_unsafe,
            is_const,
        },
        SynTag::Param => NodeKind::Param,
        SynTag::ReturnType => NodeKind::ReturnType,
        SynTag::Block => NodeKind::Block,
        SynTag::Local => NodeKind::Let,
        SynTag::ExprStmt { semi } => if semi {
            NodeKind::ExprStmt
        } else {
            NodeKind::ExprValue
        },
        SynTag::ItemStmt => NodeKind::Item,
        SynTag::Macro { .. } => NodeKind::Macro,
        SynTag::If => NodeKind::If,
        SynTag::LetCond => NodeKind::LetCond,
        SynTag::Match => NodeKind::Match,
        SynTag::Arm => NodeKind::Arm,
        SynTag::ForLoop => NodeKind::ForLoop,
        SynTag::While => NodeKind::While,
        SynTag::Loop => NodeKind::Loop,
        SynTag::Break => NodeKind::Break,
        SynTag::Continue => NodeKind::Continue,
        SynTag::Return => NodeKind::Return,
        SynTag::Binary { op } => NodeKind::Binary(op),
        SynTag::Unary { op } => NodeKind::Unary(op),
        SynTag::Assign => NodeKind::Assign,
        SynTag::Cast => NodeKind::Cast,
        SynTag::Reference { mutable } => NodeKind::Reference { mutable },
        SynTag::Call => NodeKind::Call,
        SynTag::MethodCall { .. } => NodeKind::MethodCall,
        SynTag::Field { .. } => NodeKind::Field,
        SynTag::Index => NodeKind::Index,
        SynTag::Try => NodeKind::Try,
        SynTag::Await => NodeKind::Await,
        SynTag::Closure => NodeKind::Closure,
        SynTag::StructLit { .. } => NodeKind::StructLit,
        SynTag::ArrayLit => NodeKind::ArrayLit,
        SynTag::TupleLit => NodeKind::TupleLit,
        SynTag::Repeat => NodeKind::Repeat,
        SynTag::Range => NodeKind::Range,
        SynTag::UnsafeBlock => NodeKind::UnsafeBlock,
        SynTag::AsyncBlock => NodeKind::AsyncBlock,
        SynTag::TryBlock => NodeKind::TryBlock,
        SynTag::ConstBlock => NodeKind::ConstBlock,
        SynTag::Path { .. } => NodeKind::Path,
        SynTag::Lit { kind, .. } => NodeKind::Lit(kind),
        SynTag::TypeSlice => NodeKind::TypeSlice,
        SynTag::TypeArray => NodeKind::TypeArray,
        SynTag::TypeTuple => NodeKind::TypeTuple,
        SynTag::TypeRef { mutable } => NodeKind::TypeRef { mutable },
        SynTag::TypePtr { mutable } => NodeKind::TypePtr { mutable },
        SynTag::TypePath { .. } => NodeKind::TypePath,
        SynTag::TypeFn => NodeKind::TypeFn,
        SynTag::TypeImplTrait => NodeKind::TypeImplTrait,
        SynTag::TypeTraitObject => NodeKind::TypeTraitObject,
        SynTag::TypeNever => NodeKind::TypeNever,
        SynTag::TypeInfer => NodeKind::TypeInfer,
        SynTag::PatIdent { .. } => NodeKind::PatIdent,
        SynTag::PatWild => NodeKind::PatWild,
        SynTag::PatRest => NodeKind::PatRest,
        SynTag::PatTuple => NodeKind::PatTuple,
        SynTag::PatTupleStruct { .. } => NodeKind::PatTuple,
        SynTag::PatStruct { .. } => NodeKind::PatStruct,
        SynTag::PatSlice => NodeKind::PatSlice,
        SynTag::PatRef => NodeKind::PatRef,
        SynTag::PatOr => NodeKind::PatOr,
        SynTag::PatType => NodeKind::PatType,
        _ => NodeKind::Other,
    }
}

/// `r` is the normalized form of `n`.
pub open spec fn normalizes(n: SynNode, r: NormNode) -> bool
    decreases n,
{
    if is_transparent(n.tag) {
        if n.children@.len() > 0 {
            normalizes(n.children@[0], r)
        } else {
            r.kind == NodeKind::Other && r.children@.len() == 0
        }
    } else {
        r.kind == kind_of(n.tag) && normalizes_all(n.children@, r.children@)
    }
}

/// `rs` are the normalized forms of `ns`, one for one, in order.
pub open spec fn normalizes_all(ns: Seq<SynNode>, rs: Seq<NormNode>) -> bool
    decreases ns,
{
    if ns.len() == 0 {
        rs.len() == 0
    } else {
        &&& rs.len() == ns.len()
        &&& normalizes_all(ns.drop_last(), rs.drop_last())
        &&& normalizes(ns.last(), rs.last())
    }
}

/// `a` and `b` are the same construct up to names, paths, member names and
/// literal values, and so are their children, pairwise.
pub open spec fn same_shape(a: SynNode, b: SynNode) -> bool
    decreases a,
{
    &&& kind_of(a.tag) == kind_of(b.tag)
    &&& is_transparent(a.tag) == is_transparent(b.tag)
    &&& same_shapes(a.children@, b.children@)
}

/// [`same_shape`], pairwise over two sequences of the same length.
pub open spec fn same_shapes(xs: Seq<SynNode>, ys: Seq<SynNode>) -> bool
    decreases xs,
{
    if xs.len() == 0 {
        ys.len() == 0
    } else {
        &&& ys.len() == xs.len()
        &&& same_shapes(xs.drop_last(), ys.drop_last())
        &&& same_shape(xs.last(), ys.last())
    }
}

proof fn lemma_same_shapes_first(xs: Seq<SynNode>, ys: Seq<SynNode>)
    requires
        same_shapes(xs, ys),
        xs.len() > 0,
    ensures
        ys.len() == xs.len(),
        same_shape(xs[0], ys[0]),
    decreases xs.len(),
{
    if xs.len() > 1 {
        lemma_same_shapes_first(xs.drop_last(), ys.drop_last());
        assert(xs.drop_last()[0] == xs[0]);
        assert(ys.drop_last()[0] == ys[0]);
    }
}

/// Renaming changes nothing: whatever `a` normalizes to, every construct of
/// the same shape — differing only in names, paths, member names or literal
/// values — normalizes to as well.
pub proof fn lemma_renaming_keeps_normal_form(a: SynNode, b: SynNode, r: NormNode)
    requires
        same_shape(a, b),
        normalizes(a, r),
    ensures
        normalizes(b, r),
    decreases a,
{
    if is_transparent(a.tag) {
        if a.children@.len() > 0 {
            lemma_same_shapes_first(a.children@, b.children@);
            assert(decreases_to!(a => a.children));
            lemma_renaming_keeps_normal_form(a.children@[0], b.children@[0], r);
        }
    } else {
        assert(decreases_to!(a => a.children));
        lemma_renaming_keeps_all(a.children@, b.children@, r.children@);
    }
}

proof fn lemma_renaming_keeps_all(xs: Seq<SynNode>, ys: Seq<SynNode>, rs: Seq<NormNode>)
    requires
        same_shapes(xs, ys),
        normalizes_all(xs, rs),
    ensures
        normalizes_all(ys, rs),
    decreases xs,
{
    if xs.len() > 0 {
        lemma_renaming_keeps_all(xs.drop_last(), ys.drop_last(), rs.drop_last());
        lemma_renaming_keeps_normal_form(xs.last(), ys.last(), rs.last());
    }
}

/// The normal form of a construct is unique in everything measured of it:
/// any two normal forms of `n` have the same fingerprint, the same
/// fingerprint set and the same node count.
pub proof fn lemma_normal_form_unique(n: SynNode, t1: NormNode, t2: NormNode)
    requires
        normalizes(n, t1),
        normalizes(n, t2),
    ensures
        node_print(t1) == node_print(t2),
        print_set(t1) == print_set(t2),
        count_nodes(t1) == count_nodes(t2),
    decreases n,
{
    if is_transparent(n.tag) {
        if n.children@.len() > 0 {
            assert(decreases_to!(n => n.children));
            lemma_normal_form_unique(n.children@[0], t1, t2);
        } else {
            assert(t1.children@ =~= t2.children@);
        }
    } else {
        assert(decreases_to!(n => n.children));
        assert(t1.kind == t2.kind);
        let h = fnv_fold(FNV_OFFSET, kind_bytes(t1.kind));
        lemma_normal_forms_unique(n.children@, t1.children@, t2.children@, h);
        assert(node_print(t1) == fold_children(h, t1.children@));
        assert(node_print(t2) == fold_children(h, t2.children@));
    }
}

proof fn lemma_normal_forms_unique(ns: Seq<SynNode>, r1: Seq<NormNode>, r2: Seq<NormNode>, h: u64)
    requires
        normalizes_all(ns, r1),
        normalizes_all(ns, r2),
    ensures
        fold_children(h, r1) == fold_children(h, r2),
        forest_prints(r1) == forest_prints(r2),
        count_forest(r1) == count_forest(r2),
    decreases ns,
{
    if ns.len() > 0 {
        lemma_normal_forms_unique(ns.drop_last(), r1.drop_last(), r2.drop_last(), h);
        lemma_normal_form_unique(ns.last(), r1.last(), r2.last());
    }
}

/// Whether `t` is a grouping construct (see [`is_transparent`]).
fn transparent(t: &SynTag) -> (r: bool)
    ensures
        r == is_transparent(*t),
{
    match t {
        SynTag::Paren | SynTag::Group | SynTag::ExprBlock | SynTag::TypeParen | SynTag::TypeGroup
        | SynTag::PatParen => true,
        _ => false,
    }
}

/// The normalized kind of `t` (see [`kind_of`]).
pub fn kind_for(t: &SynTag) -> (r: NodeKind)
    ensures
        r == kind_of(*t),
{
    match t {
        SynTag::Function { receiver, is_async, is_unsafe, is_const, .. } => NodeKind::Function {
            receiver: *receiver,
            is_async: *is_async,
            is_unsafe: *is_unsafe,
            is_const: *is_const,
        },
        SynTag::Param => NodeKind::Param,
        SynTag::ReturnType => NodeKind::ReturnType,
        SynTag::Block => NodeKind::Block,
        SynTag::Local => NodeKind::Let,
        SynTag::ExprStmt { semi } => if *semi {
            NodeKind::ExprStmt
        } else {
            NodeKind::ExprValue
        },
        SynTag::ItemStmt => NodeKind::Item,
        SynTag::Macro { .. } => NodeKind::Macro,
        SynTag::If => NodeKind::If,
        SynTag::LetCond => NodeKind::LetCond,
        SynTag::Match => NodeKind::Match,
        SynTag::Arm => NodeKind::Arm,
        SynTag::ForLoop => NodeKind::ForLoop,
        SynTag::While => NodeKind::While,
        SynTag::Loop => NodeKind::Loop,
        SynTag::Break => NodeKind::Break,
        SynTag::Continue => NodeKind::Continue,
        SynTag::Return => NodeKind::Return,
        SynTag::Binary { op } => NodeKind::Binary(op.clone()),
        SynTag::Unary { op } => NodeKind::Unary(op.clone()),
        SynTag::Assign => NodeKind::Assign,
        SynTag::Cast => NodeKind::Cast,
        SynTag::Reference { mutable } => NodeKind::Reference { mutable: *mutable },
        SynTag::Call => NodeKind::Call,
        SynTag::MethodCall { .. } => NodeKind::MethodCall,
        SynTag::Field { .. } => NodeKind::Field,
        SynTag::Index => NodeKind::Index,
        SynTag::Try => NodeKind::Try,
        SynTag::Await => NodeKind::Await,
        SynTag::Closure => NodeKind::Closure,
        SynTag::StructLit { .. } => NodeKind::StructLit,
        SynTag::ArrayLit => NodeKind::ArrayLit,
        SynTag::TupleLit => NodeKind::TupleLit,
        SynTag::Repeat => NodeKind::Repeat,
        SynTag::Range => NodeKind::Range,
        SynTag::UnsafeBlock => NodeKind::UnsafeBlock,
        SynTag::AsyncBlock => NodeKind::AsyncBlock,
        SynTag::TryBlock => NodeKind::TryBlock,
        SynTag::ConstBlock => NodeKind::ConstBlock,
        SynTag::Path { .. } => NodeKind::Path,
        SynTag::Lit { kind, .. } => NodeKind::Lit(*kind),
        SynTag::TypeSlice => NodeKind::TypeSlice,
        SynTag::TypeArray => NodeKind::TypeArray,
        SynTag::TypeTuple => NodeKind::TypeTuple,
        SynTag::TypeRef { mutable } => NodeKind::TypeRef { mutable: *mutable },
        SynTag::TypePtr { mutable } => NodeKind::TypePtr { mutable: *mutable },
        SynTag::TypePath { .. } => NodeKind::TypePath,
        SynTag::TypeFn => NodeKind::TypeFn,
        SynTag::TypeImplTrait => NodeKind::TypeImplTrait,
        SynTag::TypeTraitObject => NodeKind::TypeTraitObject,
        SynTag::TypeNever => NodeKind::TypeNever,
        SynTag::TypeInfer => NodeKind::TypeInfer,
        SynTag::PatIdent { .. } => NodeKind::PatIdent,
        SynTag::PatWild => NodeKind::PatWild,
        SynTag::PatRest => NodeKind::PatRest,
        SynTag::PatTuple => NodeKind::PatTuple,
        SynTag::PatTupleStruct { .. } => NodeKind::PatTuple,
        SynTag::PatStruct { .. } => NodeKind::PatStruct,
        SynTag::PatSlice => NodeKind::PatSlice,
        SynTag::PatRef => NodeKind::PatRef,
        SynTag::PatOr => NodeKind::PatOr,
        SynTag::PatType => NodeKind::PatType,
        _ => NodeKind::Other,
    }
}

/// Normalize a construct and everything under it (see [`normalizes`]).
pub fn normalize_node(n: &SynNode) -> (r: NormNode)
    ensures
        normalizes(*n, r),
    decreases *n,
{
    if transparent(&n.tag) {
        if n.children.len() > 0 {
            assert(decreases_to!(*n => n.children));
            return normalize_node(&n.children[0]);
        }
        return NormNode::leaf(NodeKind::Other);
    }
    let kind = kind_for(&n.tag);
    let ghost cs = n.children@;
    let mut kids: Vec<NormNode> = Vec::new();
    let mut i: usize = 0;
    assert(cs.take(0) =~= Seq::<SynNode>::empty());
    while i < n.children.len()
        invariant
            cs == n.children@,
            i <= cs.len(),
            normalizes_all(cs.take(i as int), kids@),
        decreases cs.len() - i,
    {
        assert(decreases_to!(*n => n.children));
        let c = normalize_node(&n.children[i]);
        let ghost before = kids@;
        kids.push(c);
        assert(cs.take(i + 1).drop_last() =~= cs.take(i as int));
        assert(cs.take(i + 1).last() == cs[i as int]);
        assert(kids@.drop_last() =~= before);
        i = i + 1;
    }
    assert(cs.take(cs.len() as int) =~= cs);
    NormNode::with(kind, kids)
}


proof fn lemma_normalizes_all_index(ns: Seq<SynNode>, rs: Seq<NormNode>)
    requires
        normalizes_all(ns, rs),
    ensures
        rs.len() == ns.len(),
        forall|i: int| 0 <= i < ns.len() ==> normalizes(#[trigger] ns[i], rs[i]),
    decreases ns.len(),
{
    if ns.len() > 0 {
        lemma_normalizes_all_index(ns.drop_last(), rs.drop_last());
        assert forall|i: int| 0 <= i < ns.len() implies normalizes(#[trigger] ns[i], rs[i]) by {
            if i < ns.len() - 1 {
                assert(ns.drop_last()[i] == ns[i]);
                assert(rs.drop_last()[i] == rs[i]);
            }
        }
    }
}

/// Only grouping constructs — parentheses, invisible groups and blocks used
/// as expressions, around expressions, types or patterns — disappear in
/// normalization. Every other construct becomes one node with one
/// normalized child per syntactic child, in order.
pub proof fn lemma_only_grouping_disappears(n: SynNode, r: NormNode)
    requires
        normalizes(n, r),
        !(n.tag is Paren || n.tag is Group || n.tag is ExprBlock || n.tag is TypeParen || n.tag is TypeGroup
            || n.tag is PatParen),
    ensures
        r.children@.len() == n.children@.len(),
        forall|i: int| 0 <= i < n.children@.len() ==> normalizes(#[trigger] n.children@[i], r.children@[i]),
{
    lemma_normalizes_all_index(n.children@, r.children@);
}

/// What decides a shape is kept: a unary or binary operation normalizes to
/// a node carrying the same operator token, so operations that differ only
/// in their operator never normalize alike; a literal keeps its kind, a
/// borrow or reference type its mutability, an expression statement
/// whether it ends in `;`, and a function its receiver form and
/// qualifiers.
pub proof fn lemma_operators_kept(n: SynNode, r: NormNode)
    requires
        normalizes(n, r),
    ensures
        n.tag matches SynTag::Unary { op } ==> r.kind == NodeKind::Unary(op),
        n.tag matches SynTag::Binary { op } ==> r.kind == NodeKind::Binary(op),
        n.tag matches SynTag::Lit { kind, .. } ==> r.kind == NodeKind::Lit(kind),
        n.tag matches SynTag::Reference { mutable } ==> r.kind == (NodeKind::Reference { mutable }),
        n.tag matches SynTag::TypeRef { mutable } ==> r.kind == (NodeKind::TypeRef { mutable }),
        n.tag matches SynTag::ExprStmt { semi } ==> r.kind == if semi {
            NodeKind::ExprStmt
        } else {
            NodeKind::ExprValue
        },
        n.tag matches SynTag::Function { receiver, is_async, is_unsafe, is_const, .. } ==> r.kind == (
        NodeKind::Function { receiver, is_async, is_unsafe, is_const }),
{
}

/// Two unary (or two binary) operations with different operator tokens
/// normalize to nodes of different kinds.
pub proof fn lemma_different_operators_differ(n1: SynNode, r1: NormNode, n2: SynNode, r2: NormNode)
    requires
        normalizes(n1, r1),
        normalizes(n2, r2),
    ensures
        (n1.tag matches SynTag::Unary { op: a } && n2.tag matches SynTag::Unary { op: b } && a@ != b@) ==> r1.kind
            != r2.kind,
        (n1.tag matches SynTag::Binary { op: a } && n2.tag matches SynTag::Binary { op: b } && a@ != b@) ==> r1.kind
            != r2.kind,
{
}

} // verus!
