//! Normalized syntax trees.
//!
//! A normalized tree keeps everything that decides a function's *shape* —
//! control flow, operators, receiver form, type structure — and drops
//! everything that only decides what it is *called* or what values it
//! mentions. Two functions that differ solely by renaming and by literal
//! values normalize to the same tree.

use vstd::prelude::*;

verus! {

/// The shape of a method receiver, with the binding's name discarded.
#[derive(Debug, Clone, Copy, PartialEq, Eq, Hash)]
pub enum ReceiverShape {
    /// `self`
    Value,
    /// `&self` / `&mut self`
    Ref {
        /// Whether the borrow is mutable.
        mutable: bool,
    },
    /// `self: Box<Self>` and other explicitly typed receivers.
    Typed,
}

/// The kind of a literal, with its value discarded.
#[derive(Debug, Clone, Copy, PartialEq, Eq, Hash)]
pub enum LitKind {
    /// Integer literal.
    Int,
    /// Floating-point literal.
    Float,
    /// String literal.
    Str,
    /// Byte-string literal.
    ByteStr,
    /// Byte literal.
    Byte,
    /// Character literal.
    Char,
    /// Boolean literal.
    Bool,
    /// Anything reported verbatim by the parser.
    Verbatim,
}

/// The structural label of a [`NormNode`].
#[derive(Debug, Clone, PartialEq, Eq, Hash)]
pub enum NodeKind {
    /// A whole function or method.
    Function {
        /// Receiver shape, `None` for a free function.
        receiver: Option<ReceiverShape>,
        /// Whether the function is `async`.
        is_async: bool,
        /// Whether the function is `unsafe`.
        is_unsafe: bool,
        /// Whether the function is `const`.
        is_const: bool,
    },
    /// One non-receiver parameter: its children are the pattern and the type.
    Param,
    /// A declared return type. Absent entirely when the function returns `()`.
    ReturnType,
    /// A braced block.
    Block,
    /// A `let` statement.
    Let,
    /// An expression evaluated for its value (no trailing semicolon).
    ExprValue,
    /// An expression evaluated as a statement (trailing semicolon).
    ExprStmt,
    /// A nested item declaration.
    Item,
    /// `if` / `if let`; children are condition, then-block, optional else.
    If,
    /// The `let` of an `if let` / `while let`.
    LetCond,
    /// `match`; children are the scrutinee and one arm each.
    Match,
    /// One `match` arm; children are the pattern, an optional guard, and the body.
    Arm,
    /// `for … in …`.
    ForLoop,
    /// `while`.
    While,
    /// `loop`.
    Loop,
    /// `break`.
    Break,
    /// `continue`.
    Continue,
    /// `return`.
    Return,
    /// A binary or compound-assignment operation, keeping the operator token.
    Binary(String),
    /// A unary operation, keeping the operator token.
    Unary(String),
    /// Plain assignment.
    Assign,
    /// An `as` cast.
    Cast,
    /// A borrow, keeping mutability.
    Reference {
        /// Whether the borrow is mutable.
        mutable: bool,
    },
    /// A call; the first child is the callee.
    Call,
    /// A method call; the first child is the receiver. The method name is dropped.
    MethodCall,
    /// Field access. The field name is dropped.
    Field,
    /// Indexing.
    Index,
    /// The `?` operator.
    Try,
    /// `.await`.
    Await,
    /// A closure; the last child is the body.
    Closure,
    /// A struct literal.
    StructLit,
    /// An array literal.
    ArrayLit,
    /// A tuple literal.
    TupleLit,
    /// `[value; count]`.
    Repeat,
    /// A range expression.
    Range,
    /// An `unsafe` block.
    UnsafeBlock,
    /// An `async` block.
    AsyncBlock,
    /// A `try` block.
    TryBlock,
    /// A `const` block.
    ConstBlock,
    /// A macro invocation. Its token stream is not an AST and is not entered.
    Macro,
    /// Any path expression — a variable, a function name, a constant.
    Path,
    /// A literal, keeping only its kind.
    Lit(LitKind),
    /// `[T]`.
    TypeSlice,
    /// `[T; N]`.
    TypeArray,
    /// `(A, B)`.
    TypeTuple,
    /// `&T` / `&mut T`.
    TypeRef {
        /// Whether the reference is mutable.
        mutable: bool,
    },
    /// `*const T` / `*mut T`.
    TypePtr {
        /// Whether the pointer is mutable.
        mutable: bool,
    },
    /// A named type; generic type arguments become children.
    TypePath,
    /// A function-pointer type.
    TypeFn,
    /// `impl Trait`.
    TypeImplTrait,
    /// `dyn Trait`.
    TypeTraitObject,
    /// `!`
    TypeNever,
    /// `_`
    TypeInfer,
    /// A binding pattern; the name is dropped.
    PatIdent,
    /// `_`
    PatWild,
    /// A tuple or tuple-struct pattern.
    PatTuple,
    /// A struct pattern.
    PatStruct,
    /// A slice pattern.
    PatSlice,
    /// A reference pattern.
    PatRef,
    /// An or-pattern.
    PatOr,
    /// `..`
    PatRest,
    /// A type-ascribed pattern.
    PatType,
    /// Any construct not modelled above.
    Other,
}

/// A normalized syntax node: a structural label plus ordered children.
///
/// Children are ordered because statement order and operand order are
/// structural. Nothing here carries a name or a literal value.
#[derive(Debug, PartialEq, Eq, Hash)]
pub struct NormNode {
    /// What kind of construct this node is.
    pub kind: NodeKind,
    /// Sub-nodes, in source order.
    pub children: Vec<NormNode>,
}

/// The position of `k`'s variant in the declaration of [`NodeKind`].
pub open spec fn kind_index(k: NodeKind) -> u64 {
    match k {
        NodeKind::Function { .. } => 0,
        NodeKind::Param => 1,
        NodeKind::ReturnType => 2,
        NodeKind::Block => 3,
        NodeKind::Let => 4,
        NodeKind::ExprValue => 5,
        NodeKind::ExprStmt => 6,
        NodeKind::Item => 7,
        NodeKind::If => 8,
        NodeKind::LetCond => 9,
        NodeKind::Match => 10,
        NodeKind::Arm => 11,
        NodeKind::ForLoop => 12,
        NodeKind::While => 13,
        NodeKind::Loop => 14,
        NodeKind::Break => 15,
        NodeKind::Continue => 16,
        NodeKind::Return => 17,
        NodeKind::Binary(..) => 18,
        NodeKind::Unary(..) => 19,
        NodeKind::Assign => 20,
        NodeKind::Cast => 21,
        NodeKind::Reference { .. } => 22,
        NodeKind::Call => 23,
        NodeKind::MethodCall => 24,
        NodeKind::Field => 25,
        NodeKind::Index => 26,
        NodeKind::Try => 27,
        NodeKind::Await => 28,
        NodeKind::Closure => 29,
        NodeKind::StructLit => 30,
        NodeKind::ArrayLit => 31,
        NodeKind::TupleLit => 32,
        NodeKind::Repeat => 33,
        NodeKind::Range => 34,
        NodeKind::UnsafeBlock => 35,
        NodeKind::AsyncBlock => 36,
        NodeKind::TryBlock => 37,
        NodeKind::ConstBlock => 38,
        NodeKind::Macro => 39,
        NodeKind::Path => 40,
        NodeKind::Lit(..) => 41,
        NodeKind::TypeSlice => 42,
        NodeKind::TypeArray => 43,
        NodeKind::TypeTuple => 44,
        NodeKind::TypeRef { .. } => 45,
        NodeKind::TypePtr { .. } => 46,
        NodeKind::TypePath => 47,
        NodeKind::TypeFn => 48,
        NodeKind::TypeImplTrait => 49,
        NodeKind::TypeTraitObject => 50,
        NodeKind::TypeNever => 51,
        NodeKind::TypeInfer => 52,
        NodeKind::PatIdent => 53,
        NodeKind::PatWild => 54,
        NodeKind::PatTuple => 55,
        NodeKind::PatStruct => 56,
        NodeKind::PatSlice => 57,
        NodeKind::PatRef => 58,
        NodeKind::PatOr => 59,
        NodeKind::PatRest => 60,
        NodeKind::PatType => 61,
        NodeKind::Other => 62,
    }
}

/// The position of `k`'s variant in the declaration of [`NodeKind`].
pub fn kind_position(k: &NodeKind) -> (r: u64)
    ensures
        r == kind_index(*k),
{
    match k {
        NodeKind::Function { .. } => 0,
        NodeKind::Param => 1,
        NodeKind::ReturnType => 2,
        NodeKind::Block => 3,
        NodeKind::Let => 4,
        NodeKind::ExprValue => 5,
        NodeKind::ExprStmt => 6,
        NodeKind::Item => 7,
        NodeKind::If => 8,
        NodeKind::LetCond => 9,
        NodeKind::Match => 10,
        NodeKind::Arm => 11,
        NodeKind::ForLoop => 12,
        NodeKind::While => 13,
        NodeKind::Loop => 14,
        NodeKind::Break => 15,
        NodeKind::Continue => 16,
        NodeKind::Return => 17,
        NodeKind::Binary(..) => 18,
        NodeKind::Unary(..) => 19,
        NodeKind::Assign => 20,
        NodeKind::Cast => 21,
        NodeKind::Reference { .. } => 22,
        NodeKind::Call => 23,
        NodeKind::MethodCall => 24,
        NodeKind::Field => 25,
        NodeKind::Index => 26,
        NodeKind::Try => 27,
        NodeKind::Await => 28,
        NodeKind::Closure => 29,
        NodeKind::StructLit => 30,
        NodeKind::ArrayLit => 31,
        NodeKind::TupleLit => 32,
        NodeKind::Repeat => 33,
        NodeKind::Range => 34,
        NodeKind::UnsafeBlock => 35,
        NodeKind::AsyncBlock => 36,
        NodeKind::TryBlock => 37,
        NodeKind::ConstBlock => 38,
        NodeKind::Macro => 39,
        NodeKind::Path => 40,
        NodeKind::Lit(..) => 41,
        NodeKind::TypeSlice => 42,
        NodeKind::TypeArray => 43,
        NodeKind::TypeTuple => 44,
        NodeKind::TypeRef { .. } => 45,
        NodeKind::TypePtr { .. } => 46,
        NodeKind::TypePath => 47,
        NodeKind::TypeFn => 48,
        NodeKind::TypeImplTrait => 49,
        NodeKind::TypeTraitObject => 50,
        NodeKind::TypeNever => 51,
        NodeKind::TypeInfer => 52,
        NodeKind::PatIdent => 53,
        NodeKind::PatWild => 54,
        NodeKind::PatTuple => 55,
        NodeKind::PatStruct => 56,
        NodeKind::PatSlice => 57,
        NodeKind::PatRef => 58,
        NodeKind::PatOr => 59,
        NodeKind::PatRest => 60,
        NodeKind::PatType => 61,
        NodeKind::Other => 62,
    }
}

/// Number of nodes in the tree rooted at `n`, including `n` itself.
pub open spec fn count_nodes(n: NormNode) -> nat
    decreases n,
{
    1 + count_forest(n.children@)
}

/// Number of nodes in all the trees of `cs` together.
pub open spec fn count_forest(cs: Seq<NormNode>) -> nat
    decreases cs,
{
    if cs.len() == 0 {
        0
    } else {
        count_forest(cs.drop_last()) + count_nodes(cs.last())
    }
}

impl NormNode {
    /// A node with no children.
    pub fn leaf(kind: NodeKind) -> (n: Self)
        ensures
            n.kind == kind,
            n.children@.len() == 0,
    {
        NormNode { kind, children: Vec::new() }
    }

    /// A node with children.
    pub fn with(kind: NodeKind, children: Vec<NormNode>) -> (n: Self)
        ensures
            n.kind == kind,
            n.children == children,
    {
        NormNode { kind, children }
    }

    /// Total number of nodes in this subtree, including itself.
    pub fn node_count(&self) -> (r: usize)
        requires
            count_nodes(*self) <= usize::MAX,
        ensures
            r == count_nodes(*self),
        decreases *self,
    {
        let mut total: usize = 1;
        let mut i: usize = 0;
        assert(self.children@.take(0) =~= Seq::<NormNode>::empty());
        while i < self.children.len()
            invariant
                i <= self.children.len(),
                count_nodes(*self) <= usize::MAX,
                count_nodes(*self) == 1 + count_forest(self.children@),
                total == 1 + count_forest(self.children@.take(i as int)),
            decreases self.children.len() - i,
        {
            let ghost cs = self.children@;
            assert(cs.take(i + 1).drop_last() =~= cs.take(i as int));
            proof {
                lemma_forest_prefix_le(cs, i + 1);
                lemma_forest_prefix_le(cs, cs.len() as int);
                assert(cs.take(cs.len() as int) =~= cs);
                lemma_count_positive(cs[i as int]);
            }
            assert(decreases_to!(self => self.children));
            let c = self.children[i].node_count();
            total = total + c;
            i = i + 1;
        }
        assert(self.children@.take(self.children.len() as int) =~= self.children@);
        total
    }
}

/// Every tree has at least its root.
pub proof fn lemma_count_positive(n: NormNode)
    ensures
        count_nodes(n) >= 1,
{
}

/// A prefix of a forest has no more nodes than the whole forest.
pub proof fn lemma_forest_prefix_le(cs: Seq<NormNode>, k: int)
    requires
        0 <= k <= cs.len(),
    ensures
        count_forest(cs.take(k)) <= count_forest(cs),
    decreases cs.len() - k,
{
    if k < cs.len() {
        lemma_forest_prefix_le(cs, k + 1);
        assert(cs.take(k + 1).drop_last() =~= cs.take(k));
    } else {
        assert(cs.take(k) =~= cs);
    }
}

} // verus!
