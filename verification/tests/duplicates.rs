use std::collections::BTreeSet;
use std::hash::{Hash, Hasher};

use cargo_crap::duplicates::compare::{order_sides, overlap, shared_count, union_count};
use cargo_crap::duplicates::extract::{
    checked_node_count, functions_in_file, location_precedes, print_function, FunctionPrint, Location,
    SynFile, SynItem,
};
use cargo_crap::duplicates::fingerprint::{fingerprint, fingerprints, Fingerprint, Fnv1a};
use cargo_crap::duplicates::normalize::{LitKind, NodeKind, NormNode, ReceiverShape};
use cargo_crap::duplicates::syntax::{normalize_node, SynNode, SynTag};

fn node(kind: NodeKind, children: Vec<NormNode>) -> NormNode {
    NormNode::with(kind, children)
}

fn leaf(kind: NodeKind) -> NormNode {
    NormNode::leaf(kind)
}

fn free_fn(children: Vec<NormNode>) -> NormNode {
    node(
        NodeKind::Function {
            receiver: None,
            is_async: false,
            is_unsafe: false,
            is_const: false,
        },
        children,
    )
}

fn param() -> NormNode {
    node(NodeKind::Param, vec![leaf(NodeKind::PatIdent), leaf(NodeKind::TypePath)])
}

/// `fn f(x: i32) -> i32 { x <op> 1 }`
fn binary_fn(op: &str) -> NormNode {
    free_fn(vec![
        param(),
        node(NodeKind::ReturnType, vec![leaf(NodeKind::TypePath)]),
        node(
            NodeKind::Block,
            vec![node(
                NodeKind::ExprValue,
                vec![node(
                    NodeKind::Binary(op.to_string()),
                    vec![leaf(NodeKind::Path), leaf(NodeKind::Lit(LitKind::Int))],
                )],
            )],
        ),
    ])
}

/// `g(<arg>);` as a statement.
fn call_stmt() -> NormNode {
    node(
        NodeKind::ExprStmt,
        vec![node(NodeKind::Call, vec![leaf(NodeKind::Path), leaf(NodeKind::Path)])],
    )
}

fn if_stmt(body: Vec<NormNode>) -> NormNode {
    node(
        NodeKind::ExprValue,
        vec![node(
            NodeKind::If,
            vec![
                node(NodeKind::Call, vec![leaf(NodeKind::Path), leaf(NodeKind::Path)]),
                node(NodeKind::Block, body),
            ],
        )],
    )
}

fn for_stmt(body: Vec<NormNode>) -> NormNode {
    node(
        NodeKind::ExprValue,
        vec![node(
            NodeKind::ForLoop,
            vec![leaf(NodeKind::PatIdent), leaf(NodeKind::Path), node(NodeKind::Block, body)],
        )],
    )
}

fn body_fn(stmts: Vec<NormNode>) -> NormNode {
    free_fn(vec![param(), node(NodeKind::Block, stmts)])
}

/// FNV-1a driven through the derived `Hash` of the node kinds, the reference
/// construction the verified encoding must agree with.
struct ReferenceFnv(u64);

impl Hasher for ReferenceFnv {
    fn write(&mut self, bytes: &[u8]) {
        for b in bytes {
            self.0 ^= u64::from(*b);
            self.0 = self.0.wrapping_mul(0x0000_0100_0000_01b3);
        }
    }

    fn finish(&self) -> u64 {
        self.0
    }
}

fn reference_print(n: &NormNode) -> u64 {
    let mut h = ReferenceFnv(0xcbf2_9ce4_8422_2325);
    n.kind.hash(&mut h);
    for c in &n.children {
        h.write_u64(reference_print(c));
    }
    h.finish()
}

#[test]
fn equal_subtrees_have_equal_fingerprints() {
    let a = binary_fn("+");
    let b = binary_fn("+");
    assert_eq!(fingerprint(&a), fingerprint(&b));
}

#[test]
fn different_shapes_have_different_fingerprints() {
    let a = binary_fn("+");
    let b = binary_fn("*");
    assert_ne!(fingerprint(&a), fingerprint(&b));
}

#[test]
fn the_set_contains_the_whole_function_fingerprint() {
    let f = binary_fn("+");
    assert!(fingerprints(&f).contains(&fingerprint(&f).0));
}

#[test]
fn the_set_contains_one_entry_per_distinct_shape() {
    let f = body_fn(vec![call_stmt(), call_stmt()]);
    assert!(
        fingerprints(&f).len() < f.node_count(),
        "identical subtrees must share a fingerprint"
    );
}

#[test]
fn nested_control_flow_order_is_structural() {
    let a = fingerprints(&body_fn(vec![for_stmt(vec![if_stmt(vec![call_stmt()])])]));
    let b = fingerprints(&body_fn(vec![if_stmt(vec![for_stmt(vec![call_stmt()])])]));
    assert_ne!(a, b, "the same constructs nested differently are different");
}

#[test]
fn statement_order_is_structural_but_the_statements_are_shared() {
    let a = fingerprints(&body_fn(vec![call_stmt(), if_stmt(vec![call_stmt()])]));
    let b = fingerprints(&body_fn(vec![if_stmt(vec![call_stmt()]), call_stmt()]));
    assert_ne!(a, b, "reordering changes the block's shape");
    let shared: Vec<_> = a.intersection(&b).collect();
    assert!(shared.len() >= 2, "the reordered statements themselves still share fingerprints");
}

#[test]
fn fingerprinting_is_deterministic() {
    let src = || body_fn(vec![for_stmt(vec![call_stmt()]), leaf(NodeKind::Path)]);
    assert_eq!(fingerprints(&src()), fingerprints(&src()));
}

#[test]
fn a_leaf_fingerprint_is_stable_for_a_known_shape() {
    let leaf_print = fingerprint(&NormNode::leaf(NodeKind::Path));
    assert_eq!(leaf_print, fingerprint(&NormNode::leaf(NodeKind::Path)));
    assert_eq!(leaf_print, Fingerprint(reference_print(&NormNode::leaf(NodeKind::Path))));
}

#[test]
fn fingerprints_agree_with_the_derived_hash_encoding() {
    let kinds = vec![
        NodeKind::Function {
            receiver: Some(ReceiverShape::Ref { mutable: true }),
            is_async: true,
            is_unsafe: false,
            is_const: true,
        },
        NodeKind::Function {
            receiver: Some(ReceiverShape::Value),
            is_async: false,
            is_unsafe: true,
            is_const: false,
        },
        NodeKind::Function {
            receiver: Some(ReceiverShape::Typed),
            is_async: false,
            is_unsafe: false,
            is_const: false,
        },
        NodeKind::Binary("+=".to_string()),
        NodeKind::Unary("!".to_string()),
        NodeKind::Reference { mutable: false },
        NodeKind::TypeRef { mutable: true },
        NodeKind::TypePtr { mutable: false },
        NodeKind::Lit(LitKind::Str),
        NodeKind::Lit(LitKind::Verbatim),
        NodeKind::Other,
        NodeKind::PatType,
        NodeKind::Macro,
    ];
    for k in kinds {
        let tree = node(k.clone(), vec![leaf(NodeKind::Path), binary_fn("-")]);
        assert_eq!(fingerprint(&tree).0, reference_print(&tree), "kind {k:?}");
        let set: BTreeSet<u64> = fingerprints(&tree);
        assert!(set.contains(&reference_print(&tree)));
        assert!(set.contains(&reference_print(&binary_fn("-"))));
    }
}

#[test]
fn fingerprint_set_size_is_bounded_by_node_count() {
    for n in 1..12 {
        let f = body_fn((0..n).map(|_| call_stmt()).collect());
        assert!(fingerprints(&f).len() <= f.node_count());
    }
}

#[test]
fn node_count_counts_every_node() {
    assert_eq!(leaf(NodeKind::Path).node_count(), 1);
    assert_eq!(binary_fn("+").node_count(), 11);
}

#[test]
fn fnv_matches_the_published_test_vectors() {
    let mut h = Fnv1a::new();
    assert_eq!(h.finish(), 0xcbf2_9ce4_8422_2325);
    h.write(b"a");
    assert_eq!(h.finish(), 0xaf63_dc4c_8601_ec8c);
    let mut h = Fnv1a::new();
    h.write(b"foobar");
    assert_eq!(h.finish(), 0x8594_4171_f739_67e8);
}

fn location(file: &str, start: usize, end: usize, name: &str) -> Location {
    Location {
        file: file.to_string(),
        start_line: start,
        end_line: end,
        name: name.to_string(),
    }
}

fn print_of(name: &str, tree: &NormNode) -> FunctionPrint {
    FunctionPrint {
        location: location("src/a.rs", 1, 3, name),
        node_count: tree.node_count(),
        prints: fingerprints(tree),
    }
}

#[test]
fn identical_functions_overlap_completely() {
    let a = print_of("a", &binary_fn("+"));
    let b = print_of("b", &binary_fn("+"));
    let (shared, union) = overlap(&a, &b);
    assert_eq!(shared, union);
    assert_eq!(shared, a.prints.len());
}

#[test]
fn partially_similar_functions_overlap_partially() {
    let a = print_of("a", &body_fn(vec![for_stmt(vec![if_stmt(vec![call_stmt()])])]));
    let b = print_of(
        "b",
        &body_fn(vec![for_stmt(vec![if_stmt(vec![call_stmt()])]), call_stmt(), leaf(NodeKind::Path)]),
    );
    let (shared, union) = overlap(&a, &b);
    assert!(shared > 0 && shared < union, "expected a partial overlap, got {shared}/{union}");
    let (shared_ba, union_ba) = overlap(&b, &a);
    assert_eq!((shared, union), (shared_ba, union_ba), "overlap is symmetric");
}

#[test]
fn set_counts_are_exact() {
    let a: BTreeSet<u64> = [1, 2, 3, 4].into_iter().collect();
    let b: BTreeSet<u64> = [3, 4, 5].into_iter().collect();
    assert_eq!(shared_count(&a, &b), 2);
    assert_eq!(union_count(&a, &b), 5);
    assert_eq!(shared_count(&a, &BTreeSet::new()), 0);
    assert_eq!(union_count(&BTreeSet::new(), &BTreeSet::new()), 0);
}

#[test]
fn locations_order_by_file_then_lines_then_name() {
    let a = location("src/a.rs", 10, 20, "z");
    let b = location("src/b.rs", 1, 2, "a");
    assert!(location_precedes(&a, &b));
    assert!(!location_precedes(&b, &a));
    let c = location("src/a.rs", 10, 30, "a");
    assert!(location_precedes(&a, &c));
    let d = location("src/a.rs", 10, 20, "zz");
    assert!(location_precedes(&a, &d));
    assert!(!location_precedes(&a, &a));
}

#[test]
fn order_sides_puts_the_earlier_location_first() {
    let a = location("src/b.rs", 1, 2, "late");
    let b = location("src/a.rs", 5, 9, "early");
    let (first, second) = order_sides(&a, &b);
    assert_eq!(first.name, "early");
    assert_eq!(second.name, "late");
    let (first, second) = order_sides(&b, &a);
    assert_eq!(first.name, "early");
    assert_eq!(second.name, "late");
}

fn syn(tag: SynTag, children: Vec<SynNode>) -> SynNode {
    SynNode { tag, children }
}

/// `fn <name>(<arg>: u32) -> u32 { <arg> + <lit> }`
fn adder(name: &str, arg: &str, lit: &str) -> SynNode {
    let param = syn(
        SynTag::Param,
        vec![
            syn(SynTag::PatIdent { name: arg.into() }, vec![]),
            syn(SynTag::TypePath { path: "u32".into() }, vec![]),
        ],
    );
    let ret = syn(SynTag::ReturnType, vec![syn(SynTag::TypePath { path: "u32".into() }, vec![])]);
    let sum = syn(
        SynTag::Binary { op: "+".into() },
        vec![
            syn(SynTag::Path { path: arg.into() }, vec![]),
            syn(SynTag::Lit { kind: LitKind::Int, text: lit.into() }, vec![]),
        ],
    );
    let body = syn(SynTag::Block, vec![syn(SynTag::ExprStmt { semi: false }, vec![sum])]);
    syn(
        SynTag::Function {
            name: name.into(),
            receiver: None,
            is_async: false,
            is_unsafe: false,
            is_const: false,
        },
        vec![param, ret, body],
    )
}

#[test]
fn renamed_functions_normalize_identically() {
    let a = normalize_node(&adder("add_one", "x", "1"));
    let b = normalize_node(&adder("plus_seven", "value", "7"));
    assert_eq!(a, b);
    assert_eq!(fingerprint(&a), fingerprint(&b));
    assert_eq!(a.node_count(), 11);
}

#[test]
fn normalized_nodes_keep_operators_and_drop_names() {
    let n = normalize_node(&adder("f", "x", "1"));
    assert_eq!(
        n.kind,
        NodeKind::Function { receiver: None, is_async: false, is_unsafe: false, is_const: false }
    );
    let body = &n.children[2];
    assert_eq!(body.kind, NodeKind::Block);
    assert_eq!(body.children[0].kind, NodeKind::ExprValue);
    let sum = &body.children[0].children[0];
    assert_eq!(sum.kind, NodeKind::Binary("+".into()));
    assert_eq!(sum.children[0].kind, NodeKind::Path);
    assert_eq!(sum.children[1].kind, NodeKind::Lit(LitKind::Int));
}

#[test]
fn grouping_is_transparent_and_operators_matter() {
    let plain = syn(SynTag::Path { path: "a".into() }, vec![]);
    let paren = syn(SynTag::Paren, vec![syn(SynTag::Path { path: "b".into() }, vec![])]);
    assert_eq!(normalize_node(&plain), normalize_node(&paren));
    assert_eq!(normalize_node(&syn(SynTag::Paren, vec![])).kind, NodeKind::Other);
    let minus = syn(SynTag::Binary { op: "-".into() }, vec![]);
    let plus = syn(SynTag::Binary { op: "+".into() }, vec![]);
    assert_ne!(normalize_node(&minus), normalize_node(&plus));
    let stmt = normalize_node(&syn(SynTag::ExprStmt { semi: true }, vec![]));
    assert_eq!(stmt.kind, NodeKind::ExprStmt);
    let tuple_struct = normalize_node(&syn(SynTag::PatTupleStruct { path: "Some".into() }, vec![]));
    assert_eq!(tuple_struct.kind, NodeKind::PatTuple);
}

#[test]
fn print_function_fingerprints_the_normal_form() {
    let loc = Location {
        file: "src/a.rs".into(),
        start_line: 3,
        end_line: 5,
        name: "add_one".into(),
    };
    let p = print_function(loc.clone(), &adder("add_one", "x", "1")).expect("small tree");
    let tree = normalize_node(&adder("other", "y", "9"));
    assert_eq!(p.location, loc);
    assert_eq!(p.node_count, 11);
    assert_eq!(p.prints, fingerprints(&tree));
    assert_eq!(checked_node_count(&tree), Some(11));
}

fn fn_item(name: &str, line: usize, is_test: bool, nested: Vec<SynItem>) -> SynItem {
    SynItem::Fn {
        is_test,
        start_line: line,
        end_line: line + 2,
        name: name.into(),
        syntax: adder(name, "x", "1"),
        nested,
    }
}

#[test]
fn functions_in_file_visits_in_order_and_skips_test_code() {
    let file = SynFile {
        items: vec![
            fn_item("outer", 1, false, vec![fn_item("inner", 2, false, vec![])]),
            fn_item("a_test", 10, true, vec![fn_item("helper_in_test", 11, false, vec![])]),
            SynItem::Mod {
                cfg_test: true,
                items: vec![fn_item("in_test_mod", 20, false, vec![])],
            },
            SynItem::Mod {
                cfg_test: false,
                items: vec![fn_item("in_mod", 30, false, vec![])],
            },
        ],
    };
    let prints = functions_in_file(&file, "src/lib.rs").expect("small functions");
    let names: Vec<&str> = prints.iter().map(|p| p.location.name.as_str()).collect();
    assert_eq!(names, vec!["outer", "inner", "in_mod"]);
    assert_eq!(prints[1].location.file, "src/lib.rs");
    assert_eq!(prints[1].location.start_line, 2);
    assert_eq!(prints[1].location.end_line, 4);
    assert_eq!(prints[2].node_count, 11);
    assert_eq!(prints[0].prints, prints[2].prints);
}

#[test]
fn a_block_of_two_identical_leaves_has_two_fingerprints() {
    let block = node(NodeKind::Block, vec![leaf(NodeKind::Path), leaf(NodeKind::Path)]);
    let set = fingerprints(&block);
    assert_eq!(set.len(), 2);
    assert!(set.contains(&fingerprint(&block).0));
    assert!(set.contains(&fingerprint(&leaf(NodeKind::Path)).0));
}
