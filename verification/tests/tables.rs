use ynz_typeck::diagnostics::SourceSpan;
use ynz_typeck::generics::{GenericFnTable, GenericShapeDef, Substitution};
use ynz_typeck::maybe_mutated::{collect_maybe_mutated, MutationContext};
use ynz_typeck::may_block::candidates_reachable_from;
use ynz_typeck::names::NameSet;
use ynz_typeck::options_table::{collect_options, OptionsEntry, OptionsTable, ShorthandResult};
use ynz_typeck::resolve_import::module_path_has_traversal_segments;
use ynz_typeck::shapes::{ast_type_short_name, canonical_anon_name, FieldDef, ShapeTable};
use ynz_typeck::signatures::{FunctionSig, SignatureTable};
use ynz_typeck::syntax::{
    AstType, Block, CallExpr, Expr, FieldDecl, FunctionDecl, Item, Module, OptionsDecl, OwnershipModifier, Stmt,
};
use ynz_typeck::types::{render_type, Type};

fn sp() -> SourceSpan {
    SourceSpan { file: "test.ynz".to_string(), start: 0, end: 0 }
}

fn ident(name: &str) -> Expr {
    Expr::Ident(name.to_string(), sp())
}

fn call(callee: &str, args: Vec<Expr>) -> Expr {
    Expr::Call(CallExpr { callee: Box::new(ident(callee)), args, span: sp() })
}

fn options(name: &str, variants: &[&str]) -> Item {
    Item::OptionsDecl(OptionsDecl {
        name: name.to_string(),
        name_span: sp(),
        variants: variants.iter().map(|v| (v.to_string(), sp())).collect(),
        is_exported: false,
        span: sp(),
    })
}

fn func(name: &str, stmts: Vec<Stmt>) -> Item {
    Item::Function(FunctionDecl {
        name: name.to_string(),
        name_span: sp(),
        generics: Vec::new(),
        params: Vec::new(),
        return_type: AstType::Nothing,
        body: Block { stmts, span: sp() },
        is_exported: false,
        errors_capable: false,
        span: sp(),
    })
}

#[test]
fn options_table_tags_follow_declaration_order() {
    let m = Module { items: vec![options("Color", &["red", "green", "blue"])], span: sp() };
    let mut diags = Vec::new();
    let t = collect_options(&m, &mut diags);
    assert!(diags.is_empty());
    assert_eq!(t.tag_for("Color", "red"), Some(0));
    assert_eq!(t.tag_for("Color", "blue"), Some(2));
    assert_eq!(t.tag_for("Color", "pink"), None);
    assert_eq!(t.tag_for("Shade", "red"), None);
}

#[test]
fn options_with_one_variant_is_reported() {
    let m = Module { items: vec![options("Lonely", &["only"])], span: sp() };
    let mut diags = Vec::new();
    let _ = collect_options(&m, &mut diags);
    assert_eq!(diags.len(), 1);
}

#[test]
fn builtin_options_are_present() {
    let t = OptionsTable::with_builtins();
    assert!(t.contains("SortOrder"));
    assert!(t.contains("Comparison"));
    assert_eq!(t.tag_for("SortOrder", "desc"), Some(1));
}

#[test]
fn shorthand_resolution_found_ambiguous_and_missing() {
    let mut t = OptionsTable::new();
    t.insert("A".to_string(), OptionsEntry { variants: vec!["x".to_string(), "y".to_string()], decl_span: sp() });
    t.insert("B".to_string(), OptionsEntry { variants: vec!["y".to_string(), "z".to_string()], decl_span: sp() });
    assert!(matches!(t.resolve_shorthand("x", ""), ShorthandResult::Found("A")));
    match t.resolve_shorthand("y", "") {
        ShorthandResult::Ambiguous(names) => assert_eq!(names, vec!["A", "B"]),
        other => panic!("expected ambiguous, got {other:?}"),
    }
    assert!(matches!(t.resolve_shorthand("w", ""), ShorthandResult::NotFound));
    assert!(matches!(t.resolve_shorthand("y", "B"), ShorthandResult::Found("B")));
}

#[test]
fn traversal_segments_are_exact_matches_only() {
    assert!(module_path_has_traversal_segments("../secret"));
    assert!(module_path_has_traversal_segments("lib/./x"));
    assert!(!module_path_has_traversal_segments("dir.v2/mod"));
    assert!(!module_path_has_traversal_segments("dir..weird/mod"));
    assert!(!module_path_has_traversal_segments("plain/path"));
}

#[test]
fn canonical_anon_name_ignores_field_order() {
    let fd = |n: &str, t: AstType| FieldDecl { name: n.to_string(), name_span: sp(), ty: t, is_hidden: false, default: None };
    let a = vec![fd("bid", AstType::Named("number".to_string(), sp())), fd("ask", AstType::Named("number".to_string(), sp()))];
    let b = vec![fd("ask", AstType::Named("number".to_string(), sp())), fd("bid", AstType::Named("number".to_string(), sp()))];
    assert_eq!(canonical_anon_name(&a), "__anon__ask_number__bid_number");
    assert_eq!(canonical_anon_name(&a), canonical_anon_name(&b));
    assert_eq!(ast_type_short_name(&AstType::Maybe { inner: Box::new(AstType::Int) }), "maybe_int");
}

#[test]
fn resolve_ast_type_builtins_and_unknowns() {
    let t = ShapeTable::empty();
    assert_eq!(render_type(&t.resolve_ast_type(&AstType::Named("string".to_string(), sp()))), "string");
    assert!(matches!(t.resolve_ast_type(&AstType::Named("Nope".to_string(), sp())), Type::Error));
    let arr = AstType::Generic { name: "array".to_string(), name_span: sp(), args: vec![AstType::Int] };
    assert_eq!(render_type(&t.resolve_ast_type(&arr)), "array<int>");
}

#[test]
fn generic_shape_substitution_applies_to_field_types() {
    let def = GenericShapeDef {
        name: "Pair".to_string(),
        type_params: vec!["A".to_string(), "B".to_string()],
        fields: vec![
            FieldDef { name: "first".to_string(), ty: Type::TypeParam { name: "A".to_string() }, is_hidden: false, is_inherited: false, defined_at: sp() },
            FieldDef { name: "second".to_string(), ty: Type::TypeParam { name: "B".to_string() }, is_hidden: false, is_inherited: false, defined_at: sp() },
        ],
        follows: Vec::new(),
        defined_at: sp(),
    };
    let s: Substitution = def.make_substitution(&vec![Type::Int, Type::Bool]);
    assert!(matches!(def.field_type("first", &s), Some(Type::Int)));
    assert!(matches!(def.field_type("second", &s), Some(Type::Bool)));
    assert!(def.field_type("third", &s).is_none());
    assert_eq!(def.field_names(), vec!["first", "second"]);
}

#[test]
fn maybe_mutated_sees_assignment_and_lend_argument() {
    let lend_sig = FunctionSig {
        params: vec![("x".to_string(), Type::Shape { name: "Box".to_string() })],
        param_ownerships: vec![Some(OwnershipModifier::Lend)],
        ret: Type::Nothing,
        decl_span: sp(),
        contains_wait: false,
        suspends: false,
        does_real_work: false,
        original_name: None,
    };
    let sigs = SignatureTable { fns: vec![("grow".to_string(), lend_sig)] };
    let imported: Vec<(String, FunctionSig)> = Vec::new();
    let generic = GenericFnTable::empty();
    let none = NameSet::new();
    let ctx = MutationContext {
        sig_table: &sigs,
        imported: &imported,
        generic_fn_table: &generic,
        readonly_free_fns: &none,
        readonly_methods: &none,
    };
    let block = Block {
        stmts: vec![
            Stmt::Assign { target: "count".to_string(), value: Expr::IntLit(1, sp()), span: sp() },
            Stmt::Expr(call("grow", vec![ident("bag")])),
            Stmt::Expr(call("print", vec![ident("untouched")])),
        ],
        span: sp(),
    };
    let r = collect_maybe_mutated(&block, &ctx);
    assert!(r.contains("count"));
    assert!(r.contains("bag"));
    assert!(!r.contains("untouched"));
}

#[test]
fn reachable_candidates_follow_call_edges() {
    let m = Module {
        items: vec![
            func("top", vec![Stmt::Expr(call("mid", vec![]))]),
            func("mid", vec![Stmt::Expr(call("leaf", vec![]))]),
            func("leaf", vec![]),
            func("other", vec![]),
        ],
        span: sp(),
    };
    let cands = NameSet::from_strs(&["mid", "leaf", "other"]);
    let r = candidates_reachable_from("top", &m, &NameSet::new(), &cands);
    assert!(r.contains("mid"));
    assert!(r.contains("leaf"));
    assert!(!r.contains("other"));
}
