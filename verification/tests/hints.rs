use ynz_typeck::diagnostics::SourceSpan;
use ynz_typeck::false_sharing::finalize_false_sharing;
use ynz_typeck::frame_size::{collect_direct_suspending_callees, composed_frame_sizes, type_frame_slots};
use ynz_typeck::generics::GenericFnTable;
use ynz_typeck::inlay_hints::{BgOwnership, PromotionKind};
use ynz_typeck::maybe_mutated::MutationContext;
use ynz_typeck::names::NameSet;
use ynz_typeck::ownership_hints::ownership_call_site_hints;
use ynz_typeck::promotion_hints::{array_to_fixed_promotion_hints, let_to_const_promotion_hints};
use ynz_typeck::routing_hints::background_routing_hints;
use ynz_typeck::shapes::{FieldDef, ShapeDef, ShapeTable};
use ynz_typeck::signatures::{FunctionSig, SignatureTable};
use ynz_typeck::syntax::{AstType, Block, CallExpr, Expr, FunctionDecl, Item, Module, OwnershipModifier, Param, Stmt};
use ynz_typeck::type_hints::{copy_point_hints, variable_type_hints};
use ynz_typeck::types::Type;
use ynz_typeck::wait_hints::wait_points_hints;

fn at(start: usize, end: usize) -> SourceSpan {
    SourceSpan { file: "main.ynz".to_string(), start, end }
}

fn ident(name: &str, start: usize) -> Expr {
    Expr::Ident(name.to_string(), at(start, start + name.len()))
}

fn call(callee: &str, args: Vec<Expr>, start: usize, end: usize) -> Expr {
    Expr::Call(CallExpr { callee: Box::new(ident(callee, start)), args, span: at(start, end) })
}

fn let_(name: &str, ty: Option<AstType>, value: Expr, start: usize) -> Stmt {
    Stmt::Let { name: name.to_string(), name_span: at(start + 4, start + 4 + name.len()), ty, value, is_const: false, span: at(start, start + 10) }
}

fn func(name: &str, params: Vec<Param>, stmts: Vec<Stmt>) -> Item {
    Item::Function(FunctionDecl {
        name: name.to_string(),
        name_span: at(0, 0),
        generics: Vec::new(),
        params,
        return_type: AstType::Nothing,
        body: Block { stmts, span: at(0, 0) },
        is_exported: false,
        errors_capable: false,
        span: at(0, 0),
    })
}

fn sig(ownerships: Vec<Option<OwnershipModifier>>) -> FunctionSig {
    FunctionSig {
        params: ownerships.iter().map(|_| ("p".to_string(), Type::Int)).collect(),
        param_ownerships: ownerships,
        ret: Type::Nothing,
        decl_span: at(0, 0),
        contains_wait: false,
        suspends: false,
        does_real_work: false,
        original_name: None,
    }
}

#[test]
fn const_and_fixed_promotion_hints() {
    // let a = 1
    // let xs: array<int> = [1] // keep
    // a = 2
    let text = "let a = 1\nlet xs: array<int> = [1] // keep\na = 2\n";
    let arr = AstType::Generic { name: "array".to_string(), name_span: at(18, 23), args: vec![AstType::Int] };
    let m = Module {
        items: vec![func(
            "main",
            vec![],
            vec![
                let_("a", None, Expr::IntLit(1, at(8, 9)), 0),
                let_("xs", Some(arr), Expr::ArrayLit { elements: vec![Expr::IntLit(1, at(31, 32))], span: at(30, 33) }, 10),
                Stmt::Assign { target: "a".to_string(), value: Expr::IntLit(2, at(47, 48)), span: at(43, 48) },
            ],
        )],
        span: at(0, 0),
    };
    let sigs = SignatureTable { fns: vec![] };
    let imported: Vec<(String, FunctionSig)> = Vec::new();
    let generic = GenericFnTable::empty();
    let none = NameSet::new();
    let ctx = MutationContext { sig_table: &sigs, imported: &imported, generic_fn_table: &generic, readonly_free_fns: &none, readonly_methods: &none };
    let c = let_to_const_promotion_hints(&m, &ctx, text);
    assert_eq!(c.len(), 1);
    assert_eq!(c[0].kind, PromotionKind::LetToConst);
    assert_eq!(c[0].position, 35);
    assert_eq!(c[0].label, "// effectively const \u{2014} never reassigned");
    let f = array_to_fixed_promotion_hints(&m, &ctx, text);
    assert_eq!(f.len(), 1);
    assert_eq!(f[0].position, 35);
    assert_eq!(f[0].type_keyword_span.as_ref().unwrap().start, 18);
}

#[test]
fn wait_points_skip_waited_calls() {
    let m = Module {
        items: vec![func(
            "main",
            vec![],
            vec![
                Stmt::Expr(call("fetch", vec![], 0, 7)),
                Stmt::Expr(Expr::Wait(Box::new(call("fetch", vec![call("fetch", vec![], 20, 27)], 14, 28)), at(9, 28))),
                Stmt::Expr(call("pure", vec![], 30, 36)),
            ],
        )],
        span: at(0, 0),
    };
    let mut sus = NameSet::new();
    sus.insert("fetch".to_string());
    let h = wait_points_hints(&m, &sus);
    assert_eq!(h.len(), 2);
    assert_eq!(h[0].position, 0);
    assert_eq!(h[1].position, 20);
    assert_eq!(h[1].callee_name, "fetch");
}

#[test]
fn background_routing_labels() {
    let m = Module {
        items: vec![func(
            "main",
            vec![],
            vec![
                Stmt::Expr(Expr::Background(Box::new(call("fetch", vec![], 11, 18)), at(0, 18))),
                Stmt::Expr(Expr::Background(Box::new(call("crunch", vec![], 31, 39)), at(20, 39))),
            ],
        )],
        span: at(0, 0),
    };
    let mut sus = NameSet::new();
    sus.insert("fetch".to_string());
    let h = background_routing_hints(&m, &sus);
    assert_eq!(h.len(), 2);
    assert_eq!(h[0].position, 18);
    assert_eq!(h[0].label, "// routed to I/O pool \u{2014} fetch suspends here");
    assert_eq!(h[1].label, "// routed to CPU pool \u{2014} no may-block calls in call graph");
}

#[test]
fn type_and_copy_hints() {
    let m = Module {
        items: vec![func(
            "main",
            vec![],
            vec![
                let_("n", None, Expr::IntLit(5, at(8, 9)), 0),
                Stmt::Expr(call("show", vec![ident("n", 25), ident("s", 28)], 20, 30)),
            ],
        )],
        span: at(0, 0),
    };
    let et = vec![((8usize, 9usize), Type::Int), ((25, 26), Type::Int), ((28, 29), Type::String)];
    let t = variable_type_hints(&m, &et);
    assert_eq!(t.len(), 1);
    assert_eq!(t[0].position, 5);
    assert_eq!(t[0].type_text, "int");
    let c = copy_point_hints(&m, &et);
    assert_eq!(c.len(), 1);
    assert_eq!(c[0].position, 26);
    assert_eq!(c[0].size_text, "8 bytes");
}

#[test]
fn ownership_hints_at_call_sites_and_spawns() {
    let m = Module {
        items: vec![func(
            "main",
            vec![],
            vec![
                Stmt::Expr(call("grow", vec![ident("a", 5), ident("b", 8)], 0, 10)),
                Stmt::Expr(Expr::Background(Box::new(call("work", vec![ident("c", 30)], 25, 32)), at(14, 32))),
            ],
        )],
        span: at(0, 0),
    };
    let sigs = SignatureTable { fns: vec![("grow".to_string(), sig(vec![Some(OwnershipModifier::Lend), None]))] };
    let imported: Vec<(String, FunctionSig)> = Vec::new();
    let generic = GenericFnTable::empty();
    let none = NameSet::new();
    let ctx = MutationContext { sig_table: &sigs, imported: &imported, generic_fn_table: &generic, readonly_free_fns: &none, readonly_methods: &none };
    let bg = vec![((30usize, 31usize), BgOwnership::Give)];
    let h = ownership_call_site_hints(&m, &ctx, &bg);
    assert_eq!(h.len(), 2);
    assert_eq!((h[0].position, h[0].modifier.as_str()), (6, "lend"));
    assert_eq!((h[1].position, h[1].modifier.as_str()), (31, "give"));
}

fn shape(name: &str, fields: Vec<(&str, Type)>) -> (String, ShapeDef) {
    (
        name.to_string(),
        ShapeDef {
            name: name.to_string(),
            is_base: false,
            extends: None,
            follows: vec![],
            fields: fields
                .into_iter()
                .map(|(n, ty)| FieldDef { name: n.to_string(), ty, is_hidden: false, is_inherited: false, defined_at: at(0, 0) })
                .collect(),
            contract_sigs: vec![],
            defined_at: at(0, 0),
        },
    )
}

#[test]
fn frame_slots_per_type() {
    let mut t = ShapeTable::empty();
    t.shapes.push(shape("P", vec![("x", Type::Int), ("d", Type::Number { precision: 34 })]));
    t.shapes.push(shape("E", vec![]));
    let n = t.shapes.len();
    assert_eq!(type_frame_slots(&Type::Int, &t, n), 1);
    assert_eq!(type_frame_slots(&Type::Number { precision: 34 }, &t, n), 2);
    assert_eq!(type_frame_slots(&Type::Number { precision: 35 }, &t, n), 1);
    assert_eq!(type_frame_slots(&Type::ErrorsCapable { inner: Box::new(Type::Int) }, &t, n), 2);
    assert_eq!(type_frame_slots(&Type::Shape { name: "P".to_string() }, &t, n), 3);
    assert_eq!(type_frame_slots(&Type::Shape { name: "E".to_string() }, &t, n), 1);
    assert_eq!(type_frame_slots(&Type::Shape { name: "Q".to_string() }, &t, n), 1);
}

#[test]
fn composed_frame_size_adds_children() {
    let param = Param { name: "k".to_string(), ty: AstType::Int, ownership: None };
    let m = Module {
        items: vec![
            func("leaf", vec![param], vec![Stmt::Expr(call("sleep", vec![], 0, 5))]),
            func(
                "root",
                vec![],
                vec![
                    let_("v", None, Expr::IntLit(1, at(48, 49)), 40),
                    Stmt::Expr(call("leaf", vec![], 60, 66)),
                    Stmt::Expr(call("leaf", vec![], 70, 76)),
                ],
            ),
        ],
        span: at(0, 0),
    };
    let mut sus = NameSet::new();
    sus.insert("leaf".to_string());
    sus.insert("root".to_string());
    let root_body = match &m.items[1] {
        Item::Function(f) => &f.body.stmts,
        _ => unreachable!(),
    };
    let callees = collect_direct_suspending_callees(root_body, &sus);
    assert_eq!(callees, vec!["leaf".to_string()]);
    let et = vec![((48usize, 49usize), Type::Number { precision: 30 })];
    let crossings = vec![("root".to_string(), vec!["v".to_string()])];
    let names = vec!["root".to_string(), "leaf".to_string(), "other".to_string()];
    let sizes = composed_frame_sizes(&m, &names, &sus, &ShapeTable::empty(), &et, &crossings);
    // leaf: 32 + 1 param * 8 = 40; root: 32 + 2 slots * 8 = 48, plus leaf once = 88.
    assert_eq!(sizes, vec![("root".to_string(), 88u64), ("leaf".to_string(), 40u64)]);
}

#[test]
fn false_sharing_gate() {
    let m = Module { items: vec![], span: at(0, 0) };
    let mut known = NameSet::new();
    known.insert("Remote".to_string());
    let cross = vec![("Remote".to_string(), at(7, 9))];
    let off = finalize_false_sharing(&cross, &m, &known, true, false);
    assert!(off.padded.is_empty() && off.declined.is_empty());
    let on = finalize_false_sharing(&cross, &m, &known, false, false);
    assert_eq!(on.declined.len(), 1);
    assert_eq!(on.declined[0].0, "Remote");
    assert_eq!(on.declined[0].1, "it is declared in another file");
    assert_eq!(on.declined[0].2.start, 7);
}
