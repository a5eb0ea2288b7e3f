use ynz_typeck::aliasing::find_aliasing_call_violations;
use ynz_typeck::diagnostics::SourceSpan;
use ynz_typeck::effective_ownership::{AliasArgKind, EffectiveOwnership, EffectiveOwnershipReport};
use ynz_typeck::names::NameSet;
use ynz_typeck::share_violations::find_transitive_share_violations;
use ynz_typeck::signatures::FunctionSig;
use ynz_typeck::syntax::{AstType, Block, CallExpr, Expr, FunctionDecl, Item, Module, OwnershipModifier, Param, Stmt};
use ynz_typeck::types::Type;

fn sp() -> SourceSpan {
    SourceSpan { file: "test.ynz".to_string(), start: 0, end: 0 }
}

fn at(start: usize) -> SourceSpan {
    SourceSpan { file: "test.ynz".to_string(), start, end: start + 1 }
}

fn ident(name: &str) -> Expr {
    Expr::Ident(name.to_string(), sp())
}

fn ident_at(name: &str, s: usize) -> Expr {
    Expr::Ident(name.to_string(), at(s))
}

fn field_at(receiver: Expr, name: &str, s: usize) -> Expr {
    Expr::FieldAccess { receiver: Box::new(receiver), field: name.to_string(), span: at(s) }
}

fn call_at(callee: &str, args: Vec<Expr>, s: usize) -> Expr {
    Expr::Call(CallExpr { callee: Box::new(ident(callee)), args, span: at(s) })
}

fn func(name: &str, params: Vec<Param>, stmts: Vec<Stmt>) -> Item {
    Item::Function(FunctionDecl {
        name: name.to_string(),
        name_span: sp(),
        generics: Vec::new(),
        params,
        return_type: AstType::Nothing,
        body: Block { stmts, span: sp() },
        is_exported: false,
        errors_capable: false,
        span: sp(),
    })
}

fn param(name: &str, m: Option<OwnershipModifier>) -> Param {
    Param { name: name.to_string(), ty: AstType::Named("Box".to_string(), sp()), ownership: m }
}

fn report(rows: Vec<(&str, Vec<EffectiveOwnership>)>) -> EffectiveOwnershipReport {
    let mut r = EffectiveOwnershipReport::empty();
    r.per_fn = rows.into_iter().map(|(n, v)| (n.to_string(), v)).collect();
    r
}

fn sig(tys: Vec<Type>, owns: Vec<Option<OwnershipModifier>>) -> FunctionSig {
    FunctionSig {
        params: tys.into_iter().enumerate().map(|(i, t)| (format!("p{i}"), t)).collect(),
        param_ownerships: owns,
        ret: Type::Nothing,
        decl_span: sp(),
        contains_wait: false,
        suspends: false,
        does_real_work: false,
        original_name: None,
    }
}

fn shape_ty() -> Type {
    Type::Shape { name: "Box".to_string() }
}

#[test]
fn share_param_lent_to_writer_is_a_violation() {
    let m = Module {
        items: vec![
            func("mutate", vec![param("b", None)], vec![]),
            func(
                "reader",
                vec![param("b", Some(OwnershipModifier::Share))],
                vec![Stmt::Expr(call_at("mutate", vec![ident("b")], 7))],
            ),
        ],
        span: sp(),
    };
    let r = report(vec![("mutate", vec![EffectiveOwnership::Writes]), ("reader", vec![EffectiveOwnership::Writes])]);
    let declared: Vec<(String, Vec<usize>)> = Vec::new();
    let v = find_transitive_share_violations(&m, &r, &declared, &NameSet::new());
    assert_eq!(v.len(), 1);
    assert_eq!(v[0].param_name, "b");
    assert_eq!(v[0].callee_name, "mutate");
    assert_eq!(v[0].span, at(7));
}

#[test]
fn share_param_passed_to_reader_or_unknown_is_fine() {
    let m = Module {
        items: vec![func(
            "reader",
            vec![param("b", Some(OwnershipModifier::Share))],
            vec![Stmt::Expr(call_at("look", vec![ident("b")], 3)), Stmt::Expr(call_at("far", vec![ident("b")], 4))],
        )],
        span: sp(),
    };
    let r = report(vec![("look", vec![EffectiveOwnership::Reads]), ("far", vec![EffectiveOwnership::Unknown])]);
    let declared: Vec<(String, Vec<usize>)> = Vec::new();
    let v = find_transitive_share_violations(&m, &r, &declared, &NameSet::new());
    assert!(v.is_empty());
}

#[test]
fn bare_param_is_not_checked_for_share_escalation() {
    let m = Module {
        items: vec![func("caller", vec![param("b", None)], vec![Stmt::Expr(call_at("mutate", vec![ident("b")], 2))])],
        span: sp(),
    };
    let r = report(vec![("mutate", vec![EffectiveOwnership::Writes])]);
    let declared: Vec<(String, Vec<usize>)> = Vec::new();
    assert!(find_transitive_share_violations(&m, &r, &declared, &NameSet::new()).is_empty());
}

#[test]
fn same_value_to_lend_and_share_is_rejected() {
    let body = vec![Stmt::Expr(call_at("swap", vec![ident_at("player", 10), field_at(ident("player"), "pet", 20)], 5))];
    let m = Module { items: vec![func("main", vec![], body)], span: sp() };
    let sigs = vec![(
        "swap".to_string(),
        sig(vec![shape_ty(), shape_ty()], vec![Some(OwnershipModifier::Lend), Some(OwnershipModifier::Share)]),
    )];
    let r = report(vec![]);
    let v = find_aliasing_call_violations(&m, &r, &sigs, &Vec::new());
    assert_eq!(v.len(), 1);
    assert_eq!(v[0].first_path, "player");
    assert_eq!(v[0].second_path, "player.pet");
    assert_eq!(v[0].callee_name, "swap");
    assert_eq!(v[0].first_kind, AliasArgKind::DeclaredLend);
    assert_eq!(v[0].second_kind, AliasArgKind::DeclaredShare);
    assert_eq!(v[0].span, at(20));
}

#[test]
fn read_read_overlap_and_scalars_are_allowed() {
    let body = vec![
        Stmt::Expr(call_at("look", vec![ident("a"), ident("a")], 1)),
        Stmt::Expr(call_at("count", vec![ident("n"), ident("n")], 2)),
        Stmt::Expr(call_at("unknown_fn", vec![ident("a"), ident("a")], 3)),
    ];
    let m = Module { items: vec![func("main", vec![], body)], span: sp() };
    let sigs = vec![
        ("look".to_string(), sig(vec![shape_ty(), shape_ty()], vec![Some(OwnershipModifier::Share), None])),
        ("count".to_string(), sig(vec![Type::Int, Type::Int], vec![Some(OwnershipModifier::Lend), None])),
    ];
    let r = report(vec![("look", vec![EffectiveOwnership::Reads, EffectiveOwnership::Reads])]);
    assert!(find_aliasing_call_violations(&m, &r, &sigs, &Vec::new()).is_empty());
}

#[test]
fn unverifiable_bare_position_counts_as_write_capable() {
    let body = vec![Stmt::Expr(call_at("merge", vec![ident("a"), ident("b"), ident("a")], 4))];
    let m = Module { items: vec![func("main", vec![], body)], span: sp() };
    let sigs = vec![("merge".to_string(), sig(vec![shape_ty(), shape_ty(), shape_ty()], vec![None, None, None]))];
    let r = report(vec![("merge", vec![EffectiveOwnership::Reads, EffectiveOwnership::Reads, EffectiveOwnership::Unknown])]);
    let v = find_aliasing_call_violations(&m, &r, &sigs, &Vec::new());
    assert_eq!(v.len(), 1);
    assert_eq!(v[0].first_kind, AliasArgKind::InferredRead);
    assert_eq!(v[0].second_kind, AliasArgKind::Unverifiable);
    assert!(v[0].second_kind.write_capable());
    assert_eq!(v[0].second_kind.describe(), "a parameter the compiler cannot prove stays read-only");
}
