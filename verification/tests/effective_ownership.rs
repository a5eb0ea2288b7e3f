use ynz_typeck::diagnostics::SourceSpan;
use ynz_typeck::effective_ownership::{
    analyze, analyze_for_test, contract_self_ownership, receiver_kind_ownership, EffectiveOwnership,
    EffectiveOwnershipReport, Freshness, FreshnessFacts,
};
use ynz_typeck::shapes::ShapeTable;
use ynz_typeck::types::Type;
use ynz_typeck::names::NameSet;
use ynz_typeck::ownership_fixpoint::declared_write_positions;
use ynz_typeck::syntax::{
    AstType, Block, CallExpr, ContractSig, Expr, FunctionDecl, Item, Module, OwnershipModifier, Param, ReceiverKind,
    ShapeDecl, Stmt, StringPart,
};

fn sp() -> SourceSpan {
    SourceSpan { file: "test.ynz".to_string(), start: 0, end: 0 }
}

fn ident(name: &str) -> Expr {
    Expr::Ident(name.to_string(), sp())
}

fn int_lit(v: i64) -> Expr {
    Expr::IntLit(v, sp())
}

fn call(callee: &str, args: Vec<Expr>) -> Expr {
    Expr::Call(CallExpr { callee: Box::new(ident(callee)), args, span: sp() })
}

fn method(receiver: Expr, name: &str, args: Vec<Expr>) -> Expr {
    Expr::MethodCall { receiver: Box::new(receiver), method: name.to_string(), args, span: sp() }
}

fn field(receiver: Expr, name: &str) -> Expr {
    Expr::FieldAccess { receiver: Box::new(receiver), field: name.to_string(), span: sp() }
}

fn self_value() -> Expr {
    Expr::SelfValue { span: sp() }
}

fn field_assign(target: Expr, value: Expr) -> Stmt {
    Stmt::FieldAssign { target, value, span: sp() }
}

fn expr_stmt(e: Expr) -> Stmt {
    Stmt::Expr(e)
}

fn ret(e: Expr) -> Stmt {
    Stmt::Return { value: Some(e), span: sp() }
}

fn block(stmts: Vec<Stmt>) -> Block {
    Block { stmts, span: sp() }
}

fn box_ty() -> AstType {
    AstType::Named("Box".to_string(), sp())
}

fn int_array() -> AstType {
    AstType::Generic { name: "array".to_string(), name_span: sp(), args: vec![AstType::Int] }
}

fn param(name: &str, ty: AstType) -> Param {
    Param { name: name.to_string(), ty, ownership: None }
}

fn param_with(name: &str, ty: AstType, m: OwnershipModifier) -> Param {
    Param { name: name.to_string(), ty, ownership: Some(m) }
}

fn func(name: &str, params: Vec<Param>, stmts: Vec<Stmt>) -> Item {
    Item::Function(FunctionDecl {
        name: name.to_string(),
        name_span: sp(),
        generics: Vec::new(),
        params,
        return_type: AstType::Nothing,
        body: block(stmts),
        is_exported: false,
        errors_capable: false,
        span: sp(),
    })
}

fn shape(name: &str) -> Item {
    Item::ShapeDecl(ShapeDecl {
        name: name.to_string(),
        name_span: sp(),
        is_base: false,
        generics: Vec::new(),
        extends: None,
        follows: Vec::new(),
        fields: Vec::new(),
        contract_sigs: Vec::new(),
        alias_ty: None,
        is_exported: false,
        span: sp(),
    })
}

fn entrypoint() -> Item {
    func("entrypoint", vec![], vec![])
}

/// The builtin collection methods that mutate their receiver in place.
fn mutating_methods() -> NameSet {
    NameSet::from_strs(&["add", "set", "remove", "insert", "clear"])
}

fn module(items: Vec<Item>) -> Module {
    Module { items, span: sp() }
}

fn report(m: &Module) -> EffectiveOwnershipReport {
    analyze_for_test(m, &mutating_methods())
}

fn eo(m: &Module, fn_name: &str, index: usize) -> EffectiveOwnership {
    report(m).ownership_of(fn_name, index)
}

fn analyze_with_imports(m: &Module, imported: &[&str], extra_declared: Vec<(String, Vec<usize>)>) -> EffectiveOwnershipReport {
    let mut declared = declared_write_positions(m);
    declared.extend(extra_declared);
    let table = ShapeTable::empty();
    let none = NameSet::new();
    let scalars: Vec<(String, Type)> = Vec::new();
    let facts = FreshnessFacts { shape_table: &table, fresh_builtin_methods: &none, scalar_results: &scalars };
    analyze(m, &declared, &NameSet::from_strs(imported), &mutating_methods(), &Vec::new(), &facts)
}

#[test]
fn direct_field_write_is_writes() {
    let m = module(vec![
        shape("Box"),
        func("mutate", vec![param("b", box_ty())], vec![field_assign(field(ident("b"), "v"), int_lit(5))]),
        entrypoint(),
    ]);
    assert_eq!(eo(&m, "mutate", 0), EffectiveOwnership::Writes);
}

#[test]
fn only_read_is_reads() {
    let m = module(vec![
        shape("Box"),
        func("look", vec![param("b", box_ty())], vec![ret(field(ident("b"), "v"))]),
        entrypoint(),
    ]);
    assert_eq!(eo(&m, "look", 0), EffectiveOwnership::Reads);
}

#[test]
fn transitive_through_bare_callee_is_writes() {
    let m = module(vec![
        shape("Box"),
        func("helper", vec![param("b", box_ty())], vec![field_assign(field(ident("b"), "v"), int_lit(999))]),
        func("fa", vec![param("x", box_ty())], vec![expr_stmt(call("helper", vec![ident("x")]))]),
        entrypoint(),
    ]);
    assert_eq!(eo(&m, "helper", 0), EffectiveOwnership::Writes);
    assert_eq!(
        eo(&m, "fa", 0),
        EffectiveOwnership::Writes,
        "fa's x flows into helper's mutating bare param — must be Writes transitively"
    );
}

#[test]
fn two_hop_transitive_is_writes() {
    let m = module(vec![
        shape("Box"),
        func("inner", vec![param("b", box_ty())], vec![field_assign(field(ident("b"), "v"), int_lit(1))]),
        func("mid", vec![param("b", box_ty())], vec![expr_stmt(call("inner", vec![ident("b")]))]),
        func("outer", vec![param("b", box_ty())], vec![expr_stmt(call("mid", vec![ident("b")]))]),
        entrypoint(),
    ]);
    assert_eq!(eo(&m, "inner", 0), EffectiveOwnership::Writes);
    assert_eq!(eo(&m, "mid", 0), EffectiveOwnership::Writes);
    assert_eq!(eo(&m, "outer", 0), EffectiveOwnership::Writes);
}

#[test]
fn explicit_give_is_writes() {
    let m = module(vec![
        shape("Box"),
        func("consume", vec![param_with("b", box_ty(), OwnershipModifier::Give)], vec![]),
        entrypoint(),
    ]);
    assert_eq!(eo(&m, "consume", 0), EffectiveOwnership::Writes);
}

#[test]
fn explicit_lend_is_writes() {
    let m = module(vec![
        shape("Box"),
        func(
            "bump",
            vec![param_with("b", box_ty(), OwnershipModifier::Lend)],
            vec![field_assign(
                field(ident("b"), "v"),
                Expr::BinOp { lhs: Box::new(field(ident("b"), "v")), op: "+".to_string(), rhs: Box::new(int_lit(1)), span: sp() },
            )],
        ),
        entrypoint(),
    ]);
    assert_eq!(eo(&m, "bump", 0), EffectiveOwnership::Writes);
}

#[test]
fn give_postfix_is_writes() {
    let m = module(vec![
        shape("Box"),
        func("consume", vec![param_with("b", box_ty(), OwnershipModifier::Give)], vec![]),
        func("passOn", vec![param("b", box_ty())], vec![expr_stmt(call("consume", vec![ident("b")]))]),
        entrypoint(),
    ]);
    assert_eq!(eo(&m, "passOn", 0), EffectiveOwnership::Writes, "passOn gives b to a give-position consume — Writes");
}

#[test]
fn method_receiver_to_lend_is_writes() {
    let m = module(vec![
        shape("Box"),
        func(
            "bump",
            vec![param_with("self", box_ty(), OwnershipModifier::Lend)],
            vec![field_assign(field(self_value(), "v"), int_lit(1))],
        ),
        func("caller", vec![param("b", box_ty())], vec![expr_stmt(method(ident("b"), "bump", vec![]))]),
        entrypoint(),
    ]);
    assert_eq!(
        eo(&m, "caller", 0),
        EffectiveOwnership::Writes,
        "caller's b flows into bump's lend self via method-call syntax — Writes"
    );
}

#[test]
fn read_only_method_receiver_is_reads() {
    let m = module(vec![
        shape("Box"),
        func("look", vec![param_with("self", box_ty(), OwnershipModifier::Share)], vec![ret(field(self_value(), "v"))]),
        func("caller", vec![param("b", box_ty())], vec![ret(method(ident("b"), "look", vec![]))]),
        entrypoint(),
    ]);
    assert_eq!(eo(&m, "caller", 0), EffectiveOwnership::Reads);
}

#[test]
fn self_recursion_converges_and_classifies_writes() {
    let m = module(vec![
        shape("Box"),
        func(
            "recur",
            vec![param("b", box_ty()), param("n", AstType::Int)],
            vec![Stmt::If {
                cond: ident("n"),
                body: block(vec![
                    field_assign(field(ident("b"), "v"), ident("n")),
                    expr_stmt(call("recur", vec![ident("b"), int_lit(0)])),
                ]),
                span: sp(),
            }],
        ),
        entrypoint(),
    ]);
    assert_eq!(eo(&m, "recur", 0), EffectiveOwnership::Writes, "self-recursive mutating param converges to Writes");
}

#[test]
fn mutual_recursion_converges() {
    let m = module(vec![
        shape("Box"),
        func("ping", vec![param("b", box_ty())], vec![expr_stmt(call("pong", vec![ident("b")]))]),
        func(
            "pong",
            vec![param("b", box_ty())],
            vec![field_assign(field(ident("b"), "v"), int_lit(7)), expr_stmt(call("ping", vec![ident("b")]))],
        ),
        entrypoint(),
    ]);
    assert_eq!(eo(&m, "pong", 0), EffectiveOwnership::Writes);
    assert_eq!(eo(&m, "ping", 0), EffectiveOwnership::Writes, "ping flows into pong which writes — Writes transitively");
}

#[test]
fn passed_to_intrinsic_is_reads() {
    let shown = method(field(ident("b"), "v"), "toString", vec![]);
    let m = module(vec![
        shape("Box"),
        func(
            "show",
            vec![param("b", box_ty())],
            vec![expr_stmt(call("print", vec![Expr::InterpolatedString(vec![StringPart::Expr(shown, sp())], sp())]))],
        ),
        entrypoint(),
    ]);
    assert_eq!(eo(&m, "show", 0), EffectiveOwnership::Reads);
}

#[test]
fn flow_into_imported_nondeclared_is_unknown() {
    let m = module(vec![
        shape("Box"),
        func("fa", vec![param("b", box_ty())], vec![expr_stmt(call("remoteOp", vec![ident("b")]))]),
        entrypoint(),
    ]);
    let report = analyze_with_imports(&m, &["remoteOp"], Vec::new());
    assert_eq!(
        report.ownership_of("fa", 0),
        EffectiveOwnership::Unknown,
        "flow into an imported non-declared position must be Unknown (conservative)"
    );
}

#[test]
fn flow_into_imported_declared_lend_is_writes() {
    let m = module(vec![
        shape("Box"),
        func("fa", vec![param("b", box_ty())], vec![expr_stmt(call("remoteWrite", vec![ident("b")]))]),
        entrypoint(),
    ]);
    let report = analyze_with_imports(&m, &["remoteWrite"], vec![("remoteWrite".to_string(), vec![0])]);
    assert_eq!(
        report.ownership_of("fa", 0),
        EffectiveOwnership::Writes,
        "flow into an imported declared-lend position is a definite write"
    );
}

#[test]
fn unknown_dominated_by_writes_on_join() {
    let m = module(vec![
        shape("Box"),
        func("localWrite", vec![param("b", box_ty())], vec![field_assign(field(ident("b"), "v"), int_lit(1))]),
        func(
            "fa",
            vec![param("b", box_ty())],
            vec![expr_stmt(call("remoteOp", vec![ident("b")])), expr_stmt(call("localWrite", vec![ident("b")]))],
        ),
        entrypoint(),
    ]);
    let report = analyze_with_imports(&m, &["remoteOp"], Vec::new());
    assert_eq!(
        report.ownership_of("fa", 0),
        EffectiveOwnership::Writes,
        "Writes must dominate Unknown when a param flows into both"
    );
}

#[test]
fn second_param_independent_classification() {
    let m = module(vec![
        shape("Box"),
        func(
            "mixed",
            vec![param("reader", box_ty()), param("writer", box_ty())],
            vec![
                Stmt::Let {
                    name: "x".to_string(),
                    name_span: sp(),
                    ty: Some(AstType::Int),
                    value: field(ident("reader"), "v"),
                    is_const: false,
                    span: sp(),
                },
                field_assign(field(ident("writer"), "v"), ident("x")),
            ],
        ),
        entrypoint(),
    ]);
    assert_eq!(eo(&m, "mixed", 0), EffectiveOwnership::Reads, "reader param");
    assert_eq!(eo(&m, "mixed", 1), EffectiveOwnership::Writes, "writer param");
}

#[test]
fn self_param_transitive_write_is_writes() {
    let m = module(vec![
        shape("Box"),
        func("helper", vec![param("b", box_ty())], vec![field_assign(field(ident("b"), "v"), int_lit(999))]),
        func("wrapper", vec![param("self", box_ty())], vec![expr_stmt(call("helper", vec![self_value()]))]),
        entrypoint(),
    ]);
    assert_eq!(
        eo(&m, "wrapper", 0),
        EffectiveOwnership::Writes,
        "self flows into a mutating callee — must be Writes transitively, same as the named form"
    );
}

#[test]
fn self_param_direct_field_write_is_writes() {
    let m = module(vec![
        shape("Box"),
        func("bump", vec![param("self", box_ty())], vec![field_assign(field(self_value(), "v"), int_lit(1))]),
        entrypoint(),
    ]);
    assert_eq!(eo(&m, "bump", 0), EffectiveOwnership::Writes, "direct field write through self must classify Writes");
}

#[test]
fn mutating_collection_method_on_param_is_writes() {
    let add_m = module(vec![
        func("grow", vec![param("xs", int_array())], vec![expr_stmt(method(ident("xs"), "add", vec![int_lit(7)]))]),
        entrypoint(),
    ]);
    assert_eq!(eo(&add_m, "grow", 0), EffectiveOwnership::Writes, "xs.add(7) writes xs in place — must be Writes");
    let set_m = module(vec![
        func("put", vec![param("xs", int_array())], vec![expr_stmt(method(ident("xs"), "set", vec![int_lit(0), int_lit(9)]))]),
        entrypoint(),
    ]);
    assert_eq!(eo(&set_m, "put", 0), EffectiveOwnership::Writes, "xs.set(0, 9) writes xs in place — must be Writes");
}

#[test]
fn read_collection_method_on_param_is_reads() {
    let get_m = module(vec![
        shape("Box"),
        func("peek", vec![param("xs", int_array())], vec![ret(method(ident("xs"), "get", vec![int_lit(0)]))]),
        entrypoint(),
    ]);
    assert_eq!(eo(&get_m, "peek", 0), EffectiveOwnership::Reads, "xs.get(0) only reads xs — must stay Reads");
    let count_m = module(vec![
        func("size", vec![param("xs", int_array())], vec![ret(method(ident("xs"), "count", vec![]))]),
        entrypoint(),
    ]);
    assert_eq!(eo(&count_m, "size", 0), EffectiveOwnership::Reads, "xs.count() only reads xs — must stay Reads");
}

#[test]
fn user_method_named_like_mutator_uses_real_ownership() {
    let m = module(vec![
        shape("MyShape"),
        func(
            "set",
            vec![param_with("self", AstType::Named("MyShape".to_string(), sp()), OwnershipModifier::Share)],
            vec![ret(field(self_value(), "v"))],
        ),
        func(
            "caller",
            vec![param("s", AstType::Named("MyShape".to_string(), sp()))],
            vec![ret(method(ident("s"), "set", vec![]))],
        ),
        entrypoint(),
    ]);
    assert_eq!(eo(&m, "set", 0), EffectiveOwnership::Reads, "the user `set` only reads self — Reads");
    assert_eq!(
        eo(&m, "caller", 0),
        EffectiveOwnership::Reads,
        "caller's receiver flows into a read-only user `set` — must stay Reads, not the name-based Writes"
    );
}

#[test]
fn dynamic_dispatch_contract_lend_is_writes() {
    assert_eq!(receiver_kind_ownership(&ReceiverKind::Lend), EffectiveOwnership::Writes);
    assert_eq!(receiver_kind_ownership(&ReceiverKind::Give), EffectiveOwnership::Writes);
    assert_eq!(receiver_kind_ownership(&ReceiverKind::Share), EffectiveOwnership::Reads);
}

#[test]
fn contract_without_receiver_has_no_self_ownership() {
    let sig = ContractSig { name: "make".to_string(), params: Vec::new(), return_type: AstType::Nothing, receiver: None };
    assert_eq!(contract_self_ownership(&sig), None);
    let sig = ContractSig {
        name: "poke".to_string(),
        params: Vec::new(),
        return_type: AstType::Nothing,
        receiver: Some(ReceiverKind::Lend),
    };
    assert_eq!(contract_self_ownership(&sig), Some(EffectiveOwnership::Writes));
}

#[test]
fn lookups_of_unknown_functions_are_conservative() {
    let m = module(vec![func("f", vec![param("a", box_ty())], vec![])]);
    let r = report(&m);
    assert_eq!(r.ownership_of("f", 0), EffectiveOwnership::Reads);
    assert_eq!(r.ownership_of("f", 1), EffectiveOwnership::Unknown, "out-of-range position");
    assert_eq!(r.ownership_of("g", 0), EffectiveOwnership::Unknown, "unknown function");
    assert!(r.is_local_fn("f"));
    assert!(!r.is_local_fn("g"));
    assert!(!r.consumed_of("g", 0));
    assert_eq!(r.returns_fresh_of("f"), Freshness::Fresh, "no return yields a shared value");
    assert_eq!(r.returns_fresh_of("g"), Freshness::MayAlias { param: None });
}

fn array_lit(elements: Vec<Expr>) -> Expr {
    Expr::ArrayLit { elements, span: sp() }
}

fn let_stmt(name: &str, value: Expr) -> Stmt {
    Stmt::Let { name: name.to_string(), name_span: sp(), ty: None, value, is_const: false, span: sp() }
}

#[test]
fn returning_a_parameter_may_alias_it() {
    let m = module(vec![func("id", vec![param("a", box_ty())], vec![ret(ident("a"))])]);
    assert_eq!(report(&m).returns_fresh_of("id"), Freshness::MayAlias { param: Some("a".to_string()) });
}

#[test]
fn returning_a_field_of_a_parameter_may_alias_it() {
    let m = module(vec![func("pet_of", vec![param("owner", box_ty())], vec![ret(field(ident("owner"), "pet"))])]);
    assert_eq!(report(&m).returns_fresh_of("pet_of"), Freshness::MayAlias { param: Some("owner".to_string()) });
}

#[test]
fn returning_a_given_parameter_or_fresh_literal_is_fresh() {
    let m = module(vec![
        func("take", vec![param_with("a", box_ty(), OwnershipModifier::Give)], vec![ret(ident("a"))]),
        func("build", vec![], vec![ret(array_lit(vec![int_lit(1), int_lit(2)]))]),
        func("local", vec![], vec![let_stmt("x", array_lit(vec![])), ret(ident("x"))]),
    ]);
    let r = report(&m);
    assert_eq!(r.returns_fresh_of("take"), Freshness::Fresh);
    assert_eq!(r.returns_fresh_of("build"), Freshness::Fresh);
    assert_eq!(r.returns_fresh_of("local"), Freshness::Fresh);
}

#[test]
fn aliased_local_is_not_fresh_and_call_results_follow_the_callee() {
    let m = module(vec![
        func("alias", vec![], vec![let_stmt("x", array_lit(vec![])), let_stmt("y", ident("x")), ret(ident("y"))]),
        func("fresh_call", vec![], vec![ret(call("build", vec![]))]),
        func("build", vec![], vec![ret(array_lit(vec![]))]),
        func("pass_on", vec![param("b", int_array())], vec![ret(call("id", vec![ident("b")]))]),
        func("id", vec![param("a", box_ty())], vec![ret(ident("a"))]),
    ]);
    let r = report(&m);
    assert_eq!(r.returns_fresh_of("alias"), Freshness::MayAlias { param: None });
    assert_eq!(r.returns_fresh_of("fresh_call"), Freshness::Fresh);
    assert_eq!(r.returns_fresh_of("pass_on"), Freshness::MayAlias { param: Some("b".to_string()) });
}

#[test]
fn lattice_join_is_the_higher_point() {
    let (reads, unknown, writes) = (EffectiveOwnership::Reads, EffectiveOwnership::Unknown, EffectiveOwnership::Writes);
    assert_eq!(reads.join(unknown), unknown);
    assert_eq!(unknown.join(writes), writes);
    assert_eq!(writes.join(reads), writes);
    assert_eq!(reads.join(reads), reads);
    assert_eq!(reads.rank(), 0);
    assert_eq!(unknown.rank(), 1);
    assert_eq!(writes.rank(), 2);
}

#[test]
fn give_positions_are_consumed_and_passing_to_them_consumes() {
    let m = module(vec![
        shape("Box"),
        func("consume", vec![param_with("b", box_ty(), OwnershipModifier::Give)], vec![]),
        func("passOn", vec![param("b", box_ty()), param("k", box_ty())], vec![expr_stmt(call("consume", vec![ident("b")]))]),
        func("look", vec![param("b", box_ty())], vec![ret(field(ident("b"), "v"))]),
    ]);
    let r = report(&m);
    assert!(r.consumed_of("consume", 0));
    assert!(r.consumed_of("passOn", 0), "passed whole to a give position");
    assert!(!r.consumed_of("passOn", 1));
    assert!(!r.consumed_of("look", 0));
}

#[test]
fn sending_a_transferring_param_consumes_it() {
    let m = module(vec![func(
        "ship",
        vec![param("wire", AstType::Named("Wire".to_string(), sp())), param("rows", int_array())],
        vec![expr_stmt(method(ident("wire"), "send", vec![ident("rows")]))],
    )]);
    let declared = declared_write_positions(&m);
    let transfers = vec![("ship".to_string(), vec![false, true])];
    let table = ShapeTable::empty();
    let no_methods = NameSet::new();
    let scalars: Vec<(String, Type)> = Vec::new();
    let facts = FreshnessFacts { shape_table: &table, fresh_builtin_methods: &no_methods, scalar_results: &scalars };
    let r = analyze(&m, &declared, &NameSet::new(), &mutating_methods(), &transfers, &facts);
    assert!(r.consumed_of("ship", 1), "an owned-heap payload sent whole moves");
    assert!(!r.consumed_of("ship", 0));
    let none = analyze(&m, &declared, &NameSet::new(), &mutating_methods(), &Vec::new(), &facts);
    assert!(!none.consumed_of("ship", 1), "a non-transferring payload is copied, not consumed");
}

#[test]
fn declared_write_positions_lists_lend_and_give() {
    let m = module(vec![func(
        "f",
        vec![
            param_with("a", box_ty(), OwnershipModifier::Lend),
            param_with("b", box_ty(), OwnershipModifier::Share),
            param("c", box_ty()),
            param_with("d", box_ty(), OwnershipModifier::Give),
        ],
        vec![],
    )]);
    let d = declared_write_positions(&m);
    assert_eq!(d.len(), 1);
    assert_eq!(d[0].0, "f");
    assert_eq!(d[0].1, vec![0, 3]);
}
