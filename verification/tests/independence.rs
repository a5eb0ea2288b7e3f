use ynz_typeck::diagnostics::SourceSpan;
use ynz_typeck::independence::{
    cpu_result_abi_supports, is_mutable_heap_type, partition_groups_classified, partition_independent_groups,
    stmt_direct_callee_name, stmt_direct_suspending_callee, stmt_has_explicit_wait, stmts_are_independent,
    write_positions_for_sig, ClassifiedGroup, CpuCandidacy, IndependentGroup, MemberClass,
};
use ynz_typeck::names::NameSet;
use ynz_typeck::signatures::{FunctionSig, SignatureTable};
use ynz_typeck::syntax::{CallExpr, Expr, Stmt};
use ynz_typeck::types::Type;

fn src_span() -> SourceSpan {
    SourceSpan { file: String::new(), start: 0, end: 0 }
}

fn ident(name: &str) -> Expr {
    Expr::Ident(name.to_string(), src_span())
}

fn call(callee: &str, args: Vec<Expr>) -> Expr {
    Expr::Call(CallExpr { callee: Box::new(ident(callee)), args, span: src_span() })
}

fn call_stmt(callee: &str, args: Vec<Expr>) -> Stmt {
    Stmt::Expr(call(callee, args))
}

fn let_stmt(name: &str, callee: &str, args: Vec<Expr>) -> Stmt {
    Stmt::Let { name: name.to_string(), name_span: src_span(), ty: None, value: call(callee, args), is_const: false, span: src_span() }
}

fn heap_ty() -> Type {
    Type::Shape { name: "Box".to_string() }
}

fn sig_typed(tys: Vec<Type>) -> FunctionSig {
    let n = tys.len();
    let params: Vec<(String, Type)> = tys.into_iter().enumerate().map(|(i, ty)| (format!("p{i}"), ty)).collect();
    FunctionSig {
        params,
        param_ownerships: vec![None; n],
        ret: Type::Nothing,
        decl_span: src_span(),
        contains_wait: false,
        suspends: true,
        does_real_work: false,
        original_name: None,
    }
}

fn sig_returning(tys: Vec<Type>, ret: Type) -> FunctionSig {
    let mut s = sig_typed(tys);
    s.ret = ret;
    s.suspends = false;
    s.does_real_work = true;
    s
}

fn table_only(defs: Vec<(&str, Vec<Type>)>) -> SignatureTable {
    let mut table = SignatureTable::empty();
    for (name, tys) in defs {
        table.fns.push((name.to_string(), sig_typed(tys)));
    }
    table
}

fn suspend_set(names: &[&str]) -> NameSet {
    NameSet::from_strs(names)
}

fn no_imports() -> Vec<(String, FunctionSig)> {
    Vec::new()
}

#[test]
fn data_dependent_stmts_are_not_independent() {
    let table = SignatureTable::empty();
    let a = let_stmt("x", "fetcher", vec![]);
    let b = call_stmt("fetcher", vec![ident("x")]);
    assert!(!stmts_are_independent(&a, &b, &table, &no_imports()), "b reads `x` which a defines");
}

#[test]
fn define_define_conflict_not_independent() {
    let table = SignatureTable::empty();
    let a = let_stmt("x", "fa", vec![]);
    let b = let_stmt("x", "fb", vec![]);
    assert!(!stmts_are_independent(&a, &b, &table, &no_imports()), "both define `x`");
}

#[test]
fn truly_independent_stmts_are_independent() {
    let table = SignatureTable::empty();
    let a = let_stmt("x", "fa", vec![]);
    let b = let_stmt("y", "fb", vec![]);
    assert!(stmts_are_independent(&a, &b, &table, &no_imports()));
}

#[test]
fn lend_conflict_not_independent() {
    let table = table_only(vec![("writer", vec![heap_ty()])]);
    let a = call_stmt("writer", vec![ident("counter")]);
    let b = call_stmt("writer", vec![ident("counter")]);
    assert!(!stmts_are_independent(&a, &b, &table, &no_imports()), "both write `counter`");
}

fn all_singletons(groups: &[IndependentGroup<'_>]) -> bool {
    groups.iter().all(|g| matches!(g, IndependentGroup::Singleton(_)))
}

#[test]
fn aliased_lend_pair_produces_singletons_not_parallel() {
    let table = table_only(vec![("slowBump", vec![heap_ty(), Type::Int])]);
    let susp = suspend_set(&["slowBump"]);
    let stmts = vec![
        call_stmt("slowBump", vec![ident("a"), ident("10")]),
        call_stmt("slowBump", vec![ident("b"), ident("100")]),
    ];
    let groups = partition_independent_groups(&stmts, &susp, &table, &no_imports());
    assert_eq!(groups.len(), 2);
    assert!(matches!(groups[0], IndependentGroup::Singleton(_)));
    assert!(matches!(groups[1], IndependentGroup::Singleton(_)));
}

#[test]
fn aliased_share_read_vs_lend_write_produces_singletons() {
    let table = table_only(vec![("slowRead", vec![heap_ty()]), ("fastBump", vec![heap_ty()])]);
    let susp = suspend_set(&["slowRead", "fastBump"]);
    let stmts = vec![let_stmt("r", "slowRead", vec![ident("b")]), call_stmt("fastBump", vec![ident("a")])];
    let groups = partition_independent_groups(&stmts, &susp, &table, &no_imports());
    assert_eq!(groups.len(), 2);
    assert!(matches!(groups[0], IndependentGroup::Singleton(_)));
    assert!(matches!(groups[1], IndependentGroup::Singleton(_)));
}

#[test]
fn no_write_args_different_bindings_can_parallelize() {
    let table = SignatureTable::empty();
    let a = let_stmt("x", "fa", vec![ident("data_a")]);
    let b = let_stmt("y", "fb", vec![ident("data_b")]);
    assert!(stmts_are_independent(&a, &b, &table, &no_imports()));
}

#[test]
fn give_arg_produces_singletons() {
    let table = table_only(vec![("consume", vec![heap_ty()])]);
    let susp = suspend_set(&["consume"]);
    let stmts = vec![call_stmt("consume", vec![ident("a")]), call_stmt("consume", vec![ident("b")])];
    let groups = partition_independent_groups(&stmts, &susp, &table, &no_imports());
    assert_eq!(groups.len(), 2);
    assert!(matches!(groups[0], IndependentGroup::Singleton(_)));
    assert!(matches!(groups[1], IndependentGroup::Singleton(_)));
}

#[test]
fn bare_write_heap_pair_sequentializes() {
    let table = table_only(vec![("bareMut", vec![heap_ty()])]);
    let susp = suspend_set(&["bareMut"]);
    let stmts = vec![call_stmt("bareMut", vec![ident("a")]), call_stmt("bareMut", vec![ident("b")])];
    let groups = partition_independent_groups(&stmts, &susp, &table, &no_imports());
    assert_eq!(groups.len(), 2);
    assert!(matches!(groups[0], IndependentGroup::Singleton(_)));
    assert!(matches!(groups[1], IndependentGroup::Singleton(_)));
}

#[test]
fn bare_read_heap_pair_sequentializes_under_floor() {
    let table = table_only(vec![("readA", vec![heap_ty()]), ("readB", vec![heap_ty()])]);
    let susp = suspend_set(&["readA", "readB"]);
    let stmts = vec![let_stmt("x", "readA", vec![ident("a")]), let_stmt("y", "readB", vec![ident("b")])];
    let groups = partition_independent_groups(&stmts, &susp, &table, &no_imports());
    assert_eq!(groups.len(), 2);
    assert!(matches!(groups[0], IndependentGroup::Singleton(_)));
    assert!(matches!(groups[1], IndependentGroup::Singleton(_)));
}

#[test]
fn mutable_heap_share_read_pair_sequentializes_under_floor() {
    let table = table_only(vec![("readA", vec![heap_ty()]), ("readB", vec![heap_ty()])]);
    let susp = suspend_set(&["readA", "readB"]);
    let stmts = vec![let_stmt("x", "readA", vec![ident("a")]), let_stmt("y", "readB", vec![ident("b")])];
    let groups = partition_independent_groups(&stmts, &susp, &table, &no_imports());
    assert_eq!(groups.len(), 2);
    assert!(matches!(groups[0], IndependentGroup::Singleton(_)));
    assert!(matches!(groups[1], IndependentGroup::Singleton(_)));
}

#[test]
fn trivially_copyable_args_can_parallelize() {
    let table = table_only(vec![("addA", vec![Type::Int]), ("addB", vec![Type::Int])]);
    let susp = suspend_set(&["addA", "addB"]);
    let stmts = vec![let_stmt("x", "addA", vec![ident("n")]), let_stmt("y", "addB", vec![ident("m")])];
    let groups = partition_independent_groups(&stmts, &susp, &table, &no_imports());
    assert_eq!(groups.len(), 1);
    assert!(matches!(&groups[0], IndependentGroup::Parallel(v) if v.len() == 2));
}

#[test]
fn string_args_parallelize() {
    let table = table_only(vec![("emitA", vec![Type::String]), ("emitB", vec![Type::String])]);
    let susp = suspend_set(&["emitA", "emitB"]);
    let stmts = vec![let_stmt("x", "emitA", vec![ident("s")]), let_stmt("y", "emitB", vec![ident("t")])];
    let groups = partition_independent_groups(&stmts, &susp, &table, &no_imports());
    assert_eq!(groups.len(), 1);
    assert!(matches!(&groups[0], IndependentGroup::Parallel(v) if v.len() == 2));
}

#[test]
fn gate_discrimination_wrong_independent_verdict_would_change_grouping() {
    let susp = suspend_set(&["fetcher"]);
    let table = SignatureTable::empty();
    let stmts = vec![let_stmt("x", "fetcher", vec![]), call_stmt("fetcher", vec![ident("x")])];
    let groups = partition_independent_groups(&stmts, &susp, &table, &no_imports());
    assert_eq!(groups.len(), 2);
    assert!(matches!(groups[0], IndependentGroup::Singleton(_)));
    assert!(matches!(groups[1], IndependentGroup::Singleton(_)));
}

#[test]
fn wait_prefix_is_a_barrier_between_parallel_groups() {
    let table = SignatureTable::empty();
    let susp = suspend_set(&["fa", "fb", "fc", "fd"]);
    let waited = Stmt::Expr(Expr::Wait(Box::new(call("fc", vec![])), src_span()));
    let stmts = vec![
        let_stmt("a", "fa", vec![]),
        let_stmt("b", "fb", vec![]),
        waited,
        let_stmt("d", "fd", vec![]),
    ];
    assert!(stmt_has_explicit_wait(&stmts[2]));
    let groups = partition_independent_groups(&stmts, &susp, &table, &no_imports());
    assert_eq!(groups.len(), 3);
    assert!(matches!(&groups[0], IndependentGroup::Parallel(v) if v.len() == 2));
    assert!(matches!(groups[1], IndependentGroup::Singleton(_)));
    assert!(matches!(groups[2], IndependentGroup::Singleton(_)));
}

#[test]
fn same_suspending_callee_starts_a_new_group() {
    let table = SignatureTable::empty();
    let susp = suspend_set(&["fa", "fb"]);
    let stmts = vec![
        let_stmt("a", "fa", vec![]),
        let_stmt("b", "fb", vec![]),
        let_stmt("c", "fa", vec![]),
    ];
    let groups = partition_independent_groups(&stmts, &susp, &table, &no_imports());
    assert_eq!(groups.len(), 2);
    assert!(matches!(&groups[0], IndependentGroup::Parallel(v) if v.len() == 2));
    assert!(matches!(groups[1], IndependentGroup::Singleton(_)));
}

#[test]
fn non_candidate_statements_are_singletons_and_flush_the_group() {
    let table = SignatureTable::empty();
    let susp = suspend_set(&["fa", "fb"]);
    let stmts = vec![
        let_stmt("a", "fa", vec![]),
        let_stmt("z", "plain", vec![]),
        let_stmt("b", "fb", vec![]),
    ];
    let groups = partition_independent_groups(&stmts, &susp, &table, &no_imports());
    assert_eq!(groups.len(), 3);
    assert!(all_singletons(&groups));
}

#[test]
fn statement_helpers_read_the_call_shape() {
    let susp = suspend_set(&["fa"]);
    let s = let_stmt("a", "fa", vec![ident("x")]);
    assert_eq!(stmt_direct_suspending_callee(&s, &susp).as_deref(), Some("fa"));
    assert_eq!(stmt_direct_callee_name(&s).as_deref(), Some("fa"));
    let waited = Stmt::Expr(Expr::Wait(Box::new(call("fa", vec![])), src_span()));
    assert_eq!(stmt_direct_suspending_callee(&waited, &susp), None);
    assert_eq!(stmt_direct_callee_name(&waited).as_deref(), Some("fa"));
    let other = let_stmt("b", "gb", vec![]);
    assert_eq!(stmt_direct_suspending_callee(&other, &susp), None);
}

#[test]
fn mutable_heap_floor_excludes_scalars_and_strings() {
    assert!(!is_mutable_heap_type(&Type::Int));
    assert!(!is_mutable_heap_type(&Type::Bool));
    assert!(!is_mutable_heap_type(&Type::Number { precision: 34 }));
    assert!(!is_mutable_heap_type(&Type::String));
    assert!(is_mutable_heap_type(&heap_ty()));
    assert!(is_mutable_heap_type(&Type::BuiltinArray { elem: Box::new(Type::Int) }));
    let sig = sig_typed(vec![Type::Int, heap_ty(), Type::String, Type::BuiltinMap {
        key: Box::new(Type::String),
        val: Box::new(Type::Int),
    }]);
    assert_eq!(write_positions_for_sig(&sig), vec![1, 3]);
}

#[test]
fn cpu_result_abi_admits_exactly_the_carried_classes() {
    assert!(cpu_result_abi_supports(&Type::Int));
    assert!(cpu_result_abi_supports(&Type::Number { precision: 34 }));
    assert!(cpu_result_abi_supports(&Type::BuiltinArray { elem: Box::new(Type::Int) }));
    assert!(cpu_result_abi_supports(&Type::ErrorsCapable { inner: Box::new(Type::String) }));
    assert!(!cpu_result_abi_supports(&Type::ErrorsCapable { inner: Box::new(Type::Number { precision: 34 }) }));
    assert!(!cpu_result_abi_supports(&heap_ty()));
    assert!(!cpu_result_abi_supports(&Type::Nothing));
    assert!(!cpu_result_abi_supports(&Type::BuiltinFixed { elem: Box::new(Type::Int), size: Some(4) }));
}

#[test]
fn classified_partition_mixes_cpu_and_suspending_members() {
    let mut table = SignatureTable::empty();
    table.fns.push(("crunch".to_string(), sig_returning(vec![Type::Int], Type::Int)));
    table.fns.push(("fetch".to_string(), sig_returning(vec![], Type::String)));
    table.fns.push(("wide".to_string(), sig_returning(vec![], heap_ty())));
    let susp = suspend_set(&["fetch"]);
    let work = NameSet::from_strs(&["crunch", "wide"]);
    let cpu = CpuCandidacy { does_real_work: &work, enclosing_fn: "main" };
    let stmts = vec![
        let_stmt("a", "crunch", vec![ident("n")]),
        let_stmt("b", "crunch", vec![ident("m")]),
        let_stmt("c", "fetch", vec![]),
        let_stmt("d", "wide", vec![]),
    ];
    let groups = partition_groups_classified(&stmts, &susp, &table, &no_imports(), &cpu);
    assert_eq!(groups.len(), 2);
    match &groups[0] {
        ClassifiedGroup::Parallel { stmts, classes } => {
            assert_eq!(stmts.len(), 3);
            assert_eq!(classes, &vec![MemberClass::Cpu, MemberClass::Cpu, MemberClass::Suspending]);
        },
        other => panic!("expected a parallel group, got {other:?}"),
    }
    assert!(matches!(groups[1], ClassifiedGroup::Singleton(_)));
}
