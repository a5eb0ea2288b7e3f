use ynz_typeck::diagnostics::SourceSpan;
use ynz_typeck::may_block::{
    analyze, direct_callee_adjacency, does_real_work_set, find_mutual_suspension_cycles, suspends_set_for_test,
};
use ynz_typeck::names::NameSet;
use ynz_typeck::syntax::{AstType, Block, CallExpr, Expr, FunctionDecl, Item, Module, Param, Stmt};

fn sp() -> SourceSpan {
    SourceSpan { file: "test.ynz".to_string(), start: 0, end: 0 }
}

fn ident(name: &str) -> Expr {
    Expr::Ident(name.to_string(), sp())
}

fn int_lit(v: i64) -> Expr {
    Expr::IntLit(v, sp())
}

fn call(callee: &str, args: Vec<Expr>) -> Expr {
    Expr::Call(CallExpr { callee: Box::new(ident(callee)), args, span: sp() })
}

fn binop(lhs: Expr, op: &str, rhs: Expr) -> Expr {
    Expr::BinOp { lhs: Box::new(lhs), op: op.to_string(), rhs: Box::new(rhs), span: sp() }
}

fn wait_call(callee: &str, args: Vec<Expr>) -> Stmt {
    Stmt::Expr(Expr::Wait(Box::new(call(callee, args)), sp()))
}

fn call_stmt(callee: &str, args: Vec<Expr>) -> Stmt {
    Stmt::Expr(call(callee, args))
}

fn print_stmt(text: &str) -> Stmt {
    call_stmt("print", vec![Expr::StringLit(text.to_string(), sp())])
}

fn ret(value: Expr) -> Stmt {
    Stmt::Return { value: Some(value), span: sp() }
}

fn let_stmt(name: &str, value: Expr) -> Stmt {
    Stmt::Let { name: name.to_string(), name_span: sp(), ty: None, value, is_const: false, span: sp() }
}

fn block(stmts: Vec<Stmt>) -> Block {
    Block { stmts, span: sp() }
}

fn if_stmt(cond: Expr, body: Vec<Stmt>) -> Stmt {
    Stmt::If { cond, body: block(body), span: sp() }
}

fn param(name: &str, ty: AstType) -> Param {
    Param { name: name.to_string(), ty, ownership: None }
}

fn func(name: &str, params: Vec<Param>, ret_ty: AstType, stmts: Vec<Stmt>) -> Item {
    Item::Function(FunctionDecl {
        name: name.to_string(),
        name_span: sp(),
        generics: Vec::new(),
        params,
        return_type: ret_ty,
        body: block(stmts),
        is_exported: false,
        errors_capable: false,
        span: sp(),
    })
}

fn entrypoint_empty() -> Item {
    func("entrypoint", vec![], AstType::Nothing, vec![])
}

fn entrypoint_hi() -> Item {
    func("entrypoint", vec![], AstType::Nothing, vec![print_stmt("hi")])
}

fn module(items: Vec<Item>) -> Module {
    Module { items, span: sp() }
}

fn no_names() -> NameSet {
    NameSet::new()
}

fn suspends_set(m: &Module) -> NameSet {
    analyze(m, &no_names(), &no_names()).suspends
}

fn real_work_set(m: &Module) -> NameSet {
    does_real_work_set(m, &no_names(), &no_names())
}

fn fib_fn() -> Item {
    func(
        "fib",
        vec![param("n", AstType::Int)],
        AstType::Int,
        vec![
            if_stmt(binop(ident("n"), "<", int_lit(2)), vec![ret(ident("n"))]),
            ret(binop(
                call("fib", vec![binop(ident("n"), "-", int_lit(1))]),
                "+",
                call("fib", vec![binop(ident("n"), "-", int_lit(2))]),
            )),
        ],
    )
}

fn sum_to_fn(name: &str) -> Item {
    func(
        name,
        vec![param("n", AstType::Int)],
        AstType::Int,
        vec![
            let_stmt("total", int_lit(0)),
            let_stmt("i", int_lit(0)),
            Stmt::While {
                cond: binop(ident("i"), "<", ident("n")),
                body: block(vec![
                    Stmt::Assign { target: "total".to_string(), value: binop(ident("total"), "+", ident("i")), span: sp() },
                    Stmt::Assign { target: "i".to_string(), value: binop(ident("i"), "+", int_lit(1)), span: sp() },
                ]),
                span: sp(),
            },
            ret(ident("total")),
        ],
    )
}

#[test]
fn pure_cpu_fn_not_suspends() {
    let m = module(vec![func("entrypoint", vec![], AstType::Nothing, vec![print_stmt("hello")])]);
    let suspends = suspends_set(&m);
    assert!(!suspends.contains("entrypoint"), "pure CPU fn must NOT be suspends");
}

#[test]
fn direct_sleep_async_call_suspends() {
    let m = module(vec![
        func("pause", vec![], AstType::Nothing, vec![wait_call("sleep", vec![int_lit(100)])]),
        entrypoint_empty(),
    ]);
    let suspends = suspends_set(&m);
    assert!(suspends.contains("pause"), "direct sleep caller must be suspends");
    assert!(!suspends.contains("entrypoint"), "unrelated fn must NOT be suspends");
}

#[test]
fn transitive_outer_inner_sleep_async_all_suspends() {
    let m = module(vec![
        func("inner", vec![], AstType::Nothing, vec![wait_call("sleep", vec![int_lit(50)])]),
        func("outer", vec![], AstType::Nothing, vec![call_stmt("inner", vec![])]),
        func("entrypoint", vec![], AstType::Nothing, vec![call_stmt("outer", vec![])]),
    ]);
    let suspends = suspends_set(&m);
    assert!(suspends.contains("inner"), "inner (direct) must be suspends");
    assert!(suspends.contains("outer"), "outer (transitive) must be suspends");
    assert!(suspends.contains("entrypoint"), "entrypoint (transitive) must be suspends");
}

#[test]
fn background_decouples_propagation() {
    let m = module(vec![
        func("worker", vec![], AstType::Nothing, vec![wait_call("sleep", vec![int_lit(100)])]),
        func("launcher", vec![], AstType::Nothing, vec![Stmt::Expr(Expr::Background(Box::new(call("worker", vec![])), sp()))]),
        entrypoint_empty(),
    ]);
    let suspends = suspends_set(&m);
    assert!(suspends.contains("worker"), "worker (direct) must be suspends");
    assert!(!suspends.contains("launcher"), "launcher (background-only) must NOT be suspends");
    assert!(!suspends.contains("entrypoint"));
}

#[test]
fn cyclic_call_graph_converges() {
    let m = module(vec![
        func("a", vec![], AstType::Nothing, vec![call_stmt("b", vec![])]),
        func("b", vec![], AstType::Nothing, vec![call_stmt("a", vec![])]),
        entrypoint_empty(),
    ]);
    let suspends = suspends_set(&m);
    assert!(!suspends.contains("a"), "a (cycle, no may-block) must NOT be suspends");
    assert!(!suspends.contains("b"), "b (cycle, no may-block) must NOT be suspends");

    let m2 = module(vec![
        func("a", vec![], AstType::Nothing, vec![call_stmt("b", vec![])]),
        func("b", vec![], AstType::Nothing, vec![wait_call("sleep", vec![int_lit(10)]), call_stmt("a", vec![])]),
        entrypoint_empty(),
    ]);
    let suspends2 = suspends_set(&m2);
    assert!(suspends2.contains("b"), "b (direct) must be suspends");
    assert!(suspends2.contains("a"), "a (cycle-member via b) must be suspends");
}

#[test]
fn imported_non_suspending_fn_produces_no_unresolvable_and_no_suspension() {
    let m = module(vec![func("entrypoint", vec![], AstType::Nothing, vec![call_stmt("remoteOp", vec![])])]);
    let imported = NameSet::from_strs(&["remoteOp"]);
    let result = analyze(&m, &imported, &no_names());
    assert!(result.unresolvable.is_empty(), "known-non-suspending imported callee must NOT produce any unresolvable edge");
    assert!(!result.suspends.contains("entrypoint"), "caller of non-suspending imported fn must NOT be in suspends_set");
}

#[test]
fn imported_suspending_fn_seeds_caller_suspension() {
    let m = module(vec![func("entrypoint", vec![], AstType::Nothing, vec![call_stmt("slowOp", vec![])])]);
    let imported = NameSet::from_strs(&["slowOp"]);
    let imported_suspending = NameSet::from_strs(&["slowOp"]);
    let result = analyze(&m, &imported, &imported_suspending);
    assert!(result.suspends.contains("entrypoint"), "caller of imported suspending fn must be in suspends_set");
    assert!(result.unresolvable.is_empty(), "known-suspending imported fn must NOT produce an unresolvable edge");
}

#[test]
fn background_args_evaluated_in_calling_context() {
    let m = module(vec![
        func("worker", vec![param("n", AstType::Int)], AstType::Nothing, vec![wait_call("sleep", vec![ident("n")])]),
        func("compute", vec![], AstType::Int, vec![ret(int_lit(5))]),
        func(
            "launcher",
            vec![],
            AstType::Nothing,
            vec![Stmt::Expr(Expr::Background(Box::new(call("worker", vec![call("compute", vec![])])), sp()))],
        ),
        entrypoint_empty(),
    ]);
    let suspends = suspends_set(&m);
    assert!(suspends.contains("worker"), "worker must be suspends");
    assert!(!suspends.contains("compute"), "compute must NOT be suspends (pure CPU)");
    assert!(!suspends.contains("launcher"), "launcher must NOT be suspends (background-only path)");
}

#[test]
fn wait_inside_if_is_still_transitive() {
    let m = module(vec![
        func(
            "maybePause",
            vec![param("flag", AstType::Bool)],
            AstType::Nothing,
            vec![if_stmt(ident("flag"), vec![wait_call("sleep", vec![int_lit(50)])])],
        ),
        func("caller", vec![], AstType::Nothing, vec![call_stmt("maybePause", vec![Expr::BoolLit(true, sp())])]),
        entrypoint_empty(),
    ]);
    let suspends = suspends_set(&m);
    assert!(suspends.contains("maybePause"), "wait inside if must still be suspends");
    assert!(suspends.contains("caller"), "transitive via maybePause must be suspends");
}

#[test]
fn test_fallible_async_seeds_suspends() {
    let m = module(vec![
        func("fetchResult", vec![], AstType::Int, vec![ret(int_lit(0))]),
        func(
            "entrypoint",
            vec![],
            AstType::Nothing,
            vec![wait_call("__testFallibleAsync", vec![Expr::BoolLit(true, sp())])],
        ),
    ]);
    let suspends = suspends_set(&m);
    assert!(suspends.contains("entrypoint"), "__testFallibleAsync must seed suspends");
}

#[test]
fn user_fn_named_sleep_is_not_suspends_without_intrinsic_call() {
    let m = module(vec![
        func("sleep", vec![param("ms", AstType::Int)], AstType::Nothing, vec![print_stmt("this is a user fn, not the intrinsic")]),
        func("entrypoint", vec![], AstType::Nothing, vec![call_stmt("sleep", vec![int_lit(100)])]),
    ]);
    let suspends = suspends_set(&m);
    assert!(!suspends.contains("sleep"), "user fn named sleep without an intrinsic call must NOT be suspends");
    assert!(!suspends.contains("entrypoint"), "caller of user-fn-named-sleep without intrinsic must NOT be suspends");
}

#[test]
fn leaf_arithmetic_fn_does_no_real_work() {
    let m = module(vec![
        func("add", vec![param("x", AstType::Int)], AstType::Int, vec![ret(binop(ident("x"), "+", int_lit(1)))]),
        entrypoint_hi(),
    ]);
    let work = real_work_set(&m);
    assert!(!work.contains("add"), "leaf arithmetic fn must NOT do real work");
    assert!(!work.contains("entrypoint"));
}

#[test]
fn loop_containing_fn_does_real_work() {
    let m = module(vec![sum_to_fn("sumTo"), entrypoint_hi()]);
    let work = real_work_set(&m);
    assert!(work.contains("sumTo"), "loop-containing fn must do real work");
}

#[test]
fn self_recursive_fn_does_real_work() {
    let m = module(vec![
        func(
            "fib",
            vec![param("n", AstType::Int)],
            AstType::Int,
            vec![
                if_stmt(binop(ident("n"), "<", int_lit(2)), vec![ret(ident("n"))]),
                let_stmt("a", call("fib", vec![binop(ident("n"), "-", int_lit(1))])),
                let_stmt("b", call("fib", vec![binop(ident("n"), "-", int_lit(2))])),
                ret(binop(ident("a"), "+", ident("b"))),
            ],
        ),
        entrypoint_hi(),
    ]);
    let work = real_work_set(&m);
    assert!(work.contains("fib"), "self-recursive fn must do real work");
}

#[test]
fn mutual_recursion_does_real_work() {
    let m = module(vec![
        func(
            "isEven",
            vec![param("n", AstType::Int)],
            AstType::Bool,
            vec![
                if_stmt(binop(ident("n"), "==", int_lit(0)), vec![ret(Expr::BoolLit(true, sp()))]),
                ret(call("isOdd", vec![binop(ident("n"), "-", int_lit(1))])),
            ],
        ),
        func(
            "isOdd",
            vec![param("n", AstType::Int)],
            AstType::Bool,
            vec![
                if_stmt(binop(ident("n"), "==", int_lit(0)), vec![ret(Expr::BoolLit(false, sp()))]),
                ret(call("isEven", vec![binop(ident("n"), "-", int_lit(1))])),
            ],
        ),
        entrypoint_hi(),
    ]);
    let work = real_work_set(&m);
    assert!(work.contains("isEven"), "mutual-cycle member must do real work");
    assert!(work.contains("isOdd"), "mutual-cycle member must do real work");
}

#[test]
fn real_work_propagates_transitively_up_callers() {
    let m = module(vec![
        fib_fn(),
        func("wrapper", vec![param("n", AstType::Int)], AstType::Int, vec![ret(call("fib", vec![ident("n")]))]),
        entrypoint_hi(),
    ]);
    let work = real_work_set(&m);
    assert!(work.contains("fib"));
    assert!(work.contains("wrapper"), "caller of real-work fn must do real work");
}

#[test]
fn imported_real_work_seeds_local_caller() {
    let m = module(vec![func("entrypoint", vec![], AstType::Nothing, vec![call_stmt("heavyImported", vec![])])]);
    let imported = NameSet::from_strs(&["heavyImported"]);
    let imported_real_work = NameSet::from_strs(&["heavyImported"]);
    let work = does_real_work_set(&m, &imported, &imported_real_work);
    assert!(work.contains("entrypoint"), "caller of imported real-work fn must do real work");
}

#[test]
fn imported_trivial_callee_does_not_seed_real_work() {
    let m = module(vec![func("entrypoint", vec![], AstType::Nothing, vec![call_stmt("trivialImported", vec![])])]);
    let imported = NameSet::from_strs(&["trivialImported"]);
    let work = does_real_work_set(&m, &imported, &no_names());
    assert!(!work.contains("entrypoint"), "caller of imported trivial fn must NOT do real work");
}

fn sorted_names(s: &NameSet) -> Vec<String> {
    let mut v: Vec<String> = (0..s.len()).map(|i| s.name_at(i).clone()).collect();
    v.sort();
    v
}

#[test]
fn does_real_work_is_deterministic_across_runs() {
    let build = || {
        module(vec![
            fib_fn(),
            sum_to_fn("sumTo"),
            func("leaf", vec![param("x", AstType::Int)], AstType::Int, vec![ret(ident("x"))]),
            entrypoint_hi(),
        ])
    };
    let a = real_work_set(&build());
    let b = real_work_set(&build());
    assert_eq!(sorted_names(&a), sorted_names(&b), "does_real_work_set must be deterministic across runs");
    assert!(a.contains("fib") && a.contains("sumTo"));
    assert!(!a.contains("leaf") && !a.contains("entrypoint"));
}

#[test]
fn suspends_set_for_test_matches_analyze() {
    let m = module(vec![
        func("inner", vec![], AstType::Nothing, vec![wait_call("sleep", vec![int_lit(1)])]),
        func("outer", vec![], AstType::Nothing, vec![call_stmt("inner", vec![])]),
        entrypoint_empty(),
    ]);
    let s = suspends_set_for_test(&m, &no_names());
    assert_eq!(sorted_names(&s), vec!["inner".to_string(), "outer".to_string()]);
}

#[test]
fn direct_callee_adjacency_skips_background_and_non_local_calls() {
    let m = module(vec![
        func("a", vec![], AstType::Nothing, vec![call_stmt("b", vec![]), call_stmt("print", vec![])]),
        func("b", vec![], AstType::Nothing, vec![Stmt::Expr(Expr::Background(Box::new(call("a", vec![])), sp()))]),
    ]);
    let adj = direct_callee_adjacency(&m, &no_names());
    let a_row = adj.iter().find(|(n, _)| n == "a").expect("a has a row");
    assert_eq!(sorted_names(&a_row.1), vec!["b".to_string()]);
    let b_row = adj.iter().find(|(n, _)| n == "b").expect("b has a row");
    assert!(b_row.1.is_empty(), "a background call is no direct edge");
}

#[test]
fn mutual_suspension_cycle_is_found_once_and_sorted() {
    let m = module(vec![
        func("zeta", vec![], AstType::Nothing, vec![wait_call("sleep", vec![int_lit(1)]), call_stmt("alpha", vec![])]),
        func("alpha", vec![], AstType::Nothing, vec![call_stmt("zeta", vec![])]),
        func("solo", vec![], AstType::Nothing, vec![wait_call("sleep", vec![int_lit(1)]), call_stmt("solo", vec![])]),
    ]);
    let suspends = suspends_set(&m);
    let cycles = find_mutual_suspension_cycles(&m, &no_names(), &suspends);
    assert_eq!(cycles.len(), 1, "self-recursion alone is no mutual cycle");
    assert_eq!(cycles[0].members, vec!["alpha".to_string(), "zeta".to_string()]);
}

#[test]
fn no_cycles_among_non_suspending_functions() {
    let m = module(vec![
        func("a", vec![], AstType::Nothing, vec![call_stmt("b", vec![])]),
        func("b", vec![], AstType::Nothing, vec![call_stmt("a", vec![])]),
    ]);
    let suspends = suspends_set(&m);
    let cycles = find_mutual_suspension_cycles(&m, &no_names(), &suspends);
    assert!(cycles.is_empty());
}
