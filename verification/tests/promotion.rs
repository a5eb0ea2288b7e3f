use ynz_typeck::diagnostics::SourceSpan;
use ynz_typeck::may_block::{does_real_work_set, suspends_set_for_test};
use ynz_typeck::names::NameSet;
use ynz_typeck::promotion::compute_cpu_promotions;
use ynz_typeck::shapes::ShapeTable;
use ynz_typeck::signature_collection::collect_signatures;
use ynz_typeck::signatures::{FunctionSig, SignatureTable};
use ynz_typeck::syntax::{AstType, Block, CallExpr, Expr, FunctionDecl, Item, Module, Param, Stmt};
use ynz_typeck::types::Type;

fn sp() -> SourceSpan {
    SourceSpan { file: "test.ynz".to_string(), start: 0, end: 0 }
}

fn ident(name: &str) -> Expr {
    Expr::Ident(name.to_string(), sp())
}

fn int_lit(v: i64) -> Expr {
    Expr::IntLit(v, sp())
}

fn call(callee: &str, args: Vec<Expr>) -> Expr {
    Expr::Call(CallExpr { callee: Box::new(ident(callee)), args, span: sp() })
}

fn bin(l: Expr, op: &str, r: Expr) -> Expr {
    Expr::BinOp { lhs: Box::new(l), op: op.to_string(), rhs: Box::new(r), span: sp() }
}

fn let_(name: &str, value: Expr) -> Stmt {
    Stmt::Let { name: name.to_string(), name_span: sp(), ty: None, value, is_const: false, span: sp() }
}

fn assign(name: &str, value: Expr) -> Stmt {
    Stmt::Assign { target: name.to_string(), value, span: sp() }
}

fn ret(e: Expr) -> Stmt {
    Stmt::Return { value: Some(e), span: sp() }
}

fn block(stmts: Vec<Stmt>) -> Block {
    Block { stmts, span: sp() }
}

fn func(name: &str, params: Vec<Param>, ret_ty: AstType, stmts: Vec<Stmt>) -> Item {
    Item::Function(FunctionDecl {
        name: name.to_string(),
        name_span: sp(),
        generics: Vec::new(),
        params,
        return_type: ret_ty,
        body: block(stmts),
        is_exported: false,
        errors_capable: false,
        span: sp(),
    })
}

fn int_param(name: &str) -> Param {
    Param { name: name.to_string(), ty: AstType::Int, ownership: None }
}

/// `function fib(n: int) -> int { if (n < 2) { return n } return fib(n - 1) + fib(n - 2) }`
fn fib() -> Item {
    func(
        "fib",
        vec![int_param("n")],
        AstType::Int,
        vec![
            Stmt::If { cond: bin(ident("n"), "<", int_lit(2)), body: block(vec![ret(ident("n"))]), span: sp() },
            ret(bin(call("fib", vec![bin(ident("n"), "-", int_lit(1))]), "+", call("fib", vec![bin(ident("n"), "-", int_lit(2))]))),
        ],
    )
}

fn print(name: &str) -> Stmt {
    Stmt::Expr(call("print", vec![ident(name)]))
}

fn entrypoint(stmts: Vec<Stmt>) -> Item {
    func("entrypoint", vec![], AstType::Nothing, stmts)
}

struct Inputs {
    module: Module,
    sig_table: SignatureTable,
    base_suspends: NameSet,
}

fn build_inputs(items: Vec<Item>) -> Inputs {
    let module = Module { items, span: sp() };
    let mut diags = Vec::new();
    let mut sig_table = collect_signatures(&module, &mut diags, &ShapeTable::empty());
    let none = NameSet::new();
    let base_suspends = suspends_set_for_test(&module, &none);
    let real_work = does_real_work_set(&module, &none, &none);
    for (name, sig) in sig_table.fns.iter_mut() {
        sig.suspends = base_suspends.contains(name);
        sig.does_real_work = real_work.contains(name);
    }
    Inputs { module, sig_table, base_suspends }
}

fn promote(inputs: &Inputs, kernel: bool, no_auto: bool) -> NameSet {
    let imported: Vec<(String, FunctionSig)> = Vec::new();
    let none = NameSet::new();
    let guard = |_: &FunctionDecl, _: &Type, _: &NameSet| false;
    compute_cpu_promotions(&inputs.module, &inputs.sig_table, &imported, &inputs.base_suspends, &none, &none, &guard, kernel, no_auto)
}

fn names(s: &NameSet) -> Vec<String> {
    (0..s.len()).map(|i| s.name_at(i).clone()).collect()
}

fn two_fib_calls() -> Vec<Stmt> {
    vec![let_("a", call("fib", vec![int_lit(20)])), let_("b", call("fib", vec![int_lit(21)])), print("a"), print("b")]
}

#[test]
fn clean_two_member_cpu_group_promotes() {
    let inputs = build_inputs(vec![fib(), entrypoint(two_fib_calls())]);
    let promoted = promote(&inputs, false, false);
    assert!(promoted.contains("entrypoint"), "clean 2-member CPU group must promote the host");
    assert!(!promoted.contains("fib"), "the callee fib must not be promoted");
}

#[test]
fn same_callee_cpu_pair_promotes() {
    let stmts = vec![let_("a", call("fib", vec![int_lit(20)])), let_("b", call("fib", vec![int_lit(20)])), print("a"), print("b")];
    let inputs = build_inputs(vec![fib(), entrypoint(stmts)]);
    assert!(promote(&inputs, false, false).contains("entrypoint"));
}

#[test]
fn trivial_leaf_calls_do_not_promote() {
    let add = func("add", vec![int_param("n")], AstType::Int, vec![ret(bin(ident("n"), "+", int_lit(1)))]);
    let stmts = vec![let_("a", call("add", vec![int_lit(20)])), let_("b", call("add", vec![int_lit(21)])), print("a"), print("b")];
    let inputs = build_inputs(vec![add, entrypoint(stmts)]);
    assert!(promote(&inputs, false, false).is_empty(), "trivial-leaf calls must NOT promote");
}

#[test]
fn data_dependent_calls_do_not_promote() {
    let stmts = vec![let_("a", call("fib", vec![int_lit(20)])), let_("b", call("fib", vec![ident("a")])), print("a"), print("b")];
    let inputs = build_inputs(vec![fib(), entrypoint(stmts)]);
    assert!(promote(&inputs, false, false).is_empty(), "data-dependent calls must NOT form a CPU group");
}

#[test]
fn mutual_cycle_member_never_promotes() {
    let mut ping = two_fib_calls();
    ping.push(Stmt::Expr(call("pongHost", vec![])));
    let items = vec![
        fib(),
        func("pingHost", vec![], AstType::Nothing, ping),
        func("pongHost", vec![], AstType::Nothing, vec![Stmt::Expr(call("pingHost", vec![]))]),
        entrypoint(vec![Stmt::Expr(call("pingHost", vec![]))]),
    ];
    let inputs = build_inputs(items);
    let promoted = promote(&inputs, false, false);
    assert!(!promoted.contains("pingHost"), "a mutual-cycle member must never promote");
    assert!(!promoted.contains("pongHost"));
}

#[test]
fn no_auto_parallel_flag_declines_all() {
    let inputs = build_inputs(vec![fib(), entrypoint(two_fib_calls())]);
    assert!(promote(&inputs, false, true).is_empty(), "--no-auto-parallel must decline all promotions");
}

#[test]
fn kernel_mode_declines_all() {
    let inputs = build_inputs(vec![fib(), entrypoint(two_fib_calls())]);
    assert!(promote(&inputs, true, false).is_empty(), "kernel mode must decline all promotions");
}

#[test]
fn promotion_is_deterministic_across_runs() {
    let sum_to = func(
        "sumTo",
        vec![int_param("n")],
        AstType::Int,
        vec![
            let_("t", int_lit(0)),
            let_("i", int_lit(0)),
            Stmt::While {
                cond: bin(ident("i"), "<", ident("n")),
                body: block(vec![assign("t", bin(ident("t"), "+", ident("i"))), assign("i", bin(ident("i"), "+", int_lit(1)))]),
                span: sp(),
            },
            ret(ident("t")),
        ],
    );
    let stmts = vec![let_("a", call("fib", vec![int_lit(20)])), let_("b", call("sumTo", vec![int_lit(21)])), print("a"), print("b")];
    let inputs = build_inputs(vec![fib(), sum_to, entrypoint(stmts)]);
    let a = promote(&inputs, false, false);
    let b = promote(&inputs, false, false);
    assert_eq!(names(&a), names(&b), "promotion set must be deterministic");
    assert!(a.contains("entrypoint"));
}

#[test]
fn base_suspends_host_with_clean_cpu_group_promotes() {
    let stmts = vec![
        let_("a", call("fib", vec![int_lit(20)])),
        let_("b", call("fib", vec![int_lit(21)])),
        Stmt::Expr(Expr::Wait(Box::new(call("sleep", vec![int_lit(0)])), sp())),
        print("a"),
        print("b"),
    ];
    let inputs = build_inputs(vec![fib(), entrypoint(stmts)]);
    assert!(inputs.base_suspends.contains("entrypoint"));
    assert!(promote(&inputs, false, false).contains("entrypoint"));
}
