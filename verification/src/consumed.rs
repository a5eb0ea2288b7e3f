//! Consumed positions: a parameter position is consumed when it is declared `give`, or
//! when the body passes the parameter whole to a consumed position of a callee, or sends
//! it whole on a conduit `send` when its declared type is an owned-heap element kind.
//! The facts form a two-point lattice per position and are closed by a least fixpoint.
use vstd::prelude::*;

use crate::effective_ownership::{arg_is_binding, spec_arg_is_binding};
use crate::names::{find_row, first_at, lemma_first_exists, lemma_lookup_at, lookup, NameSet};
use crate::ownership_fixpoint::{local_decls, positions_of};
use crate::syntax::{Expr, FieldInit, FunctionDecl, Item, MapEntryLit, MatchArm, Module, OwnershipModifier, Stmt, StringPart};
use crate::text::str_eq;

verus! {

/// What the consumed walk reads: the current per-function consumed rows, the local and
/// imported function names, and whether the walked parameter's declared type is an
/// owned-heap conduit element kind.
pub struct ConsumeEnv {
    pub rows: Seq<(String, Vec<bool>)>,
    pub local: Set<Seq<char>>,
    pub imported: Set<Seq<char>>,
    pub transfers: bool,
}

/// The executable form of [`ConsumeEnv`].
pub struct ConsumeContext<'a> {
    pub consumed: &'a Vec<(String, Vec<bool>)>,
    pub local_fn_names: &'a NameSet,
    pub imported_fn_names: &'a NameSet,
    pub transfers: bool,
}

impl<'a> View for ConsumeContext<'a> {
    type V = ConsumeEnv;

    open spec fn view(&self) -> ConsumeEnv {
        ConsumeEnv {
            rows: self.consumed@,
            local: self.local_fn_names@,
            imported: self.imported_fn_names@,
            transfers: self.transfers,
        }
    }
}

/// Position `i` of `callee` is consumed in `rows` (`false` for an unknown function or
/// position).
pub open spec fn consumed_at(rows: Seq<(String, Vec<bool>)>, callee: Seq<char>, i: int) -> bool {
    match lookup(rows, callee) {
        Some(row) => 0 <= i < row@.len() && row@[i],
        None => false,
    }
}

/// Some argument of `s` (the first at position `offset`) is the binding `p` itself, at a
/// consumed position of `callee`.
pub open spec fn cns_bound(p: Seq<char>, s: Seq<Expr>, callee: Seq<char>, offset: int, env: ConsumeEnv) -> bool
    decreases s.len(),
{
    if s.len() == 0 {
        false
    } else {
        cns_bound(p, s.subrange(0, s.len() - 1), callee, offset, env) || (spec_arg_is_binding(s[s.len() - 1], p)
            && consumed_at(env.rows, callee, offset + s.len() - 1))
    }
}

/// The expression passes `p` whole to a consumed position, or sends it whole.
pub open spec fn cns_expr(p: Seq<char>, e: Expr, env: ConsumeEnv) -> bool
    decreases e,
{
    match e {
        Expr::Call(c) => {
            let head = match *c.callee {
                Expr::Ident(n, _) => cns_bound(p, c.args@, n@, 0, env),
                other => cns_expr(p, other, env),
            };
            head || cns_exprs(p, c.args@, env)
        },
        Expr::MethodCall { receiver, method, args, .. } => {
            let user_fn = env.local.contains(method@) || env.imported.contains(method@);
            let here = if user_fn {
                (spec_arg_is_binding(*receiver, p) && consumed_at(env.rows, method@, 0)) || cns_bound(
                    p,
                    args@,
                    method@,
                    1,
                    env,
                )
            } else {
                method@ == "send"@ && env.transfers && args@.len() == 1 && spec_arg_is_binding(args@[0], p)
            };
            here || cns_expr(p, *receiver, env) || cns_exprs(p, args@, env)
        },
        Expr::PostfixOp { receiver, .. } => cns_expr(p, *receiver, env),
        Expr::BinOp { lhs, rhs, .. } => cns_expr(p, *lhs, env) || cns_expr(p, *rhs, env),
        Expr::UnaryOp { operand, .. } => cns_expr(p, *operand, env),
        Expr::FieldAccess { receiver, .. } => cns_expr(p, *receiver, env),
        Expr::IndexAccess { receiver, index, .. } => cns_expr(p, *receiver, env) || cns_expr(p, *index, env),
        Expr::Wait(inner, _) => cns_expr(p, *inner, env),
        Expr::Background(inner, _) => cns_expr(p, *inner, env),
        Expr::Is { expr, .. } => cns_expr(p, *expr, env),
        Expr::StructLit { fields, .. } => cns_fields(p, fields@, env),
        Expr::ArrayLit { elements, .. } => cns_exprs(p, elements@, env),
        Expr::MapLit { entries, .. } => cns_entries(p, entries@, env),
        Expr::InterpolatedString(parts, _) => cns_parts(p, parts@, env),
        _ => false,
    }
}

pub open spec fn cns_exprs(p: Seq<char>, s: Seq<Expr>, env: ConsumeEnv) -> bool
    decreases s,
{
    if s.len() == 0 {
        false
    } else {
        cns_exprs(p, s.subrange(0, s.len() - 1), env) || cns_expr(p, s[s.len() - 1], env)
    }
}

pub open spec fn cns_fields(p: Seq<char>, s: Seq<FieldInit>, env: ConsumeEnv) -> bool
    decreases s,
{
    if s.len() == 0 {
        false
    } else {
        cns_fields(p, s.subrange(0, s.len() - 1), env) || cns_expr(p, s[s.len() - 1].value, env)
    }
}

pub open spec fn cns_entries(p: Seq<char>, s: Seq<MapEntryLit>, env: ConsumeEnv) -> bool
    decreases s,
{
    if s.len() == 0 {
        false
    } else {
        cns_entries(p, s.subrange(0, s.len() - 1), env) || cns_expr(p, s[s.len() - 1].key, env) || cns_expr(
            p,
            s[s.len() - 1].value,
            env,
        )
    }
}

pub open spec fn cns_parts(p: Seq<char>, s: Seq<StringPart>, env: ConsumeEnv) -> bool
    decreases s,
{
    if s.len() == 0 {
        false
    } else {
        cns_parts(p, s.subrange(0, s.len() - 1), env) || match s[s.len() - 1] {
            StringPart::Expr(e, _) => cns_expr(p, e, env),
            StringPart::Text(_) => false,
        }
    }
}

/// The statement passes `p` whole to a consumed position, or sends it whole.
pub open spec fn cns_stmt(p: Seq<char>, st: Stmt, env: ConsumeEnv) -> bool
    decreases st,
{
    match st {
        Stmt::Expr(e) => cns_expr(p, e, env),
        Stmt::Let { value, .. } => cns_expr(p, value, env),
        Stmt::Assign { value, .. } => cns_expr(p, value, env),
        Stmt::Return { value, .. } => match value {
            Some(v) => cns_expr(p, v, env),
            None => false,
        },
        Stmt::FieldAssign { target, value, .. } => cns_expr(p, target, env) || cns_expr(p, value, env),
        Stmt::IndexAssign { receiver, index, value, .. } => cns_expr(p, receiver, env) || cns_expr(p, index, env)
            || cns_expr(p, value, env),
        Stmt::If { cond, body, .. } => cns_expr(p, cond, env) || cns_stmts(p, body.stmts@, env),
        Stmt::While { cond, body, .. } => cns_expr(p, cond, env) || cns_stmts(p, body.stmts@, env),
        Stmt::For { iter, body, .. } => cns_expr(p, iter, env) || cns_stmts(p, body.stmts@, env),
        Stmt::Match { scrutinee, arms, else_arm, .. } => cns_expr(p, scrutinee, env) || cns_arms(p, arms@, env)
            || match else_arm {
            Some(b) => cns_stmts(p, b.stmts@, env),
            None => false,
        },
    }
}

pub open spec fn cns_stmts(p: Seq<char>, s: Seq<Stmt>, env: ConsumeEnv) -> bool
    decreases s,
{
    if s.len() == 0 {
        false
    } else {
        cns_stmts(p, s.subrange(0, s.len() - 1), env) || cns_stmt(p, s[s.len() - 1], env)
    }
}

pub open spec fn cns_arms(p: Seq<char>, s: Seq<MatchArm>, env: ConsumeEnv) -> bool
    decreases s,
{
    if s.len() == 0 {
        false
    } else {
        cns_arms(p, s.subrange(0, s.len() - 1), env) || cns_stmts(p, s[s.len() - 1].body.stmts@, env)
    }
}

fn is_consumed_at(rows: &Vec<(String, Vec<bool>)>, callee: &str, i: usize) -> (b: bool)
    ensures
        b == consumed_at(rows@, callee@, i as int),
{
    match find_row(rows, callee) {
        Some(k) => i < rows[k].1.len() && rows[k].1[i],
        None => false,
    }
}

fn bound_args_consumed(p: &str, v: &Vec<Expr>, callee: &str, offset: usize, ctx: &ConsumeContext) -> (r: bool)
    requires
        offset <= 1,
    ensures
        r == cns_bound(p@, v@, callee@, offset as int, ctx@),
{
    let mut acc = false;
    let mut i: usize = 0;
    proof {
        assert(v@.subrange(0, 0) =~= Seq::<Expr>::empty());
    }
    while i < v.len()
        invariant
            i <= v.len(),
            offset <= 1,
            acc == cns_bound(p@, v@.subrange(0, i as int), callee@, offset as int, ctx@),
        decreases v.len() - i,
    {
        proof {
            let pre = v@.subrange(0, i + 1);
            assert(pre.subrange(0, i as int) =~= v@.subrange(0, i as int));
            assert(pre[i as int] == v@[i as int]);
        }
        let here = arg_is_binding(&v[i], p) && is_consumed_at(ctx.consumed, callee, offset + i);
        acc = acc || here;
        i = i + 1;
    }
    proof {
        assert(v@.subrange(0, v.len() as int) =~= v@);
    }
    acc
}

/// Does the expression pass `p` whole to a consumed position, or send it whole?
pub fn param_consumed_in_expr(p: &str, e: &Expr, ctx: &ConsumeContext) -> (r: bool)
    ensures
        r == cns_expr(p@, *e, ctx@),
    decreases e,
{
    match e {
        Expr::Call(c) => {
            let head = match &*c.callee {
                Expr::Ident(n, _) => bound_args_consumed(p, &c.args, n.as_str(), 0, ctx),
                other => param_consumed_in_expr(p, other, ctx),
            };
            head || consumed_in_exprs(p, &c.args, ctx)
        },
        Expr::MethodCall { receiver, method, args, .. } => {
            let m = method.as_str();
            let user_fn = ctx.local_fn_names.contains(m) || ctx.imported_fn_names.contains(m);
            let here = if user_fn {
                (arg_is_binding(receiver, p) && is_consumed_at(ctx.consumed, m, 0)) || bound_args_consumed(
                    p,
                    args,
                    m,
                    1,
                    ctx,
                )
            } else {
                str_eq(m, "send") && ctx.transfers && args.len() == 1 && arg_is_binding(&args[0], p)
            };
            here || param_consumed_in_expr(p, receiver, ctx) || consumed_in_exprs(p, args, ctx)
        },
        Expr::PostfixOp { receiver, .. } => param_consumed_in_expr(p, receiver, ctx),
        Expr::BinOp { lhs, rhs, .. } => param_consumed_in_expr(p, lhs, ctx) || param_consumed_in_expr(p, rhs, ctx),
        Expr::UnaryOp { operand, .. } => param_consumed_in_expr(p, operand, ctx),
        Expr::FieldAccess { receiver, .. } => param_consumed_in_expr(p, receiver, ctx),
        Expr::IndexAccess { receiver, index, .. } => param_consumed_in_expr(p, receiver, ctx)
            || param_consumed_in_expr(p, index, ctx),
        Expr::Wait(inner, _) => param_consumed_in_expr(p, inner, ctx),
        Expr::Background(inner, _) => param_consumed_in_expr(p, inner, ctx),
        Expr::Is { expr, .. } => param_consumed_in_expr(p, expr, ctx),
        Expr::StructLit { fields, .. } => consumed_in_fields(p, fields, ctx),
        Expr::ArrayLit { elements, .. } => consumed_in_exprs(p, elements, ctx),
        Expr::MapLit { entries, .. } => consumed_in_entries(p, entries, ctx),
        Expr::InterpolatedString(parts, _) => consumed_in_parts(p, parts, ctx),
        _ => false,
    }
}

fn consumed_in_exprs(p: &str, v: &Vec<Expr>, ctx: &ConsumeContext) -> (r: bool)
    ensures
        r == cns_exprs(p@, v@, ctx@),
    decreases v,
{
    let mut acc = false;
    let mut i: usize = 0;
    proof {
        assert(v@.subrange(0, 0) =~= Seq::<Expr>::empty());
    }
    while i < v.len()
        invariant
            i <= v.len(),
            acc == cns_exprs(p@, v@.subrange(0, i as int), ctx@),
        decreases v.len() - i,
    {
        proof {
            let pre = v@.subrange(0, i + 1);
            assert(pre.subrange(0, i as int) =~= v@.subrange(0, i as int));
            assert(pre[i as int] == v@[i as int]);
        }
        let here = param_consumed_in_expr(p, &v[i], ctx);
        acc = acc || here;
        i = i + 1;
    }
    proof {
        assert(v@.subrange(0, v.len() as int) =~= v@);
    }
    acc
}

fn consumed_in_fields(p: &str, v: &Vec<FieldInit>, ctx: &ConsumeContext) -> (r: bool)
    ensures
        r == cns_fields(p@, v@, ctx@),
    decreases v,
{
    let mut acc = false;
    let mut i: usize = 0;
    proof {
        assert(v@.subrange(0, 0) =~= Seq::<FieldInit>::empty());
    }
    while i < v.len()
        invariant
            i <= v.len(),
            acc == cns_fields(p@, v@.subrange(0, i as int), ctx@),
        decreases v.len() - i,
    {
        proof {
            let pre = v@.subrange(0, i + 1);
            assert(pre.subrange(0, i as int) =~= v@.subrange(0, i as int));
            assert(pre[i as int] == v@[i as int]);
        }
        let here = param_consumed_in_expr(p, &v[i].value, ctx);
        acc = acc || here;
        i = i + 1;
    }
    proof {
        assert(v@.subrange(0, v.len() as int) =~= v@);
    }
    acc
}

fn consumed_in_entries(p: &str, v: &Vec<MapEntryLit>, ctx: &ConsumeContext) -> (r: bool)
    ensures
        r == cns_entries(p@, v@, ctx@),
    decreases v,
{
    let mut acc = false;
    let mut i: usize = 0;
    proof {
        assert(v@.subrange(0, 0) =~= Seq::<MapEntryLit>::empty());
    }
    while i < v.len()
        invariant
            i <= v.len(),
            acc == cns_entries(p@, v@.subrange(0, i as int), ctx@),
        decreases v.len() - i,
    {
        proof {
            let pre = v@.subrange(0, i + 1);
            assert(pre.subrange(0, i as int) =~= v@.subrange(0, i as int));
            assert(pre[i as int] == v@[i as int]);
        }
        let k = param_consumed_in_expr(p, &v[i].key, ctx);
        let w = param_consumed_in_expr(p, &v[i].value, ctx);
        acc = acc || k || w;
        i = i + 1;
    }
    proof {
        assert(v@.subrange(0, v.len() as int) =~= v@);
    }
    acc
}

fn consumed_in_parts(p: &str, v: &Vec<StringPart>, ctx: &ConsumeContext) -> (r: bool)
    ensures
        r == cns_parts(p@, v@, ctx@),
    decreases v,
{
    let mut acc = false;
    let mut i: usize = 0;
    proof {
        assert(v@.subrange(0, 0) =~= Seq::<StringPart>::empty());
    }
    while i < v.len()
        invariant
            i <= v.len(),
            acc == cns_parts(p@, v@.subrange(0, i as int), ctx@),
        decreases v.len() - i,
    {
        proof {
            let pre = v@.subrange(0, i + 1);
            assert(pre.subrange(0, i as int) =~= v@.subrange(0, i as int));
            assert(pre[i as int] == v@[i as int]);
        }
        let here = match &v[i] {
            StringPart::Expr(pe, _) => param_consumed_in_expr(p, pe, ctx),
            StringPart::Text(_) => false,
        };
        acc = acc || here;
        i = i + 1;
    }
    proof {
        assert(v@.subrange(0, v.len() as int) =~= v@);
    }
    acc
}

/// Does the statement pass `p` whole to a consumed position, or send it whole?
pub fn param_consumed_in_stmt(p: &str, st: &Stmt, ctx: &ConsumeContext) -> (r: bool)
    ensures
        r == cns_stmt(p@, *st, ctx@),
    decreases st,
{
    match st {
        Stmt::Expr(e) => param_consumed_in_expr(p, e, ctx),
        Stmt::Let { value, .. } => param_consumed_in_expr(p, value, ctx),
        Stmt::Assign { value, .. } => param_consumed_in_expr(p, value, ctx),
        Stmt::Return { value, .. } => match value {
            Some(v) => param_consumed_in_expr(p, v, ctx),
            None => false,
        },
        Stmt::FieldAssign { target, value, .. } => param_consumed_in_expr(p, target, ctx) || param_consumed_in_expr(
            p,
            value,
            ctx,
        ),
        Stmt::IndexAssign { receiver, index, value, .. } => param_consumed_in_expr(p, receiver, ctx)
            || param_consumed_in_expr(p, index, ctx) || param_consumed_in_expr(p, value, ctx),
        Stmt::If { cond, body, .. } => param_consumed_in_expr(p, cond, ctx) || param_consumed_in_stmts(p, &body.stmts, ctx),
        Stmt::While { cond, body, .. } => param_consumed_in_expr(p, cond, ctx) || param_consumed_in_stmts(
            p,
            &body.stmts,
            ctx,
        ),
        Stmt::For { iter, body, .. } => param_consumed_in_expr(p, iter, ctx) || param_consumed_in_stmts(p, &body.stmts, ctx),
        Stmt::Match { scrutinee, arms, else_arm, .. } => {
            let s = param_consumed_in_expr(p, scrutinee, ctx);
            let a = consumed_in_arms(p, arms, ctx);
            let e = match else_arm {
                Some(b) => param_consumed_in_stmts(p, &b.stmts, ctx),
                None => false,
            };
            s || a || e
        },
    }
}

/// Does the statement list pass `p` whole to a consumed position, or send it whole?
pub fn param_consumed_in_stmts(p: &str, v: &Vec<Stmt>, ctx: &ConsumeContext) -> (r: bool)
    ensures
        r == cns_stmts(p@, v@, ctx@),
    decreases v,
{
    let mut acc = false;
    let mut i: usize = 0;
    proof {
        assert(v@.subrange(0, 0) =~= Seq::<Stmt>::empty());
    }
    while i < v.len()
        invariant
            i <= v.len(),
            acc == cns_stmts(p@, v@.subrange(0, i as int), ctx@),
        decreases v.len() - i,
    {
        proof {
            let pre = v@.subrange(0, i + 1);
            assert(pre.subrange(0, i as int) =~= v@.subrange(0, i as int));
            assert(pre[i as int] == v@[i as int]);
        }
        let here = param_consumed_in_stmt(p, &v[i], ctx);
        acc = acc || here;
        i = i + 1;
    }
    proof {
        assert(v@.subrange(0, v.len() as int) =~= v@);
    }
    acc
}

fn consumed_in_arms(p: &str, v: &Vec<MatchArm>, ctx: &ConsumeContext) -> (r: bool)
    ensures
        r == cns_arms(p@, v@, ctx@),
    decreases v,
{
    let mut acc = false;
    let mut i: usize = 0;
    proof {
        assert(v@.subrange(0, 0) =~= Seq::<MatchArm>::empty());
    }
    while i < v.len()
        invariant
            i <= v.len(),
            acc == cns_arms(p@, v@.subrange(0, i as int), ctx@),
        decreases v.len() - i,
    {
        proof {
            let pre = v@.subrange(0, i + 1);
            assert(pre.subrange(0, i as int) =~= v@.subrange(0, i as int));
            assert(pre[i as int] == v@[i as int]);
        }
        let here = param_consumed_in_stmts(p, &v[i].body.stmts, ctx);
        acc = acc || here;
        i = i + 1;
    }
    proof {
        assert(v@.subrange(0, v.len() as int) =~= v@);
    }
    acc
}

/// `a` is below `b` row by row: the same names in the same order, rows of the same
/// length, and every consumed position of `a` consumed in `b`.
pub open spec fn consumed_rows_le(a: Seq<(String, Vec<bool>)>, b: Seq<(String, Vec<bool>)>) -> bool {
    a.len() == b.len() && forall|k: int|
        0 <= k < a.len() ==> (#[trigger] a[k]).0@ == b[k].0@ && a[k].1@.len() == b[k].1@.len() && forall|j: int|
            0 <= j < a[k].1@.len() && #[trigger] a[k].1@[j] ==> b[k].1@[j]
}

pub open spec fn consume_env_le(e1: ConsumeEnv, e2: ConsumeEnv) -> bool {
    consumed_rows_le(e1.rows, e2.rows) && e1.local == e2.local && e1.imported == e2.imported && e1.transfers
        == e2.transfers
}

proof fn lemma_consumed_at_mono(a: Seq<(String, Vec<bool>)>, b: Seq<(String, Vec<bool>)>, m: Seq<char>, i: int)
    requires
        consumed_rows_le(a, b),
    ensures
        consumed_at(a, m, i) ==> consumed_at(b, m, i),
{
    if exists|x: int| 0 <= x < a.len() && #[trigger] a[x].0@ == m {
        let x = choose|x: int| 0 <= x < a.len() && #[trigger] a[x].0@ == m;
        lemma_first_exists(a, m, x);
        let k = choose|k: int| first_at(a, m, k);
        assert(a[k].0@ == b[k].0@);
        assert forall|j: int| 0 <= j < k implies #[trigger] b[j].0@ != m by {
            assert(a[j].0@ == b[j].0@);
            assert(a[j].0@ != m);
        }
        assert(first_at(b, m, k));
        lemma_lookup_at(a, m, k);
        lemma_lookup_at(b, m, k);
        if consumed_at(a, m, i) {
            assert(a[k].1@[i]);
        }
    }
}

proof fn lemma_cns_bound_mono(p: Seq<char>, s: Seq<Expr>, callee: Seq<char>, offset: int, e1: ConsumeEnv, e2: ConsumeEnv)
    requires
        consume_env_le(e1, e2),
    ensures
        cns_bound(p, s, callee, offset, e1) ==> cns_bound(p, s, callee, offset, e2),
    decreases s.len(),
{
    if s.len() > 0 {
        lemma_consumed_at_mono(e1.rows, e2.rows, callee, offset + s.len() - 1);
        lemma_cns_bound_mono(p, s.subrange(0, s.len() - 1), callee, offset, e1, e2);
    }
}

/// The consumed walk of an expression is monotone in the consumed rows.
pub proof fn lemma_cns_expr_mono(p: Seq<char>, e: Expr, e1: ConsumeEnv, e2: ConsumeEnv)
    requires
        consume_env_le(e1, e2),
    ensures
        cns_expr(p, e, e1) ==> cns_expr(p, e, e2),
    decreases e,
{
    match e {
        Expr::Call(c) => {
            match *c.callee {
                Expr::Ident(n, _) => lemma_cns_bound_mono(p, c.args@, n@, 0, e1, e2),
                other => lemma_cns_expr_mono(p, other, e1, e2),
            }
            lemma_cns_exprs_mono(p, c.args@, e1, e2);
        },
        Expr::MethodCall { receiver, method, args, .. } => {
            lemma_consumed_at_mono(e1.rows, e2.rows, method@, 0);
            lemma_cns_bound_mono(p, args@, method@, 1, e1, e2);
            lemma_cns_expr_mono(p, *receiver, e1, e2);
            lemma_cns_exprs_mono(p, args@, e1, e2);
        },
        Expr::PostfixOp { receiver, .. } => lemma_cns_expr_mono(p, *receiver, e1, e2),
        Expr::BinOp { lhs, rhs, .. } => {
            lemma_cns_expr_mono(p, *lhs, e1, e2);
            lemma_cns_expr_mono(p, *rhs, e1, e2);
        },
        Expr::UnaryOp { operand, .. } => lemma_cns_expr_mono(p, *operand, e1, e2),
        Expr::FieldAccess { receiver, .. } => lemma_cns_expr_mono(p, *receiver, e1, e2),
        Expr::IndexAccess { receiver, index, .. } => {
            lemma_cns_expr_mono(p, *receiver, e1, e2);
            lemma_cns_expr_mono(p, *index, e1, e2);
        },
        Expr::Wait(inner, _) => lemma_cns_expr_mono(p, *inner, e1, e2),
        Expr::Background(inner, _) => lemma_cns_expr_mono(p, *inner, e1, e2),
        Expr::Is { expr, .. } => lemma_cns_expr_mono(p, *expr, e1, e2),
        Expr::StructLit { fields, .. } => lemma_cns_fields_mono(p, fields@, e1, e2),
        Expr::ArrayLit { elements, .. } => lemma_cns_exprs_mono(p, elements@, e1, e2),
        Expr::MapLit { entries, .. } => lemma_cns_entries_mono(p, entries@, e1, e2),
        Expr::InterpolatedString(parts, _) => lemma_cns_parts_mono(p, parts@, e1, e2),
        _ => {},
    }
}

proof fn lemma_cns_exprs_mono(p: Seq<char>, s: Seq<Expr>, e1: ConsumeEnv, e2: ConsumeEnv)
    requires
        consume_env_le(e1, e2),
    ensures
        cns_exprs(p, s, e1) ==> cns_exprs(p, s, e2),
    decreases s,
{
    if s.len() > 0 {
        lemma_cns_expr_mono(p, s[s.len() - 1], e1, e2);
        lemma_cns_exprs_mono(p, s.subrange(0, s.len() - 1), e1, e2);
    }
}

proof fn lemma_cns_fields_mono(p: Seq<char>, s: Seq<FieldInit>, e1: ConsumeEnv, e2: ConsumeEnv)
    requires
        consume_env_le(e1, e2),
    ensures
        cns_fields(p, s, e1) ==> cns_fields(p, s, e2),
    decreases s,
{
    if s.len() > 0 {
        lemma_cns_expr_mono(p, s[s.len() - 1].value, e1, e2);
        lemma_cns_fields_mono(p, s.subrange(0, s.len() - 1), e1, e2);
    }
}

proof fn lemma_cns_entries_mono(p: Seq<char>, s: Seq<MapEntryLit>, e1: ConsumeEnv, e2: ConsumeEnv)
    requires
        consume_env_le(e1, e2),
    ensures
        cns_entries(p, s, e1) ==> cns_entries(p, s, e2),
    decreases s,
{
    if s.len() > 0 {
        lemma_cns_expr_mono(p, s[s.len() - 1].key, e1, e2);
        lemma_cns_expr_mono(p, s[s.len() - 1].value, e1, e2);
        lemma_cns_entries_mono(p, s.subrange(0, s.len() - 1), e1, e2);
    }
}

proof fn lemma_cns_parts_mono(p: Seq<char>, s: Seq<StringPart>, e1: ConsumeEnv, e2: ConsumeEnv)
    requires
        consume_env_le(e1, e2),
    ensures
        cns_parts(p, s, e1) ==> cns_parts(p, s, e2),
    decreases s,
{
    if s.len() > 0 {
        match s[s.len() - 1] {
            StringPart::Expr(e, _) => lemma_cns_expr_mono(p, e, e1, e2),
            StringPart::Text(_) => {},
        }
        lemma_cns_parts_mono(p, s.subrange(0, s.len() - 1), e1, e2);
    }
}

proof fn lemma_cns_stmt_mono(p: Seq<char>, st: Stmt, e1: ConsumeEnv, e2: ConsumeEnv)
    requires
        consume_env_le(e1, e2),
    ensures
        cns_stmt(p, st, e1) ==> cns_stmt(p, st, e2),
    decreases st,
{
    match st {
        Stmt::Expr(e) => lemma_cns_expr_mono(p, e, e1, e2),
        Stmt::Let { value, .. } => lemma_cns_expr_mono(p, value, e1, e2),
        Stmt::Assign { value, .. } => lemma_cns_expr_mono(p, value, e1, e2),
        Stmt::Return { value, .. } => {
            if let Some(v) = value {
                lemma_cns_expr_mono(p, v, e1, e2);
            }
        },
        Stmt::FieldAssign { target, value, .. } => {
            lemma_cns_expr_mono(p, target, e1, e2);
            lemma_cns_expr_mono(p, value, e1, e2);
        },
        Stmt::IndexAssign { receiver, index, value, .. } => {
            lemma_cns_expr_mono(p, receiver, e1, e2);
            lemma_cns_expr_mono(p, index, e1, e2);
            lemma_cns_expr_mono(p, value, e1, e2);
        },
        Stmt::If { cond, body, .. } => {
            lemma_cns_expr_mono(p, cond, e1, e2);
            lemma_cns_stmts_mono(p, body.stmts@, e1, e2);
        },
        Stmt::While { cond, body, .. } => {
            lemma_cns_expr_mono(p, cond, e1, e2);
            lemma_cns_stmts_mono(p, body.stmts@, e1, e2);
        },
        Stmt::For { iter, body, .. } => {
            lemma_cns_expr_mono(p, iter, e1, e2);
            lemma_cns_stmts_mono(p, body.stmts@, e1, e2);
        },
        Stmt::Match { scrutinee, arms, else_arm, .. } => {
            lemma_cns_expr_mono(p, scrutinee, e1, e2);
            lemma_cns_arms_mono(p, arms@, e1, e2);
            if let Some(b) = else_arm {
                lemma_cns_stmts_mono(p, b.stmts@, e1, e2);
            }
        },
    }
}

/// The consumed walk of a statement list is monotone in the consumed rows.
pub proof fn lemma_cns_stmts_mono(p: Seq<char>, s: Seq<Stmt>, e1: ConsumeEnv, e2: ConsumeEnv)
    requires
        consume_env_le(e1, e2),
    ensures
        cns_stmts(p, s, e1) ==> cns_stmts(p, s, e2),
    decreases s,
{
    if s.len() > 0 {
        lemma_cns_stmt_mono(p, s[s.len() - 1], e1, e2);
        lemma_cns_stmts_mono(p, s.subrange(0, s.len() - 1), e1, e2);
    }
}

proof fn lemma_cns_arms_mono(p: Seq<char>, s: Seq<MatchArm>, e1: ConsumeEnv, e2: ConsumeEnv)
    requires
        consume_env_le(e1, e2),
    ensures
        cns_arms(p, s, e1) ==> cns_arms(p, s, e2),
    decreases s,
{
    if s.len() > 0 {
        lemma_cns_stmts_mono(p, s[s.len() - 1].body.stmts@, e1, e2);
        lemma_cns_arms_mono(p, s.subrange(0, s.len() - 1), e1, e2);
    }
}

/// The names of the declarations.
pub open spec fn decl_names(decls: Seq<FunctionDecl>) -> Set<Seq<char>> {
    Set::new(|n: Seq<char>| exists|k: int| 0 <= k < decls.len() && #[trigger] decls[k].name@ == n)
}

/// Position `j` of `f` is declared `give`.
pub open spec fn consume_seed(f: FunctionDecl, j: int) -> bool {
    f.params@[j].ownership == Some(OwnershipModifier::Give)
}

/// The walk of parameter `j` of `decls[k]` finds a consuming use under `rows`; whether a
/// conduit `send` of it transfers is read from the row of `transfers` named after the
/// function.
pub open spec fn consumed_discovered(
    decls: Seq<FunctionDecl>,
    rows: Seq<(String, Vec<bool>)>,
    imported: Set<Seq<char>>,
    transfers: Seq<(String, Vec<bool>)>,
    k: int,
    j: int,
) -> bool {
    cns_stmts(
        decls[k].params@[j].name@,
        decls[k].body.stmts@,
        ConsumeEnv { rows, local: decl_names(decls), imported, transfers: consumed_at(transfers, decls[k].name@, j) },
    )
}

/// One row per declaration, named after it, with one entry per parameter.
pub open spec fn consumed_shaped(rows: Seq<(String, Vec<bool>)>, decls: Seq<FunctionDecl>) -> bool {
    rows.len() == decls.len() && forall|k: int|
        0 <= k < rows.len() ==> (#[trigger] rows[k]).0@ == decls[k].name@ && rows[k].1@.len()
            == decls[k].params@.len()
}

/// `rows` is closed: every `give` position and every position whose walk finds a
/// consuming use under these very rows is consumed.
pub open spec fn is_consumed_solution(
    decls: Seq<FunctionDecl>,
    rows: Seq<(String, Vec<bool>)>,
    imported: Set<Seq<char>>,
    transfers: Seq<(String, Vec<bool>)>,
) -> bool {
    consumed_shaped(rows, decls) && forall|k: int, j: int|
        0 <= k < rows.len() && 0 <= j < rows[k].1@.len() ==> (consume_seed(decls[k], j) ==> #[trigger] rows[k].1@[j])
            && (consumed_discovered(decls, rows, imported, transfers, k, j) ==> rows[k].1@[j])
}

pub open spec fn row_count(r: Seq<bool>) -> int
    decreases r.len(),
{
    if r.len() == 0 {
        0
    } else {
        row_count(r.drop_last()) + if r.last() {
            1int
        } else {
            0int
        }
    }
}

pub open spec fn rows_count(rows: Seq<(String, Vec<bool>)>) -> int
    decreases rows.len(),
{
    if rows.len() == 0 {
        0
    } else {
        rows_count(rows.drop_last()) + row_count(rows.last().1@)
    }
}

pub open spec fn rows_len(rows: Seq<(String, Vec<bool>)>) -> int
    decreases rows.len(),
{
    if rows.len() == 0 {
        0
    } else {
        rows_len(rows.drop_last()) + rows.last().1@.len()
    }
}

proof fn lemma_row_count(x: Seq<bool>, y: Seq<bool>)
    requires
        x.len() == y.len(),
        forall|j: int| 0 <= j < x.len() && #[trigger] x[j] ==> y[j],
    ensures
        0 <= row_count(x) <= row_count(y) <= y.len(),
        x != y ==> row_count(x) < row_count(y),
    decreases x.len(),
{
    if x.len() > 0 {
        let (xa, ya) = (x.drop_last(), y.drop_last());
        assert forall|j: int| 0 <= j < xa.len() && #[trigger] xa[j] implies ya[j] by {
            assert(x[j] ==> y[j]);
        }
        lemma_row_count(xa, ya);
        assert(x.last() ==> y.last()) by {
            assert(x[x.len() - 1] ==> y[y.len() - 1]);
        }
        if x != y && xa == ya {
            assert(x.last() != y.last()) by {
                if x.last() == y.last() {
                    assert(x =~= y) by {
                        assert forall|j: int| 0 <= j < x.len() implies x[j] == y[j] by {
                            if j < x.len() - 1 {
                                assert(xa[j] == ya[j]);
                            }
                        }
                    }
                }
            }
        }
    } else {
        assert(x =~= y);
    }
}

proof fn lemma_rows_count(a: Seq<(String, Vec<bool>)>, b: Seq<(String, Vec<bool>)>)
    requires
        consumed_rows_le(a, b),
    ensures
        rows_len(a) == rows_len(b),
        0 <= rows_count(a) <= rows_count(b) <= rows_len(b),
        (exists|k: int, j: int| 0 <= k < a.len() && 0 <= j < a[k].1@.len() && #[trigger] a[k].1@[j] != b[k].1@[j])
            ==> rows_count(a) < rows_count(b),
    decreases a.len(),
{
    if a.len() > 0 {
        let (aa, ba) = (a.drop_last(), b.drop_last());
        assert(consumed_rows_le(aa, ba)) by {
            assert forall|k: int| 0 <= k < aa.len() implies (#[trigger] aa[k]).0@ == ba[k].0@ && aa[k].1@.len()
                == ba[k].1@.len() && forall|j: int| 0 <= j < aa[k].1@.len() && #[trigger] aa[k].1@[j] ==> ba[k].1@[j] by {
                assert(a[k] == aa[k]);
                assert(b[k] == ba[k]);
            }
        }
        lemma_rows_count(aa, ba);
        let (la, lb) = (a.last().1@, b.last().1@);
        assert(a.last() == a[a.len() - 1]);
        assert(b.last() == b[b.len() - 1]);
        assert forall|j: int| 0 <= j < la.len() && #[trigger] la[j] implies lb[j] by {
            assert(a[a.len() - 1].1@[j] ==> b[a.len() - 1].1@[j]);
        }
        lemma_row_count(la, lb);
        if exists|k: int, j: int| 0 <= k < a.len() && 0 <= j < a[k].1@.len() && #[trigger] a[k].1@[j] != b[k].1@[j] {
            let (k, j) = choose|k: int, j: int| 0 <= k < a.len() && 0 <= j < a[k].1@.len() && #[trigger] a[k].1@[j] != b[k].1@[j];
            if k == a.len() - 1 {
                assert(la[j] != lb[j]);
            } else {
                assert(aa[k].1@[j] != ba[k].1@[j]);
            }
        }
    }
}

fn local_name_set(module: &Module, positions: &Vec<usize>) -> (s: NameSet)
    requires
        positions_of(module.items@, positions@),
    ensures
        s@ == decl_names(local_decls(module.items@)),
{
    let ghost decls = local_decls(module.items@);
    let mut s = NameSet::new();
    let mut k: usize = 0;
    while k < positions.len()
        invariant
            k <= positions@.len(),
            decls == local_decls(module.items@),
            positions_of(module.items@, positions@),
            forall|n: Seq<char>| s@.contains(n) <==> exists|a: int| 0 <= a < k && #[trigger] decls[a].name@ == n,
        decreases positions@.len() - k,
    {
        match &module.items[positions[k]] {
            Item::Function(f) => {
                proof {
                    assert(*f == decls[k as int]);
                }
                s.insert(f.name.clone());
                proof {
                    assert forall|n: Seq<char>| s@.contains(n) <==> exists|a: int| 0 <= a < k + 1 && #[trigger] decls[a].name@ == n by {
                        if n == decls[k as int].name@ {
                            assert(decls[k as int].name@ == n);
                        }
                    }
                }
            },
            _ => {
                proof {
                    assert(false);
                }
            },
        }
        k = k + 1;
    }
    proof {
        assert(s@ =~= decl_names(decls));
    }
    s
}

fn consumed_pass(
    module: &Module,
    positions: &Vec<usize>,
    rows: &Vec<(String, Vec<bool>)>,
    local: &NameSet,
    imported: &NameSet,
    transfers: &Vec<(String, Vec<bool>)>,
) -> (r: (Vec<(String, Vec<bool>)>, bool))
    requires
        positions_of(module.items@, positions@),
        consumed_shaped(rows@, local_decls(module.items@)),
        local@ == decl_names(local_decls(module.items@)),
    ensures
        consumed_shaped(r.0@, local_decls(module.items@)),
        forall|k: int, j: int|
            0 <= k < r.0@.len() && 0 <= j < r.0@[k].1@.len() ==> #[trigger] r.0@[k].1@[j] == (rows@[k].1@[j]
                || consumed_discovered(local_decls(module.items@), rows@, imported@, transfers@, k, j)),
        !r.1 ==> forall|k: int, j: int|
            0 <= k < r.0@.len() && 0 <= j < r.0@[k].1@.len() ==> #[trigger] r.0@[k].1@[j] == rows@[k].1@[j],
        r.1 ==> exists|k: int, j: int|
            0 <= k < r.0@.len() && 0 <= j < r.0@[k].1@.len() && #[trigger] r.0@[k].1@[j] != rows@[k].1@[j],
{
    let ghost decls = local_decls(module.items@);
    let mut next: Vec<(String, Vec<bool>)> = Vec::new();
    let mut changed = false;
    let ghost mut wk: int = 0;
    let ghost mut wj: int = 0;
    let mut k: usize = 0;
    while k < positions.len()
        invariant
            k <= positions@.len(),
            decls == local_decls(module.items@),
            local@ == decl_names(decls),
            positions_of(module.items@, positions@),
            consumed_shaped(rows@, decls),
            next@.len() == k,
            forall|a: int| 0 <= a < k ==> (#[trigger] next@[a]).0@ == decls[a].name@ && next@[a].1@.len()
                == decls[a].params@.len(),
            forall|a: int, b: int|
                0 <= a < k && 0 <= b < next@[a].1@.len() ==> #[trigger] next@[a].1@[b] == (rows@[a].1@[b]
                    || consumed_discovered(decls, rows@, imported@, transfers@, a, b)),
            !changed ==> forall|a: int, b: int|
                0 <= a < k && 0 <= b < next@[a].1@.len() ==> #[trigger] next@[a].1@[b] == rows@[a].1@[b],
            changed ==> 0 <= wk < k && 0 <= wj < next@[wk].1@.len() && next@[wk].1@[wj] != rows@[wk].1@[wj],
        decreases positions@.len() - k,
    {
        match &module.items[positions[k]] {
            Item::Function(f) => {
                let cur_row = &rows[k].1;
                proof {
                    assert(*f == decls[k as int]);
                    assert(rows@[k as int].1@.len() == f.params@.len());
                }
                let mut row: Vec<bool> = Vec::new();
                let mut j: usize = 0;
                while j < f.params.len()
                    invariant
                        j <= f.params@.len(),
                        *f == decls[k as int],
                        *cur_row == rows@[k as int].1,
                        cur_row@.len() == f.params@.len(),
                        k < positions@.len(),
                        decls == local_decls(module.items@),
                        local@ == decl_names(decls),
                        next@.len() == k,
                        row@.len() == j,
                        forall|b: int|
                            0 <= b < j ==> #[trigger] row@[b] == (cur_row@[b] || consumed_discovered(
                                decls,
                                rows@,
                                imported@,
                                transfers@,
                                k as int,
                                b,
                            )),
                        !changed ==> forall|a: int, b: int|
                            0 <= a < k && 0 <= b < next@[a].1@.len() ==> #[trigger] next@[a].1@[b] == rows@[a].1@[b],
                        !changed ==> forall|b: int| 0 <= b < j ==> #[trigger] row@[b] == cur_row@[b],
                        changed ==> (0 <= wk < k && 0 <= wj < next@[wk].1@.len() && next@[wk].1@[wj]
                            != rows@[wk].1@[wj]) || (wk == k && 0 <= wj < j && row@[wj] != cur_row@[wj]),
                    decreases f.params@.len() - j,
                {
                    let cur = cur_row[j];
                    let v = if cur {
                        true
                    } else {
                        let ctx = ConsumeContext {
                            consumed: rows,
                            local_fn_names: local,
                            imported_fn_names: imported,
                            transfers: is_consumed_at(transfers, f.name.as_str(), j),
                        };
                        param_consumed_in_stmts(f.params[j].name.as_str(), &f.body.stmts, &ctx)
                    };
                    if v != cur {
                        proof {
                            if !changed {
                                wk = k as int;
                                wj = j as int;
                            }
                        }
                        changed = true;
                    }
                    row.push(v);
                    j = j + 1;
                }
                next.push((rows[k].0.clone(), row));
            },
            _ => {
                proof {
                    assert(false);
                }
            },
        }
        k = k + 1;
    }
    proof {
        if changed {
            assert(next@[wk].1@[wj] != rows@[wk].1@[wj]);
        }
    }
    (next, changed)
}

/// The least consumed-position assignment of the module's local functions: one row per
/// function declaration, in order, with a fact per parameter. `transfers` holds, by
/// function name and position, whether the parameter's declared type is an owned-heap
/// conduit element kind (so that sending it whole moves it).
pub fn consumed_fixpoint(
    module: &Module,
    imported_fn_names: &NameSet,
    transfers: &Vec<(String, Vec<bool>)>,
) -> (rows: Vec<(String, Vec<bool>)>)
    ensures
        is_consumed_solution(local_decls(module.items@), rows@, imported_fn_names@, transfers@),
        forall|other: Seq<(String, Vec<bool>)>|
            #[trigger] is_consumed_solution(local_decls(module.items@), other, imported_fn_names@, transfers@)
                ==> consumed_rows_le(rows@, other),
{
    let ghost decls = local_decls(module.items@);
    let ghost (imp, tr) = (imported_fn_names@, transfers@);
    let positions = crate::ownership_fixpoint::function_item_positions(module);
    let local = local_name_set(module, &positions);
    let mut rows: Vec<(String, Vec<bool>)> = Vec::new();
    let mut k: usize = 0;
    while k < positions.len()
        invariant
            k <= positions@.len(),
            decls == local_decls(module.items@),
            positions_of(module.items@, positions@),
            rows@.len() == k,
            forall|a: int| 0 <= a < k ==> (#[trigger] rows@[a]).0@ == decls[a].name@ && rows@[a].1@.len()
                == decls[a].params@.len(),
            forall|a: int, b: int|
                0 <= a < k && 0 <= b < rows@[a].1@.len() ==> #[trigger] rows@[a].1@[b] == consume_seed(decls[a], b),
        decreases positions@.len() - k,
    {
        match &module.items[positions[k]] {
            Item::Function(f) => {
                proof {
                    assert(*f == decls[k as int]);
                }
                let mut row: Vec<bool> = Vec::new();
                let mut j: usize = 0;
                while j < f.params.len()
                    invariant
                        j <= f.params@.len(),
                        row@.len() == j,
                        forall|b: int| 0 <= b < j ==> #[trigger] row@[b] == consume_seed(*f, b),
                    decreases f.params@.len() - j,
                {
                    let g = match f.params[j].ownership {
                        Some(OwnershipModifier::Give) => true,
                        _ => false,
                    };
                    row.push(g);
                    j = j + 1;
                }
                let ghost rv = row@;
                rows.push((f.name.clone(), row));
                proof {
                    assert(rows@[k as int].1@ == rv);
                }
            },
            _ => {
                proof {
                    assert(false);
                }
            },
        }
        k = k + 1;
    }
    proof {
        assert forall|other: Seq<(String, Vec<bool>)>|
            #[trigger] is_consumed_solution(decls, other, imp, tr) implies consumed_rows_le(rows@, other) by {
            assert forall|a: int| 0 <= a < rows@.len() implies (#[trigger] rows@[a]).0@ == other[a].0@ && rows@[a].1@.len()
                == other[a].1@.len() && forall|b: int| 0 <= b < rows@[a].1@.len() && #[trigger] rows@[a].1@[b] ==> other[a].1@[b] by {
                assert(other[a].0@ == decls[a].name@);
                assert forall|b: int| 0 <= b < rows@[a].1@.len() && #[trigger] rows@[a].1@[b] implies other[a].1@[b] by {
                    assert(consume_seed(decls[a], b));
                }
            }
        }
    }
    loop
        invariant
            decls == local_decls(module.items@),
            imp == imported_fn_names@,
            tr == transfers@,
            local@ == decl_names(decls),
            positions_of(module.items@, positions@),
            consumed_shaped(rows@, decls),
            forall|a: int, b: int|
                0 <= a < rows@.len() && 0 <= b < rows@[a].1@.len() && consume_seed(decls[a], b) ==> #[trigger] rows@[a].1@[b],
            forall|other: Seq<(String, Vec<bool>)>|
                #[trigger] is_consumed_solution(decls, other, imp, tr) ==> consumed_rows_le(rows@, other),
        decreases rows_len(rows@) - rows_count(rows@),
    {
        let (next, changed) = consumed_pass(module, &positions, &rows, &local, imported_fn_names, transfers);
        proof {
            assert forall|a: int| 0 <= a < rows@.len() implies (#[trigger] rows@[a]).0@ == next@[a].0@ && rows@[a].1@.len()
                == next@[a].1@.len() && forall|b: int| 0 <= b < rows@[a].1@.len() && #[trigger] rows@[a].1@[b] ==> next@[a].1@[b] by {
                assert forall|b: int| 0 <= b < rows@[a].1@.len() && #[trigger] rows@[a].1@[b] implies next@[a].1@[b] by {
                    assert(next@[a].1@[b] == (rows@[a].1@[b] || consumed_discovered(decls, rows@, imp, tr, a, b)));
                }
            }
            lemma_rows_count(rows@, next@);
        }
        if !changed {
            proof {
                assert forall|a: int, b: int|
                    0 <= a < rows@.len() && 0 <= b < rows@[a].1@.len() && consumed_discovered(decls, rows@, imp, tr, a, b)
                        implies #[trigger] rows@[a].1@[b] by {
                    assert(next@[a].1@[b] == rows@[a].1@[b]);
                    assert(next@[a].1@[b] == (rows@[a].1@[b] || consumed_discovered(decls, rows@, imp, tr, a, b)));
                }
            }
            return rows;
        }
        proof {
            let (ka, kb) = choose|ka: int, kb: int|
                0 <= ka < next@.len() && 0 <= kb < next@[ka].1@.len() && #[trigger] next@[ka].1@[kb] != rows@[ka].1@[kb];
            assert(rows@[ka].1@[kb] != next@[ka].1@[kb]);
            assert forall|other: Seq<(String, Vec<bool>)>|
                #[trigger] is_consumed_solution(decls, other, imp, tr) implies consumed_rows_le(next@, other) by {
                assert(consumed_rows_le(rows@, other));
                assert forall|a: int| 0 <= a < next@.len() implies (#[trigger] next@[a]).0@ == other[a].0@
                    && next@[a].1@.len() == other[a].1@.len() && forall|b: int|
                    0 <= b < next@[a].1@.len() && #[trigger] next@[a].1@[b] ==> other[a].1@[b] by {
                    assert(rows@[a].0@ == other[a].0@);
                    assert forall|b: int| 0 <= b < next@[a].1@.len() && #[trigger] next@[a].1@[b] implies other[a].1@[b] by {
                        let env1 = ConsumeEnv {
                            rows: rows@,
                            local: decl_names(decls),
                            imported: imp,
                            transfers: consumed_at(tr, decls[a].name@, b),
                        };
                        let env2 = ConsumeEnv {
                            rows: other,
                            local: decl_names(decls),
                            imported: imp,
                            transfers: consumed_at(tr, decls[a].name@, b),
                        };
                        lemma_cns_stmts_mono(decls[a].params@[b].name@, decls[a].body.stmts@, env1, env2);
                        assert(next@[a].1@[b] == (rows@[a].1@[b] || consumed_discovered(decls, rows@, imp, tr, a, b)));
                        if rows@[a].1@[b] {
                            assert(other[a].1@[b]);
                        }
                        if consumed_discovered(decls, rows@, imp, tr, a, b) {
                            assert(consumed_discovered(decls, other, imp, tr, a, b));
                        }
                    }
                }
            }
        }
        rows = next;
    }
}

} // verus!
