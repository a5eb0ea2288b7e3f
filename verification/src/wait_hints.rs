//! The suspension-point hint pass: a muted `wait` before every call whose callee
//! suspends, except a call the source already waits on.
use vstd::prelude::*;

use crate::inlay_hints::WaitPointHint;
use crate::names::NameSet;
use crate::ownership_fixpoint::local_decls;
use crate::syntax::{Expr, FieldInit, FunctionDecl, Item, MapEntryLit, MatchArm, Module, Stmt, StringPart};

verus! {

/// The model of a [`WaitPointHint`]: position and callee.
pub open spec fn wait_view(h: WaitPointHint) -> (int, Seq<char>) {
    (h.position as int, h.callee_name@)
}

pub open spec fn wait_views(v: Seq<WaitPointHint>) -> Seq<(int, Seq<char>)> {
    v.map_values(|h: WaitPointHint| wait_view(h))
}

/// The wait-point hints of an expression, in walk order: a call to a suspending named
/// function gets one at the call's start, then its arguments and callee are walked; the
/// call directly under a `wait` gets none, though its arguments are walked.
pub open spec fn wp_expr(e: Expr, sus: Set<Seq<char>>) -> Seq<(int, Seq<char>)>
    decreases e,
{
    match e {
        Expr::Call(c) => {
            let here = match *c.callee {
                Expr::Ident(n, _) => if sus.contains(n@) {
                    seq![(c.span.start as int, n@)]
                } else {
                    Seq::empty()
                },
                _ => Seq::empty(),
            };
            here + wp_exprs(c.args@, sus) + wp_expr(*c.callee, sus)
        },
        Expr::MethodCall { receiver, args, .. } => wp_expr(*receiver, sus) + wp_exprs(args@, sus),
        Expr::Wait(inner, _) => match *inner {
            Expr::Call(c) => wp_exprs(c.args@, sus),
            _ => wp_expr(*inner, sus),
        },
        Expr::Background(inner, _) => wp_expr(*inner, sus),
        Expr::BinOp { lhs, rhs, .. } => wp_expr(*lhs, sus) + wp_expr(*rhs, sus),
        Expr::UnaryOp { operand, .. } => wp_expr(*operand, sus),
        Expr::FieldAccess { receiver, .. } => wp_expr(*receiver, sus),
        Expr::IndexAccess { receiver, index, .. } => wp_expr(*receiver, sus) + wp_expr(*index, sus),
        Expr::StructLit { fields, .. } => wp_fields(fields@, sus),
        Expr::ArrayLit { elements, .. } => wp_exprs(elements@, sus),
        Expr::MapLit { entries, .. } => wp_entries(entries@, sus),
        Expr::PostfixOp { receiver, .. } => wp_expr(*receiver, sus),
        Expr::Is { expr, .. } => wp_expr(*expr, sus),
        Expr::InterpolatedString(parts, _) => wp_parts(parts@, sus),
        _ => Seq::empty(),
    }
}

pub open spec fn wp_exprs(s: Seq<Expr>, sus: Set<Seq<char>>) -> Seq<(int, Seq<char>)>
    decreases s,
{
    if s.len() == 0 {
        Seq::empty()
    } else {
        wp_exprs(s.subrange(0, s.len() - 1), sus) + wp_expr(s[s.len() - 1], sus)
    }
}

pub open spec fn wp_fields(s: Seq<FieldInit>, sus: Set<Seq<char>>) -> Seq<(int, Seq<char>)>
    decreases s,
{
    if s.len() == 0 {
        Seq::empty()
    } else {
        wp_fields(s.subrange(0, s.len() - 1), sus) + wp_expr(s[s.len() - 1].value, sus)
    }
}

pub open spec fn wp_entries(s: Seq<MapEntryLit>, sus: Set<Seq<char>>) -> Seq<(int, Seq<char>)>
    decreases s,
{
    if s.len() == 0 {
        Seq::empty()
    } else {
        wp_entries(s.subrange(0, s.len() - 1), sus) + wp_expr(s[s.len() - 1].key, sus) + wp_expr(
            s[s.len() - 1].value,
            sus,
        )
    }
}

pub open spec fn wp_parts(s: Seq<StringPart>, sus: Set<Seq<char>>) -> Seq<(int, Seq<char>)>
    decreases s,
{
    if s.len() == 0 {
        Seq::empty()
    } else {
        wp_parts(s.subrange(0, s.len() - 1), sus) + match s[s.len() - 1] {
            StringPart::Expr(e, _) => wp_expr(e, sus),
            StringPart::Text(_) => Seq::empty(),
        }
    }
}

/// The wait-point hints of a statement: the expressions it evaluates (not an assignment's
/// target), then its nested blocks.
pub open spec fn wp_stmt(st: Stmt, sus: Set<Seq<char>>) -> Seq<(int, Seq<char>)>
    decreases st,
{
    match st {
        Stmt::Expr(e) => wp_expr(e, sus),
        Stmt::Let { value, .. } => wp_expr(value, sus),
        Stmt::Assign { value, .. } => wp_expr(value, sus),
        Stmt::FieldAssign { value, .. } => wp_expr(value, sus),
        Stmt::IndexAssign { index, value, .. } => wp_expr(index, sus) + wp_expr(value, sus),
        Stmt::Return { value, .. } => match value {
            Some(e) => wp_expr(e, sus),
            None => Seq::empty(),
        },
        Stmt::If { cond, body, .. } => wp_expr(cond, sus) + wp_stmts(body.stmts@, sus),
        Stmt::While { cond, body, .. } => wp_expr(cond, sus) + wp_stmts(body.stmts@, sus),
        Stmt::For { iter, body, .. } => wp_expr(iter, sus) + wp_stmts(body.stmts@, sus),
        Stmt::Match { scrutinee, arms, else_arm, .. } => wp_expr(scrutinee, sus) + wp_arms(arms@, sus) + match else_arm {
            Some(b) => wp_stmts(b.stmts@, sus),
            None => Seq::empty(),
        },
    }
}

pub open spec fn wp_stmts(s: Seq<Stmt>, sus: Set<Seq<char>>) -> Seq<(int, Seq<char>)>
    decreases s,
{
    if s.len() == 0 {
        Seq::empty()
    } else {
        wp_stmts(s.subrange(0, s.len() - 1), sus) + wp_stmt(s[s.len() - 1], sus)
    }
}

pub open spec fn wp_arms(s: Seq<MatchArm>, sus: Set<Seq<char>>) -> Seq<(int, Seq<char>)>
    decreases s,
{
    if s.len() == 0 {
        Seq::empty()
    } else {
        wp_arms(s.subrange(0, s.len() - 1), sus) + wp_stmts(s[s.len() - 1].body.stmts@, sus)
    }
}

/// The wait-point hints of the functions, in order.
pub open spec fn module_wait_points(decls: Seq<FunctionDecl>, sus: Set<Seq<char>>) -> Seq<(int, Seq<char>)>
    decreases decls.len(),
{
    if decls.len() == 0 {
        Seq::empty()
    } else {
        module_wait_points(decls.drop_last(), sus) + wp_stmts(decls.last().body.stmts@, sus)
    }
}

fn wp_expr_exec(e: &Expr, sus: &NameSet, out: &mut Vec<WaitPointHint>)
    ensures
        wait_views(final(out)@) == wait_views(old(out)@) + wp_expr(*e, sus@),
    decreases e,
{
    let ghost o = wait_views(out@);
    match e {
        Expr::Call(c) => {
            match &*c.callee {
                Expr::Ident(n, _) => {
                    if sus.contains(n.as_str()) {
                        let h = WaitPointHint { position: c.span.start, callee_name: n.clone() };
                        let ghost before = out@;
                        out.push(h);
                        proof {
                            assert(wait_views(out@) =~= wait_views(before).push(wait_view(h)));
                        }
                    }
                },
                _ => {},
            }
            wp_exprs_exec(&c.args, sus, out);
            wp_expr_exec(&c.callee, sus, out);
        },
        Expr::MethodCall { receiver, args, .. } => {
            wp_expr_exec(receiver, sus, out);
            wp_exprs_exec(args, sus, out);
        },
        Expr::Wait(inner, _) => {
            match &**inner {
                Expr::Call(c) => wp_exprs_exec(&c.args, sus, out),
                _ => wp_expr_exec(inner, sus, out),
            }
        },
        Expr::Background(inner, _) => wp_expr_exec(inner, sus, out),
        Expr::BinOp { lhs, rhs, .. } => {
            wp_expr_exec(lhs, sus, out);
            wp_expr_exec(rhs, sus, out);
        },
        Expr::UnaryOp { operand, .. } => wp_expr_exec(operand, sus, out),
        Expr::FieldAccess { receiver, .. } => wp_expr_exec(receiver, sus, out),
        Expr::IndexAccess { receiver, index, .. } => {
            wp_expr_exec(receiver, sus, out);
            wp_expr_exec(index, sus, out);
        },
        Expr::StructLit { fields, .. } => wp_fields_exec(fields, sus, out),
        Expr::ArrayLit { elements, .. } => wp_exprs_exec(elements, sus, out),
        Expr::MapLit { entries, .. } => wp_entries_exec(entries, sus, out),
        Expr::PostfixOp { receiver, .. } => wp_expr_exec(receiver, sus, out),
        Expr::Is { expr, .. } => wp_expr_exec(expr, sus, out),
        Expr::InterpolatedString(parts, _) => wp_parts_exec(parts, sus, out),
        _ => {},
    }
    proof {
        assert(wait_views(out@) =~= o + wp_expr(*e, sus@));
    }
}

fn wp_exprs_exec(v: &Vec<Expr>, sus: &NameSet, out: &mut Vec<WaitPointHint>)
    ensures
        wait_views(final(out)@) == wait_views(old(out)@) + wp_exprs(v@, sus@),
    decreases v,
{
    let ghost o = wait_views(out@);
    let mut i: usize = 0;
    proof {
        assert(v@.subrange(0, 0) =~= Seq::<Expr>::empty());
        assert(wait_views(out@) =~= o + wp_exprs(v@.subrange(0, 0), sus@));
    }
    while i < v.len()
        invariant
            i <= v@.len(),
            wait_views(out@) == o + wp_exprs(v@.subrange(0, i as int), sus@),
        decreases v@.len() - i,
    {
        proof {
            let pre = v@.subrange(0, i + 1);
            assert(pre.subrange(0, i as int) =~= v@.subrange(0, i as int));
            assert(pre[i as int] == v@[i as int]);
        }
        wp_expr_exec(&v[i], sus, out);
        proof {
            assert(wait_views(out@) =~= o + wp_exprs(v@.subrange(0, i + 1), sus@));
        }
        i = i + 1;
    }
    proof {
        assert(v@.subrange(0, v@.len() as int) =~= v@);
    }
}

fn wp_fields_exec(v: &Vec<FieldInit>, sus: &NameSet, out: &mut Vec<WaitPointHint>)
    ensures
        wait_views(final(out)@) == wait_views(old(out)@) + wp_fields(v@, sus@),
    decreases v,
{
    let ghost o = wait_views(out@);
    let mut i: usize = 0;
    proof {
        assert(v@.subrange(0, 0) =~= Seq::<FieldInit>::empty());
        assert(wait_views(out@) =~= o + wp_fields(v@.subrange(0, 0), sus@));
    }
    while i < v.len()
        invariant
            i <= v@.len(),
            wait_views(out@) == o + wp_fields(v@.subrange(0, i as int), sus@),
        decreases v@.len() - i,
    {
        proof {
            let pre = v@.subrange(0, i + 1);
            assert(pre.subrange(0, i as int) =~= v@.subrange(0, i as int));
            assert(pre[i as int] == v@[i as int]);
        }
        wp_expr_exec(&v[i].value, sus, out);
        proof {
            assert(wait_views(out@) =~= o + wp_fields(v@.subrange(0, i + 1), sus@));
        }
        i = i + 1;
    }
    proof {
        assert(v@.subrange(0, v@.len() as int) =~= v@);
    }
}

fn wp_entries_exec(v: &Vec<MapEntryLit>, sus: &NameSet, out: &mut Vec<WaitPointHint>)
    ensures
        wait_views(final(out)@) == wait_views(old(out)@) + wp_entries(v@, sus@),
    decreases v,
{
    let ghost o = wait_views(out@);
    let mut i: usize = 0;
    proof {
        assert(v@.subrange(0, 0) =~= Seq::<MapEntryLit>::empty());
        assert(wait_views(out@) =~= o + wp_entries(v@.subrange(0, 0), sus@));
    }
    while i < v.len()
        invariant
            i <= v@.len(),
            wait_views(out@) == o + wp_entries(v@.subrange(0, i as int), sus@),
        decreases v@.len() - i,
    {
        proof {
            let pre = v@.subrange(0, i + 1);
            assert(pre.subrange(0, i as int) =~= v@.subrange(0, i as int));
            assert(pre[i as int] == v@[i as int]);
        }
        wp_expr_exec(&v[i].key, sus, out);
        wp_expr_exec(&v[i].value, sus, out);
        proof {
            assert(wait_views(out@) =~= o + wp_entries(v@.subrange(0, i + 1), sus@));
        }
        i = i + 1;
    }
    proof {
        assert(v@.subrange(0, v@.len() as int) =~= v@);
    }
}

fn wp_parts_exec(v: &Vec<StringPart>, sus: &NameSet, out: &mut Vec<WaitPointHint>)
    ensures
        wait_views(final(out)@) == wait_views(old(out)@) + wp_parts(v@, sus@),
    decreases v,
{
    let ghost o = wait_views(out@);
    let mut i: usize = 0;
    proof {
        assert(v@.subrange(0, 0) =~= Seq::<StringPart>::empty());
        assert(wait_views(out@) =~= o + wp_parts(v@.subrange(0, 0), sus@));
    }
    while i < v.len()
        invariant
            i <= v@.len(),
            wait_views(out@) == o + wp_parts(v@.subrange(0, i as int), sus@),
        decreases v@.len() - i,
    {
        proof {
            let pre = v@.subrange(0, i + 1);
            assert(pre.subrange(0, i as int) =~= v@.subrange(0, i as int));
            assert(pre[i as int] == v@[i as int]);
        }
        match &v[i] {
            StringPart::Expr(e, _) => wp_expr_exec(e, sus, out),
            StringPart::Text(_) => {},
        }
        proof {
            assert(wait_views(out@) =~= o + wp_parts(v@.subrange(0, i + 1), sus@));
        }
        i = i + 1;
    }
    proof {
        assert(v@.subrange(0, v@.len() as int) =~= v@);
    }
}

fn wp_stmt_exec(st: &Stmt, sus: &NameSet, out: &mut Vec<WaitPointHint>)
    ensures
        wait_views(final(out)@) == wait_views(old(out)@) + wp_stmt(*st, sus@),
    decreases st,
{
    let ghost o = wait_views(out@);
    match st {
        Stmt::Expr(e) => wp_expr_exec(e, sus, out),
        Stmt::Let { value, .. } => wp_expr_exec(value, sus, out),
        Stmt::Assign { value, .. } => wp_expr_exec(value, sus, out),
        Stmt::FieldAssign { value, .. } => wp_expr_exec(value, sus, out),
        Stmt::IndexAssign { index, value, .. } => {
            wp_expr_exec(index, sus, out);
            wp_expr_exec(value, sus, out);
        },
        Stmt::Return { value, .. } => match value {
            Some(e) => wp_expr_exec(e, sus, out),
            None => {},
        },
        Stmt::If { cond, body, .. } => {
            wp_expr_exec(cond, sus, out);
            wp_stmts_exec(&body.stmts, sus, out);
        },
        Stmt::While { cond, body, .. } => {
            wp_expr_exec(cond, sus, out);
            wp_stmts_exec(&body.stmts, sus, out);
        },
        Stmt::For { iter, body, .. } => {
            wp_expr_exec(iter, sus, out);
            wp_stmts_exec(&body.stmts, sus, out);
        },
        Stmt::Match { scrutinee, arms, else_arm, .. } => {
            wp_expr_exec(scrutinee, sus, out);
            wp_arms_exec(arms, sus, out);
            match else_arm {
                Some(b) => wp_stmts_exec(&b.stmts, sus, out),
                None => {},
            }
        },
    }
    proof {
        assert(wait_views(out@) =~= o + wp_stmt(*st, sus@));
    }
}

fn wp_stmts_exec(v: &Vec<Stmt>, sus: &NameSet, out: &mut Vec<WaitPointHint>)
    ensures
        wait_views(final(out)@) == wait_views(old(out)@) + wp_stmts(v@, sus@),
    decreases v,
{
    let ghost o = wait_views(out@);
    let mut i: usize = 0;
    proof {
        assert(v@.subrange(0, 0) =~= Seq::<Stmt>::empty());
        assert(wait_views(out@) =~= o + wp_stmts(v@.subrange(0, 0), sus@));
    }
    while i < v.len()
        invariant
            i <= v@.len(),
            wait_views(out@) == o + wp_stmts(v@.subrange(0, i as int), sus@),
        decreases v@.len() - i,
    {
        proof {
            let pre = v@.subrange(0, i + 1);
            assert(pre.subrange(0, i as int) =~= v@.subrange(0, i as int));
            assert(pre[i as int] == v@[i as int]);
        }
        wp_stmt_exec(&v[i], sus, out);
        proof {
            assert(wait_views(out@) =~= o + wp_stmts(v@.subrange(0, i + 1), sus@));
        }
        i = i + 1;
    }
    proof {
        assert(v@.subrange(0, v@.len() as int) =~= v@);
    }
}

fn wp_arms_exec(v: &Vec<MatchArm>, sus: &NameSet, out: &mut Vec<WaitPointHint>)
    ensures
        wait_views(final(out)@) == wait_views(old(out)@) + wp_arms(v@, sus@),
    decreases v,
{
    let ghost o = wait_views(out@);
    let mut i: usize = 0;
    proof {
        assert(v@.subrange(0, 0) =~= Seq::<MatchArm>::empty());
        assert(wait_views(out@) =~= o + wp_arms(v@.subrange(0, 0), sus@));
    }
    while i < v.len()
        invariant
            i <= v@.len(),
            wait_views(out@) == o + wp_arms(v@.subrange(0, i as int), sus@),
        decreases v@.len() - i,
    {
        proof {
            let pre = v@.subrange(0, i + 1);
            assert(pre.subrange(0, i as int) =~= v@.subrange(0, i as int));
            assert(pre[i as int] == v@[i as int]);
        }
        wp_stmts_exec(&v[i].body.stmts, sus, out);
        proof {
            assert(wait_views(out@) =~= o + wp_arms(v@.subrange(0, i + 1), sus@));
        }
        i = i + 1;
    }
    proof {
        assert(v@.subrange(0, v@.len() as int) =~= v@);
    }
}

/// A muted `wait` hint before each call whose callee is in the effective suspend set
/// (the module's suspending functions and the imported suspending ones), skipping calls
/// the source already waits on, function by function.
pub fn wait_points_hints(module: &Module, effective_suspends: &NameSet) -> (r: Vec<WaitPointHint>)
    ensures
        wait_views(r@) == module_wait_points(local_decls(module.items@), effective_suspends@),
{
    let ghost decls = local_decls(module.items@);
    let positions = crate::ownership_fixpoint::function_item_positions(module);
    let mut out: Vec<WaitPointHint> = Vec::new();
    let mut k: usize = 0;
    proof {
        assert(decls.take(0) =~= Seq::<FunctionDecl>::empty());
        assert(wait_views(out@) =~= module_wait_points(decls.take(0), effective_suspends@));
    }
    while k < positions.len()
        invariant
            k <= positions@.len(),
            decls == local_decls(module.items@),
            crate::ownership_fixpoint::positions_of(module.items@, positions@),
            wait_views(out@) == module_wait_points(decls.take(k as int), effective_suspends@),
        decreases positions@.len() - k,
    {
        match &module.items[positions[k]] {
            Item::Function(f) => {
                proof {
                    assert(*f == decls[k as int]);
                    assert(decls.take(k + 1).drop_last() =~= decls.take(k as int));
                    assert(decls.take(k + 1).last() == *f);
                }
                wp_stmts_exec(&f.body.stmts, effective_suspends, &mut out);
            },
            _ => {
                proof {
                    assert(false);
                }
            },
        }
        k = k + 1;
    }
    proof {
        assert(decls.take(k as int) =~= decls);
    }
    out
}

} // verus!
