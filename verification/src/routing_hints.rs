//! The thread-pool routing hint pass: a muted comment after every `background` spawn
//! saying whether it runs on the I/O pool (its callee suspends) or the CPU pool.
use vstd::prelude::*;

use crate::inlay_hints::BackgroundRoutingHint;
use crate::text::lit;
use crate::names::NameSet;
use crate::ownership_fixpoint::local_decls;
use crate::syntax::{Expr, FieldInit, FunctionDecl, Item, MapEntryLit, MatchArm, Module, Stmt, StringPart};

verus! {

/// The model of a [`BackgroundRoutingHint`]: position and label.
pub open spec fn routing_view(h: BackgroundRoutingHint) -> (int, Seq<char>) {
    (h.position as int, h.label@)
}

pub open spec fn routing_views(v: Seq<BackgroundRoutingHint>) -> Seq<(int, Seq<char>)> {
    v.map_values(|h: BackgroundRoutingHint| routing_view(h))
}

/// The routing label of a spawn of `inner`: the I/O pool when it calls a suspending named
/// function, else the CPU pool.
pub open spec fn routing_label(inner: Expr, sus: Set<Seq<char>>) -> Seq<char> {
    match inner {
        Expr::Call(c) => match *c.callee {
            Expr::Ident(n, _) => if sus.contains(n@) {
                "// routed to I/O pool \u{2014} "@ + n@ + " suspends here"@
            } else {
                "// routed to CPU pool \u{2014} no may-block calls in call graph"@
            },
            _ => "// routed to CPU pool \u{2014} no may-block calls in call graph"@,
        },
        _ => "// routed to CPU pool \u{2014} no may-block calls in call graph"@,
    }
}

/// The routing hints of an expression, in walk order: a `background` spawn gets one at
/// its end, then what it spawns is walked.
pub open spec fn br_expr(e: Expr, sus: Set<Seq<char>>) -> Seq<(int, Seq<char>)>
    decreases e,
{
    match e {
        Expr::Background(inner, sp) => seq![(sp.end as int, routing_label(*inner, sus))] + br_expr(*inner, sus),
        Expr::Wait(inner, _) => br_expr(*inner, sus),
        Expr::Call(c) => br_expr(*c.callee, sus) + br_exprs(c.args@, sus),
        Expr::MethodCall { receiver, args, .. } => br_expr(*receiver, sus) + br_exprs(args@, sus),
        Expr::BinOp { lhs, rhs, .. } => br_expr(*lhs, sus) + br_expr(*rhs, sus),
        Expr::UnaryOp { operand, .. } => br_expr(*operand, sus),
        Expr::FieldAccess { receiver, .. } => br_expr(*receiver, sus),
        Expr::IndexAccess { receiver, index, .. } => br_expr(*receiver, sus) + br_expr(*index, sus),
        Expr::StructLit { fields, .. } => br_fields(fields@, sus),
        Expr::ArrayLit { elements, .. } => br_exprs(elements@, sus),
        Expr::MapLit { entries, .. } => br_entries(entries@, sus),
        Expr::PostfixOp { receiver, .. } => br_expr(*receiver, sus),
        Expr::Is { expr, .. } => br_expr(*expr, sus),
        Expr::InterpolatedString(parts, _) => br_parts(parts@, sus),
        _ => Seq::empty(),
    }
}

pub open spec fn br_exprs(s: Seq<Expr>, sus: Set<Seq<char>>) -> Seq<(int, Seq<char>)>
    decreases s,
{
    if s.len() == 0 {
        Seq::empty()
    } else {
        br_exprs(s.subrange(0, s.len() - 1), sus) + br_expr(s[s.len() - 1], sus)
    }
}

pub open spec fn br_fields(s: Seq<FieldInit>, sus: Set<Seq<char>>) -> Seq<(int, Seq<char>)>
    decreases s,
{
    if s.len() == 0 {
        Seq::empty()
    } else {
        br_fields(s.subrange(0, s.len() - 1), sus) + br_expr(s[s.len() - 1].value, sus)
    }
}

pub open spec fn br_entries(s: Seq<MapEntryLit>, sus: Set<Seq<char>>) -> Seq<(int, Seq<char>)>
    decreases s,
{
    if s.len() == 0 {
        Seq::empty()
    } else {
        br_entries(s.subrange(0, s.len() - 1), sus) + br_expr(s[s.len() - 1].key, sus) + br_expr(
            s[s.len() - 1].value,
            sus,
        )
    }
}

pub open spec fn br_parts(s: Seq<StringPart>, sus: Set<Seq<char>>) -> Seq<(int, Seq<char>)>
    decreases s,
{
    if s.len() == 0 {
        Seq::empty()
    } else {
        br_parts(s.subrange(0, s.len() - 1), sus) + match s[s.len() - 1] {
            StringPart::Expr(e, _) => br_expr(e, sus),
            StringPart::Text(_) => Seq::empty(),
        }
    }
}

/// The routing hints of a statement: the expressions it evaluates (not an assignment's
/// target), then its nested blocks.
pub open spec fn br_stmt(st: Stmt, sus: Set<Seq<char>>) -> Seq<(int, Seq<char>)>
    decreases st,
{
    match st {
        Stmt::Expr(e) => br_expr(e, sus),
        Stmt::Let { value, .. } => br_expr(value, sus),
        Stmt::Assign { value, .. } => br_expr(value, sus),
        Stmt::FieldAssign { value, .. } => br_expr(value, sus),
        Stmt::IndexAssign { index, value, .. } => br_expr(index, sus) + br_expr(value, sus),
        Stmt::Return { value, .. } => match value {
            Some(e) => br_expr(e, sus),
            None => Seq::empty(),
        },
        Stmt::If { cond, body, .. } => br_expr(cond, sus) + br_stmts(body.stmts@, sus),
        Stmt::While { cond, body, .. } => br_expr(cond, sus) + br_stmts(body.stmts@, sus),
        Stmt::For { iter, body, .. } => br_expr(iter, sus) + br_stmts(body.stmts@, sus),
        Stmt::Match { scrutinee, arms, else_arm, .. } => br_expr(scrutinee, sus) + br_arms(arms@, sus) + match else_arm {
            Some(b) => br_stmts(b.stmts@, sus),
            None => Seq::empty(),
        },
    }
}

pub open spec fn br_stmts(s: Seq<Stmt>, sus: Set<Seq<char>>) -> Seq<(int, Seq<char>)>
    decreases s,
{
    if s.len() == 0 {
        Seq::empty()
    } else {
        br_stmts(s.subrange(0, s.len() - 1), sus) + br_stmt(s[s.len() - 1], sus)
    }
}

pub open spec fn br_arms(s: Seq<MatchArm>, sus: Set<Seq<char>>) -> Seq<(int, Seq<char>)>
    decreases s,
{
    if s.len() == 0 {
        Seq::empty()
    } else {
        br_arms(s.subrange(0, s.len() - 1), sus) + br_stmts(s[s.len() - 1].body.stmts@, sus)
    }
}

/// The routing hints of the functions, in order.
pub open spec fn module_routing_hints(decls: Seq<FunctionDecl>, sus: Set<Seq<char>>) -> Seq<(int, Seq<char>)>
    decreases decls.len(),
{
    if decls.len() == 0 {
        Seq::empty()
    } else {
        module_routing_hints(decls.drop_last(), sus) + br_stmts(decls.last().body.stmts@, sus)
    }
}

fn routing_label_exec(inner: &Expr, sus: &NameSet) -> (r: String)
    ensures
        r@ == routing_label(*inner, sus@),
{
    match inner {
        Expr::Call(c) => match &*c.callee {
            Expr::Ident(n, _) => {
                if sus.contains(n.as_str()) {
                    let mut l = lit("// routed to I/O pool \u{2014} ");
                    l.append(n.as_str());
                    l.append(" suspends here");
                    l
                } else {
                    lit("// routed to CPU pool \u{2014} no may-block calls in call graph")
                }
            },
            _ => lit("// routed to CPU pool \u{2014} no may-block calls in call graph"),
        },
        _ => lit("// routed to CPU pool \u{2014} no may-block calls in call graph"),
    }
}

fn br_expr_exec(e: &Expr, sus: &NameSet, out: &mut Vec<BackgroundRoutingHint>)
    ensures
        routing_views(final(out)@) == routing_views(old(out)@) + br_expr(*e, sus@),
    decreases e,
{
    let ghost o = routing_views(out@);
    match e {
        Expr::Background(inner, sp) => {
            let h = BackgroundRoutingHint { position: sp.end, label: routing_label_exec(inner, sus) };
            let ghost before = out@;
            out.push(h);
            proof {
                assert(routing_views(out@) =~= routing_views(before).push(routing_view(h)));
            }
            br_expr_exec(inner, sus, out);
        },
        Expr::Wait(inner, _) => br_expr_exec(inner, sus, out),
        Expr::Call(c) => {
            br_expr_exec(&c.callee, sus, out);
            br_exprs_exec(&c.args, sus, out);
        },
        Expr::MethodCall { receiver, args, .. } => {
            br_expr_exec(receiver, sus, out);
            br_exprs_exec(args, sus, out);
        },
        Expr::BinOp { lhs, rhs, .. } => {
            br_expr_exec(lhs, sus, out);
            br_expr_exec(rhs, sus, out);
        },
        Expr::UnaryOp { operand, .. } => br_expr_exec(operand, sus, out),
        Expr::FieldAccess { receiver, .. } => br_expr_exec(receiver, sus, out),
        Expr::IndexAccess { receiver, index, .. } => {
            br_expr_exec(receiver, sus, out);
            br_expr_exec(index, sus, out);
        },
        Expr::StructLit { fields, .. } => br_fields_exec(fields, sus, out),
        Expr::ArrayLit { elements, .. } => br_exprs_exec(elements, sus, out),
        Expr::MapLit { entries, .. } => br_entries_exec(entries, sus, out),
        Expr::PostfixOp { receiver, .. } => br_expr_exec(receiver, sus, out),
        Expr::Is { expr, .. } => br_expr_exec(expr, sus, out),
        Expr::InterpolatedString(parts, _) => br_parts_exec(parts, sus, out),
        _ => {},
    }
    proof {
        assert(routing_views(out@) =~= o + br_expr(*e, sus@));
    }
}

fn br_exprs_exec(v: &Vec<Expr>, sus: &NameSet, out: &mut Vec<BackgroundRoutingHint>)
    ensures
        routing_views(final(out)@) == routing_views(old(out)@) + br_exprs(v@, sus@),
    decreases v,
{
    let ghost o = routing_views(out@);
    let mut i: usize = 0;
    proof {
        assert(v@.subrange(0, 0) =~= Seq::<Expr>::empty());
        assert(routing_views(out@) =~= o + br_exprs(v@.subrange(0, 0), sus@));
    }
    while i < v.len()
        invariant
            i <= v@.len(),
            routing_views(out@) == o + br_exprs(v@.subrange(0, i as int), sus@),
        decreases v@.len() - i,
    {
        proof {
            let pre = v@.subrange(0, i + 1);
            assert(pre.subrange(0, i as int) =~= v@.subrange(0, i as int));
            assert(pre[i as int] == v@[i as int]);
        }
        br_expr_exec(&v[i], sus, out);
        proof {
            assert(routing_views(out@) =~= o + br_exprs(v@.subrange(0, i + 1), sus@));
        }
        i = i + 1;
    }
    proof {
        assert(v@.subrange(0, v@.len() as int) =~= v@);
    }
}

fn br_fields_exec(v: &Vec<FieldInit>, sus: &NameSet, out: &mut Vec<BackgroundRoutingHint>)
    ensures
        routing_views(final(out)@) == routing_views(old(out)@) + br_fields(v@, sus@),
    decreases v,
{
    let ghost o = routing_views(out@);
    let mut i: usize = 0;
    proof {
        assert(v@.subrange(0, 0) =~= Seq::<FieldInit>::empty());
        assert(routing_views(out@) =~= o + br_fields(v@.subrange(0, 0), sus@));
    }
    while i < v.len()
        invariant
            i <= v@.len(),
            routing_views(out@) == o + br_fields(v@.subrange(0, i as int), sus@),
        decreases v@.len() - i,
    {
        proof {
            let pre = v@.subrange(0, i + 1);
            assert(pre.subrange(0, i as int) =~= v@.subrange(0, i as int));
            assert(pre[i as int] == v@[i as int]);
        }
        br_expr_exec(&v[i].value, sus, out);
        proof {
            assert(routing_views(out@) =~= o + br_fields(v@.subrange(0, i + 1), sus@));
        }
        i = i + 1;
    }
    proof {
        assert(v@.subrange(0, v@.len() as int) =~= v@);
    }
}

fn br_entries_exec(v: &Vec<MapEntryLit>, sus: &NameSet, out: &mut Vec<BackgroundRoutingHint>)
    ensures
        routing_views(final(out)@) == routing_views(old(out)@) + br_entries(v@, sus@),
    decreases v,
{
    let ghost o = routing_views(out@);
    let mut i: usize = 0;
    proof {
        assert(v@.subrange(0, 0) =~= Seq::<MapEntryLit>::empty());
        assert(routing_views(out@) =~= o + br_entries(v@.subrange(0, 0), sus@));
    }
    while i < v.len()
        invariant
            i <= v@.len(),
            routing_views(out@) == o + br_entries(v@.subrange(0, i as int), sus@),
        decreases v@.len() - i,
    {
        proof {
            let pre = v@.subrange(0, i + 1);
            assert(pre.subrange(0, i as int) =~= v@.subrange(0, i as int));
            assert(pre[i as int] == v@[i as int]);
        }
        br_expr_exec(&v[i].key, sus, out);
        br_expr_exec(&v[i].value, sus, out);
        proof {
            assert(routing_views(out@) =~= o + br_entries(v@.subrange(0, i + 1), sus@));
        }
        i = i + 1;
    }
    proof {
        assert(v@.subrange(0, v@.len() as int) =~= v@);
    }
}

fn br_parts_exec(v: &Vec<StringPart>, sus: &NameSet, out: &mut Vec<BackgroundRoutingHint>)
    ensures
        routing_views(final(out)@) == routing_views(old(out)@) + br_parts(v@, sus@),
    decreases v,
{
    let ghost o = routing_views(out@);
    let mut i: usize = 0;
    proof {
        assert(v@.subrange(0, 0) =~= Seq::<StringPart>::empty());
        assert(routing_views(out@) =~= o + br_parts(v@.subrange(0, 0), sus@));
    }
    while i < v.len()
        invariant
            i <= v@.len(),
            routing_views(out@) == o + br_parts(v@.subrange(0, i as int), sus@),
        decreases v@.len() - i,
    {
        proof {
            let pre = v@.subrange(0, i + 1);
            assert(pre.subrange(0, i as int) =~= v@.subrange(0, i as int));
            assert(pre[i as int] == v@[i as int]);
        }
        match &v[i] {
            StringPart::Expr(e, _) => br_expr_exec(e, sus, out),
            StringPart::Text(_) => {},
        }
        proof {
            assert(routing_views(out@) =~= o + br_parts(v@.subrange(0, i + 1), sus@));
        }
        i = i + 1;
    }
    proof {
        assert(v@.subrange(0, v@.len() as int) =~= v@);
    }
}

fn br_stmt_exec(st: &Stmt, sus: &NameSet, out: &mut Vec<BackgroundRoutingHint>)
    ensures
        routing_views(final(out)@) == routing_views(old(out)@) + br_stmt(*st, sus@),
    decreases st,
{
    let ghost o = routing_views(out@);
    match st {
        Stmt::Expr(e) => br_expr_exec(e, sus, out),
        Stmt::Let { value, .. } => br_expr_exec(value, sus, out),
        Stmt::Assign { value, .. } => br_expr_exec(value, sus, out),
        Stmt::FieldAssign { value, .. } => br_expr_exec(value, sus, out),
        Stmt::IndexAssign { index, value, .. } => {
            br_expr_exec(index, sus, out);
            br_expr_exec(value, sus, out);
        },
        Stmt::Return { value, .. } => match value {
            Some(e) => br_expr_exec(e, sus, out),
            None => {},
        },
        Stmt::If { cond, body, .. } => {
            br_expr_exec(cond, sus, out);
            br_stmts_exec(&body.stmts, sus, out);
        },
        Stmt::While { cond, body, .. } => {
            br_expr_exec(cond, sus, out);
            br_stmts_exec(&body.stmts, sus, out);
        },
        Stmt::For { iter, body, .. } => {
            br_expr_exec(iter, sus, out);
            br_stmts_exec(&body.stmts, sus, out);
        },
        Stmt::Match { scrutinee, arms, else_arm, .. } => {
            br_expr_exec(scrutinee, sus, out);
            br_arms_exec(arms, sus, out);
            match else_arm {
                Some(b) => br_stmts_exec(&b.stmts, sus, out),
                None => {},
            }
        },
    }
    proof {
        assert(routing_views(out@) =~= o + br_stmt(*st, sus@));
    }
}

fn br_stmts_exec(v: &Vec<Stmt>, sus: &NameSet, out: &mut Vec<BackgroundRoutingHint>)
    ensures
        routing_views(final(out)@) == routing_views(old(out)@) + br_stmts(v@, sus@),
    decreases v,
{
    let ghost o = routing_views(out@);
    let mut i: usize = 0;
    proof {
        assert(v@.subrange(0, 0) =~= Seq::<Stmt>::empty());
        assert(routing_views(out@) =~= o + br_stmts(v@.subrange(0, 0), sus@));
    }
    while i < v.len()
        invariant
            i <= v@.len(),
            routing_views(out@) == o + br_stmts(v@.subrange(0, i as int), sus@),
        decreases v@.len() - i,
    {
        proof {
            let pre = v@.subrange(0, i + 1);
            assert(pre.subrange(0, i as int) =~= v@.subrange(0, i as int));
            assert(pre[i as int] == v@[i as int]);
        }
        br_stmt_exec(&v[i], sus, out);
        proof {
            assert(routing_views(out@) =~= o + br_stmts(v@.subrange(0, i + 1), sus@));
        }
        i = i + 1;
    }
    proof {
        assert(v@.subrange(0, v@.len() as int) =~= v@);
    }
}

fn br_arms_exec(v: &Vec<MatchArm>, sus: &NameSet, out: &mut Vec<BackgroundRoutingHint>)
    ensures
        routing_views(final(out)@) == routing_views(old(out)@) + br_arms(v@, sus@),
    decreases v,
{
    let ghost o = routing_views(out@);
    let mut i: usize = 0;
    proof {
        assert(v@.subrange(0, 0) =~= Seq::<MatchArm>::empty());
        assert(routing_views(out@) =~= o + br_arms(v@.subrange(0, 0), sus@));
    }
    while i < v.len()
        invariant
            i <= v@.len(),
            routing_views(out@) == o + br_arms(v@.subrange(0, i as int), sus@),
        decreases v@.len() - i,
    {
        proof {
            let pre = v@.subrange(0, i + 1);
            assert(pre.subrange(0, i as int) =~= v@.subrange(0, i as int));
            assert(pre[i as int] == v@[i as int]);
        }
        br_stmts_exec(&v[i].body.stmts, sus, out);
        proof {
            assert(routing_views(out@) =~= o + br_arms(v@.subrange(0, i + 1), sus@));
        }
        i = i + 1;
    }
    proof {
        assert(v@.subrange(0, v@.len() as int) =~= v@);
    }
}

/// A muted routing comment at the end of each `background` spawn: the I/O pool when the
/// spawned call's callee is in the effective suspend set, else the CPU pool, function by
/// function.
pub fn background_routing_hints(module: &Module, effective_suspends: &NameSet) -> (r: Vec<BackgroundRoutingHint>)
    ensures
        routing_views(r@) == module_routing_hints(local_decls(module.items@), effective_suspends@),
{
    let ghost decls = local_decls(module.items@);
    let positions = crate::ownership_fixpoint::function_item_positions(module);
    let mut out: Vec<BackgroundRoutingHint> = Vec::new();
    let mut k: usize = 0;
    proof {
        assert(decls.take(0) =~= Seq::<FunctionDecl>::empty());
        assert(routing_views(out@) =~= module_routing_hints(decls.take(0), effective_suspends@));
    }
    while k < positions.len()
        invariant
            k <= positions@.len(),
            decls == local_decls(module.items@),
            crate::ownership_fixpoint::positions_of(module.items@, positions@),
            routing_views(out@) == module_routing_hints(decls.take(k as int), effective_suspends@),
        decreases positions@.len() - k,
    {
        match &module.items[positions[k]] {
            Item::Function(f) => {
                proof {
                    assert(*f == decls[k as int]);
                    assert(decls.take(k + 1).drop_last() =~= decls.take(k as int));
                    assert(decls.take(k + 1).last() == *f);
                }
                br_stmts_exec(&f.body.stmts, effective_suspends, &mut out);
            },
            _ => {
                proof {
                    assert(false);
                }
            },
        }
        k = k + 1;
    }
    proof {
        assert(decls.take(k as int) =~= decls);
    }
    out
}

} // verus!
