//! The ownership call-site hint pass: the declared `share`/`lend`/`give` after each
//! argument of a resolvable call (a method call's receiver is its first argument), and the
//! inferred `give`/`copy` after each named argument of a `background` spawn.
use vstd::prelude::*;

use crate::inlay_hints::{bg_ownership_modifier_str, ownership_modifier_str, spec_ownership_modifier_str, BgOwnership, OwnershipHint};
use crate::maybe_mutated::{resolve_ownerships, resolved_ownerships, MutationContext, MutationEnv};
use crate::ownership_fixpoint::local_decls;
use crate::return_paths::{expr_span, expr_span_of};
use crate::syntax::{Expr, FunctionDecl, Item, MatchArm, Module, OwnershipModifier, Stmt, StringPart};
use crate::text::lit;

verus! {

/// The model of an [`OwnershipHint`].
pub open spec fn own_views(v: Seq<OwnershipHint>) -> Seq<(int, Seq<char>)> {
    v.map_values(|h: OwnershipHint| (h.position as int, h.modifier@))
}

/// The hint an argument at position `i` gets: the declared modifier after it, when the
/// parameter has one.
pub open spec fn arg_hint(arg: Expr, o: Seq<Option<OwnershipModifier>>, i: int) -> Seq<(int, Seq<char>)> {
    if 0 <= i < o.len() && o[i] is Some {
        seq![(expr_span(arg).end as int, spec_ownership_modifier_str(o[i]->0))]
    } else {
        Seq::empty()
    }
}

/// The ownership hints of an expression, in walk order.
pub open spec fn own_expr(e: Expr, env: MutationEnv) -> Seq<(int, Seq<char>)>
    decreases e,
{
    match e {
        Expr::Call(c) => {
            let resolved = match *c.callee {
                Expr::Ident(n, _) => resolved_ownerships(env, n@),
                _ => None,
            };
            match resolved {
                Some(o) => own_args(c.args@, o, 0, env),
                None => own_exprs(c.args@, env) + own_expr(*c.callee, env),
            }
        },
        Expr::MethodCall { receiver, method, args, .. } => match resolved_ownerships(env, method@) {
            Some(o) => arg_hint(*receiver, o, 0) + own_expr(*receiver, env) + own_args(args@, o, 1, env),
            None => own_expr(*receiver, env) + own_exprs(args@, env),
        },
        Expr::Wait(inner, _) => own_expr(*inner, env),
        Expr::Background(inner, _) => own_expr(*inner, env),
        Expr::Is { expr, .. } => own_expr(*expr, env),
        Expr::InterpolatedString(parts, _) => own_parts(parts@, env),
        _ => Seq::empty(),
    }
}

/// The arguments `s` of a resolved call whose first argument stands at position `offset`:
/// each its hint, then walked.
pub open spec fn own_args(s: Seq<Expr>, o: Seq<Option<OwnershipModifier>>, offset: int, env: MutationEnv) -> Seq<
    (int, Seq<char>),
>
    decreases s,
{
    if s.len() == 0 {
        Seq::empty()
    } else {
        own_args(s.subrange(0, s.len() - 1), o, offset, env) + arg_hint(s[s.len() - 1], o, offset + s.len() - 1)
            + own_expr(s[s.len() - 1], env)
    }
}

pub open spec fn own_exprs(s: Seq<Expr>, env: MutationEnv) -> Seq<(int, Seq<char>)>
    decreases s,
{
    if s.len() == 0 {
        Seq::empty()
    } else {
        own_exprs(s.subrange(0, s.len() - 1), env) + own_expr(s[s.len() - 1], env)
    }
}

pub open spec fn own_parts(s: Seq<StringPart>, env: MutationEnv) -> Seq<(int, Seq<char>)>
    decreases s,
{
    if s.len() == 0 {
        Seq::empty()
    } else {
        own_parts(s.subrange(0, s.len() - 1), env) + match s[s.len() - 1] {
            StringPart::Expr(e, _) => own_expr(e, env),
            StringPart::Text(_) => Seq::empty(),
        }
    }
}

/// The ownership hints of a statement (a `return` is not walked), then its nested blocks.
pub open spec fn own_stmt(st: Stmt, env: MutationEnv) -> Seq<(int, Seq<char>)>
    decreases st,
{
    match st {
        Stmt::Expr(e) => own_expr(e, env),
        Stmt::Let { value, .. } => own_expr(value, env),
        Stmt::Assign { value, .. } => own_expr(value, env),
        Stmt::FieldAssign { value, .. } => own_expr(value, env),
        Stmt::IndexAssign { index, value, .. } => own_expr(index, env) + own_expr(value, env),
        Stmt::If { cond, body, .. } => own_expr(cond, env) + own_stmts(body.stmts@, env),
        Stmt::Match { scrutinee, arms, else_arm, .. } => own_expr(scrutinee, env) + own_arms(arms@, env) + match else_arm {
            Some(b) => own_stmts(b.stmts@, env),
            None => Seq::empty(),
        },
        Stmt::While { cond, body, .. } => own_expr(cond, env) + own_stmts(body.stmts@, env),
        Stmt::For { iter, body, .. } => own_expr(iter, env) + own_stmts(body.stmts@, env),
        _ => Seq::empty(),
    }
}

pub open spec fn own_stmts(s: Seq<Stmt>, env: MutationEnv) -> Seq<(int, Seq<char>)>
    decreases s,
{
    if s.len() == 0 {
        Seq::empty()
    } else {
        own_stmts(s.subrange(0, s.len() - 1), env) + own_stmt(s[s.len() - 1], env)
    }
}

pub open spec fn own_arms(s: Seq<MatchArm>, env: MutationEnv) -> Seq<(int, Seq<char>)>
    decreases s,
{
    if s.len() == 0 {
        Seq::empty()
    } else {
        own_arms(s.subrange(0, s.len() - 1), env) + own_stmts(s[s.len() - 1].body.stmts@, env)
    }
}

/// The inferred modifier the type pass recorded for the argument at `key`: the first row.
pub open spec fn bg_at(rows: Seq<((usize, usize), BgOwnership)>, key: (usize, usize)) -> Option<BgOwnership>
    decreases rows.len(),
{
    if rows.len() == 0 {
        None
    } else if rows[0].0 == key {
        Some(rows[0].1)
    } else {
        bg_at(rows.subrange(1, rows.len() as int), key)
    }
}

pub open spec fn spec_bg_str(own: BgOwnership) -> Seq<char> {
    match own {
        BgOwnership::Give => "give"@,
        BgOwnership::Copy => "copy"@,
    }
}

/// The hints of the named arguments of a spawned call, in order.
pub open spec fn bg_args(s: Seq<Expr>, bg: Seq<((usize, usize), BgOwnership)>) -> Seq<(int, Seq<char>)>
    decreases s.len(),
{
    if s.len() == 0 {
        Seq::empty()
    } else {
        bg_args(s.drop_last(), bg) + match s.last() {
            Expr::Ident(_, sp) => match bg_at(bg, (sp.start, sp.end)) {
                Some(own) => seq![(sp.end as int, spec_bg_str(own))],
                None => Seq::empty(),
            },
            _ => Seq::empty(),
        }
    }
}

/// The `background` spawn hints of a statement: a spawn statement of a call hints its named
/// arguments; nested blocks are walked.
pub open spec fn bg_stmt(st: Stmt, bg: Seq<((usize, usize), BgOwnership)>) -> Seq<(int, Seq<char>)>
    decreases st,
{
    match st {
        Stmt::Expr(e) => match e {
            Expr::Background(inner, _) => match *inner {
                Expr::Call(c) => bg_args(c.args@, bg),
                _ => Seq::empty(),
            },
            _ => Seq::empty(),
        },
        Stmt::If { body, .. } => bg_stmts(body.stmts@, bg),
        Stmt::While { body, .. } => bg_stmts(body.stmts@, bg),
        Stmt::For { body, .. } => bg_stmts(body.stmts@, bg),
        Stmt::Match { arms, else_arm, .. } => bg_arms(arms@, bg) + match else_arm {
            Some(b) => bg_stmts(b.stmts@, bg),
            None => Seq::empty(),
        },
        _ => Seq::empty(),
    }
}

pub open spec fn bg_stmts(s: Seq<Stmt>, bg: Seq<((usize, usize), BgOwnership)>) -> Seq<(int, Seq<char>)>
    decreases s,
{
    if s.len() == 0 {
        Seq::empty()
    } else {
        bg_stmts(s.subrange(0, s.len() - 1), bg) + bg_stmt(s[s.len() - 1], bg)
    }
}

pub open spec fn bg_arms(s: Seq<MatchArm>, bg: Seq<((usize, usize), BgOwnership)>) -> Seq<(int, Seq<char>)>
    decreases s,
{
    if s.len() == 0 {
        Seq::empty()
    } else {
        bg_arms(s.subrange(0, s.len() - 1), bg) + bg_stmts(s[s.len() - 1].body.stmts@, bg)
    }
}

/// The ownership hints of the functions, then their `background` spawn hints.
pub open spec fn module_ownership_hints(decls: Seq<FunctionDecl>, env: MutationEnv) -> Seq<(int, Seq<char>)>
    decreases decls.len(),
{
    if decls.len() == 0 {
        Seq::empty()
    } else {
        module_ownership_hints(decls.drop_last(), env) + own_stmts(decls.last().body.stmts@, env)
    }
}

pub open spec fn module_bg_hints(decls: Seq<FunctionDecl>, bg: Seq<((usize, usize), BgOwnership)>) -> Seq<(int, Seq<char>)>
    decreases decls.len(),
{
    if decls.len() == 0 {
        Seq::empty()
    } else {
        module_bg_hints(decls.drop_last(), bg) + bg_stmts(decls.last().body.stmts@, bg)
    }
}

fn push_arg_hint(arg: &Expr, o: &Vec<Option<OwnershipModifier>>, i: usize, out: &mut Vec<OwnershipHint>)
    ensures
        own_views(final(out)@) == own_views(old(out)@) + arg_hint(*arg, o@, i as int),
{
    let ghost before = out@;
    if i < o.len() {
        match &o[i] {
            Some(own) => {
                let h = OwnershipHint { position: expr_span_of(arg).end, modifier: lit(ownership_modifier_str(own)) };
                out.push(h);
                proof {
                    assert(own_views(out@) =~= own_views(before).push((h.position as int, h.modifier@)));
                }
                return ;
            },
            None => {},
        }
    }
    proof {
        assert(own_views(out@) =~= own_views(before) + arg_hint(*arg, o@, i as int));
    }
}

fn own_expr_exec(e: &Expr, ctx: &MutationContext, out: &mut Vec<OwnershipHint>)
    ensures
        own_views(final(out)@) == own_views(old(out)@) + own_expr(*e, ctx@),
    decreases e,
{
    let ghost o = own_views(out@);
    match e {
        Expr::Call(c) => {
            let resolved = match &*c.callee {
                Expr::Ident(n, _) => resolve_ownerships(ctx, n.as_str()),
                _ => None,
            };
            match resolved {
                Some(ows) => own_args_exec(&c.args, ows, 0, ctx, out),
                None => {
                    own_exprs_exec(&c.args, ctx, out);
                    own_expr_exec(&c.callee, ctx, out);
                },
            }
        },
        Expr::MethodCall { receiver, method, args, .. } => match resolve_ownerships(ctx, method.as_str()) {
            Some(ows) => {
                push_arg_hint(receiver, ows, 0, out);
                own_expr_exec(receiver, ctx, out);
                own_args_exec(args, ows, 1, ctx, out);
            },
            None => {
                own_expr_exec(receiver, ctx, out);
                own_exprs_exec(args, ctx, out);
            },
        },
        Expr::Wait(inner, _) => own_expr_exec(inner, ctx, out),
        Expr::Background(inner, _) => own_expr_exec(inner, ctx, out),
        Expr::Is { expr, .. } => own_expr_exec(expr, ctx, out),
        Expr::InterpolatedString(parts, _) => own_parts_exec(parts, ctx, out),
        _ => {},
    }
    proof {
        assert(own_views(out@) =~= o + own_expr(*e, ctx@));
    }
}

fn own_args_exec(v: &Vec<Expr>, ows: &Vec<Option<OwnershipModifier>>, offset: usize, ctx: &MutationContext, out: &mut Vec<OwnershipHint>)
    requires
        offset <= 1,
    ensures
        own_views(final(out)@) == own_views(old(out)@) + own_args(v@, ows@, offset as int, ctx@),
    decreases v,
{
    let ghost o = own_views(out@);
    let mut i: usize = 0;
    proof {
        assert(v@.subrange(0, 0) =~= Seq::<Expr>::empty());
        assert(own_views(out@) =~= o + own_args(v@.subrange(0, 0), ows@, offset as int, ctx@));
    }
    while i < v.len()
        invariant
            i <= v@.len(),
            offset <= 1,
            own_views(out@) == o + own_args(v@.subrange(0, i as int), ows@, offset as int, ctx@),
        decreases v@.len() - i,
    {
        proof {
            let pre = v@.subrange(0, i + 1);
            assert(pre.subrange(0, i as int) =~= v@.subrange(0, i as int));
            assert(pre[i as int] == v@[i as int]);
        }
        push_arg_hint(&v[i], ows, i + offset, out);
        own_expr_exec(&v[i], ctx, out);
        proof {
            assert(own_views(out@) =~= o + own_args(v@.subrange(0, i + 1), ows@, offset as int, ctx@));
        }
        i = i + 1;
    }
    proof {
        assert(v@.subrange(0, v@.len() as int) =~= v@);
    }
}

fn own_exprs_exec(v: &Vec<Expr>, ctx: &MutationContext, out: &mut Vec<OwnershipHint>)
    ensures
        own_views(final(out)@) == own_views(old(out)@) + own_exprs(v@, ctx@),
    decreases v,
{
    let ghost o = own_views(out@);
    let mut i: usize = 0;
    proof {
        assert(v@.subrange(0, 0) =~= Seq::<Expr>::empty());
        assert(own_views(out@) =~= o + own_exprs(v@.subrange(0, 0), ctx@));
    }
    while i < v.len()
        invariant
            i <= v@.len(),
            own_views(out@) == o + own_exprs(v@.subrange(0, i as int), ctx@),
        decreases v@.len() - i,
    {
        proof {
            let pre = v@.subrange(0, i + 1);
            assert(pre.subrange(0, i as int) =~= v@.subrange(0, i as int));
            assert(pre[i as int] == v@[i as int]);
        }
        own_expr_exec(&v[i], ctx, out);
        proof {
            assert(own_views(out@) =~= o + own_exprs(v@.subrange(0, i + 1), ctx@));
        }
        i = i + 1;
    }
    proof {
        assert(v@.subrange(0, v@.len() as int) =~= v@);
    }
}

fn own_parts_exec(v: &Vec<StringPart>, ctx: &MutationContext, out: &mut Vec<OwnershipHint>)
    ensures
        own_views(final(out)@) == own_views(old(out)@) + own_parts(v@, ctx@),
    decreases v,
{
    let ghost o = own_views(out@);
    let mut i: usize = 0;
    proof {
        assert(v@.subrange(0, 0) =~= Seq::<StringPart>::empty());
        assert(own_views(out@) =~= o + own_parts(v@.subrange(0, 0), ctx@));
    }
    while i < v.len()
        invariant
            i <= v@.len(),
            own_views(out@) == o + own_parts(v@.subrange(0, i as int), ctx@),
        decreases v@.len() - i,
    {
        proof {
            let pre = v@.subrange(0, i + 1);
            assert(pre.subrange(0, i as int) =~= v@.subrange(0, i as int));
            assert(pre[i as int] == v@[i as int]);
        }
        match &v[i] {
            StringPart::Expr(e, _) => own_expr_exec(e, ctx, out),
            StringPart::Text(_) => {},
        }
        proof {
            assert(own_views(out@) =~= o + own_parts(v@.subrange(0, i + 1), ctx@));
        }
        i = i + 1;
    }
    proof {
        assert(v@.subrange(0, v@.len() as int) =~= v@);
    }
}

fn own_stmt_exec(st: &Stmt, ctx: &MutationContext, out: &mut Vec<OwnershipHint>)
    ensures
        own_views(final(out)@) == own_views(old(out)@) + own_stmt(*st, ctx@),
    decreases st,
{
    let ghost o = own_views(out@);
    match st {
        Stmt::Expr(e) => own_expr_exec(e, ctx, out),
        Stmt::Let { value, .. } => own_expr_exec(value, ctx, out),
        Stmt::Assign { value, .. } => own_expr_exec(value, ctx, out),
        Stmt::FieldAssign { value, .. } => own_expr_exec(value, ctx, out),
        Stmt::IndexAssign { index, value, .. } => {
            own_expr_exec(index, ctx, out);
            own_expr_exec(value, ctx, out);
        },
        Stmt::If { cond, body, .. } => {
            own_expr_exec(cond, ctx, out);
            own_stmts_exec(&body.stmts, ctx, out);
        },
        Stmt::Match { scrutinee, arms, else_arm, .. } => {
            own_expr_exec(scrutinee, ctx, out);
            own_arms_exec(arms, ctx, out);
            match else_arm {
                Some(b) => own_stmts_exec(&b.stmts, ctx, out),
                None => {},
            }
        },
        Stmt::While { cond, body, .. } => {
            own_expr_exec(cond, ctx, out);
            own_stmts_exec(&body.stmts, ctx, out);
        },
        Stmt::For { iter, body, .. } => {
            own_expr_exec(iter, ctx, out);
            own_stmts_exec(&body.stmts, ctx, out);
        },
        _ => {},
    }
    proof {
        assert(own_views(out@) =~= o + own_stmt(*st, ctx@));
    }
}

fn own_stmts_exec(v: &Vec<Stmt>, ctx: &MutationContext, out: &mut Vec<OwnershipHint>)
    ensures
        own_views(final(out)@) == own_views(old(out)@) + own_stmts(v@, ctx@),
    decreases v,
{
    let ghost o = own_views(out@);
    let mut i: usize = 0;
    proof {
        assert(v@.subrange(0, 0) =~= Seq::<Stmt>::empty());
        assert(own_views(out@) =~= o + own_stmts(v@.subrange(0, 0), ctx@));
    }
    while i < v.len()
        invariant
            i <= v@.len(),
            own_views(out@) == o + own_stmts(v@.subrange(0, i as int), ctx@),
        decreases v@.len() - i,
    {
        proof {
            let pre = v@.subrange(0, i + 1);
            assert(pre.subrange(0, i as int) =~= v@.subrange(0, i as int));
            assert(pre[i as int] == v@[i as int]);
        }
        own_stmt_exec(&v[i], ctx, out);
        proof {
            assert(own_views(out@) =~= o + own_stmts(v@.subrange(0, i + 1), ctx@));
        }
        i = i + 1;
    }
    proof {
        assert(v@.subrange(0, v@.len() as int) =~= v@);
    }
}

fn own_arms_exec(v: &Vec<MatchArm>, ctx: &MutationContext, out: &mut Vec<OwnershipHint>)
    ensures
        own_views(final(out)@) == own_views(old(out)@) + own_arms(v@, ctx@),
    decreases v,
{
    let ghost o = own_views(out@);
    let mut i: usize = 0;
    proof {
        assert(v@.subrange(0, 0) =~= Seq::<MatchArm>::empty());
        assert(own_views(out@) =~= o + own_arms(v@.subrange(0, 0), ctx@));
    }
    while i < v.len()
        invariant
            i <= v@.len(),
            own_views(out@) == o + own_arms(v@.subrange(0, i as int), ctx@),
        decreases v@.len() - i,
    {
        proof {
            let pre = v@.subrange(0, i + 1);
            assert(pre.subrange(0, i as int) =~= v@.subrange(0, i as int));
            assert(pre[i as int] == v@[i as int]);
        }
        own_stmts_exec(&v[i].body.stmts, ctx, out);
        proof {
            assert(own_views(out@) =~= o + own_arms(v@.subrange(0, i + 1), ctx@));
        }
        i = i + 1;
    }
    proof {
        assert(v@.subrange(0, v@.len() as int) =~= v@);
    }
}

fn bg_at_exec(rows: &Vec<((usize, usize), BgOwnership)>, key: (usize, usize)) -> (r: Option<BgOwnership>)
    ensures
        r == bg_at(rows@, key),
{
    let mut i: usize = 0;
    proof {
        assert(rows@.subrange(0, rows@.len() as int) =~= rows@);
    }
    while i < rows.len()
        invariant
            i <= rows@.len(),
            bg_at(rows@, key) == bg_at(rows@.subrange(i as int, rows@.len() as int), key),
        decreases rows@.len() - i,
    {
        let ghost rest = rows@.subrange(i as int, rows@.len() as int);
        proof {
            assert(rest[0] == rows@[i as int]);
            assert(rest.subrange(1, rest.len() as int) =~= rows@.subrange(i + 1, rows@.len() as int));
        }
        if rows[i].0.0 == key.0 && rows[i].0.1 == key.1 {
            return Some(rows[i].1);
        }
        i = i + 1;
    }
    proof {
        assert(rows@.subrange(i as int, rows@.len() as int).len() == 0);
    }
    None
}

fn bg_args_exec(v: &Vec<Expr>, bg: &Vec<((usize, usize), BgOwnership)>, out: &mut Vec<OwnershipHint>)
    ensures
        own_views(final(out)@) == own_views(old(out)@) + bg_args(v@, bg@),
{
    let ghost o = own_views(out@);
    let mut i: usize = 0;
    proof {
        assert(v@.take(0) =~= Seq::<Expr>::empty());
        assert(own_views(out@) =~= o + bg_args(v@.take(0), bg@));
    }
    while i < v.len()
        invariant
            i <= v@.len(),
            own_views(out@) == o + bg_args(v@.take(i as int), bg@),
        decreases v@.len() - i,
    {
        proof {
            assert(v@.take(i + 1).drop_last() =~= v@.take(i as int));
            assert(v@.take(i + 1).last() == v@[i as int]);
        }
        let ghost before = out@;
        match &v[i] {
            Expr::Ident(_, sp) => match bg_at_exec(bg, (sp.start, sp.end)) {
                Some(own) => {
                    let h = OwnershipHint { position: sp.end, modifier: lit(bg_ownership_modifier_str(&own)) };
                    out.push(h);
                    proof {
                        assert(own_views(out@) =~= own_views(before).push((h.position as int, h.modifier@)));
                    }
                },
                None => {},
            },
            _ => {},
        }
        proof {
            assert(own_views(out@) =~= o + bg_args(v@.take(i + 1), bg@));
        }
        i = i + 1;
    }
    proof {
        assert(v@.take(i as int) =~= v@);
    }
}

fn bg_stmt_exec(st: &Stmt, bg: &Vec<((usize, usize), BgOwnership)>, out: &mut Vec<OwnershipHint>)
    ensures
        own_views(final(out)@) == own_views(old(out)@) + bg_stmt(*st, bg@),
    decreases st,
{
    let ghost o = own_views(out@);
    match st {
        Stmt::Expr(e) => match e {
            Expr::Background(inner, _) => match &**inner {
                Expr::Call(c) => bg_args_exec(&c.args, bg, out),
                _ => {},
            },
            _ => {},
        },
        Stmt::If { body, .. } => bg_stmts_exec(&body.stmts, bg, out),
        Stmt::While { body, .. } => bg_stmts_exec(&body.stmts, bg, out),
        Stmt::For { body, .. } => bg_stmts_exec(&body.stmts, bg, out),
        Stmt::Match { arms, else_arm, .. } => {
            bg_arms_exec(arms, bg, out);
            match else_arm {
                Some(b) => bg_stmts_exec(&b.stmts, bg, out),
                None => {},
            }
        },
        _ => {},
    }
    proof {
        assert(own_views(out@) =~= o + bg_stmt(*st, bg@));
    }
}

fn bg_stmts_exec(v: &Vec<Stmt>, bg: &Vec<((usize, usize), BgOwnership)>, out: &mut Vec<OwnershipHint>)
    ensures
        own_views(final(out)@) == own_views(old(out)@) + bg_stmts(v@, bg@),
    decreases v,
{
    let ghost o = own_views(out@);
    let mut i: usize = 0;
    proof {
        assert(v@.subrange(0, 0) =~= Seq::<Stmt>::empty());
        assert(own_views(out@) =~= o + bg_stmts(v@.subrange(0, 0), bg@));
    }
    while i < v.len()
        invariant
            i <= v@.len(),
            own_views(out@) == o + bg_stmts(v@.subrange(0, i as int), bg@),
        decreases v@.len() - i,
    {
        proof {
            let pre = v@.subrange(0, i + 1);
            assert(pre.subrange(0, i as int) =~= v@.subrange(0, i as int));
            assert(pre[i as int] == v@[i as int]);
        }
        bg_stmt_exec(&v[i], bg, out);
        proof {
            assert(own_views(out@) =~= o + bg_stmts(v@.subrange(0, i + 1), bg@));
        }
        i = i + 1;
    }
    proof {
        assert(v@.subrange(0, v@.len() as int) =~= v@);
    }
}

fn bg_arms_exec(v: &Vec<MatchArm>, bg: &Vec<((usize, usize), BgOwnership)>, out: &mut Vec<OwnershipHint>)
    ensures
        own_views(final(out)@) == own_views(old(out)@) + bg_arms(v@, bg@),
    decreases v,
{
    let ghost o = own_views(out@);
    let mut i: usize = 0;
    proof {
        assert(v@.subrange(0, 0) =~= Seq::<MatchArm>::empty());
        assert(own_views(out@) =~= o + bg_arms(v@.subrange(0, 0), bg@));
    }
    while i < v.len()
        invariant
            i <= v@.len(),
            own_views(out@) == o + bg_arms(v@.subrange(0, i as int), bg@),
        decreases v@.len() - i,
    {
        proof {
            let pre = v@.subrange(0, i + 1);
            assert(pre.subrange(0, i as int) =~= v@.subrange(0, i as int));
            assert(pre[i as int] == v@[i as int]);
        }
        bg_stmts_exec(&v[i].body.stmts, bg, out);
        proof {
            assert(own_views(out@) =~= o + bg_arms(v@.subrange(0, i + 1), bg@));
        }
        i = i + 1;
    }
    proof {
        assert(v@.subrange(0, v@.len() as int) =~= v@);
    }
}

/// The declared `share`/`lend`/`give` after each argument of every call whose callee
/// resolves (local, imported, then generic signatures; a method call's receiver is its
/// first argument), function by function; then the inferred `give`/`copy` the type pass
/// recorded for each named argument of a `background` spawn statement.
pub fn ownership_call_site_hints(
    module: &Module,
    ctx: &MutationContext,
    bg_inferred: &Vec<((usize, usize), BgOwnership)>,
) -> (r: Vec<OwnershipHint>)
    ensures
        own_views(r@) == module_ownership_hints(local_decls(module.items@), ctx@) + module_bg_hints(
            local_decls(module.items@),
            bg_inferred@,
        ),
{
    let ghost decls = local_decls(module.items@);
    let positions = crate::ownership_fixpoint::function_item_positions(module);
    let mut out: Vec<OwnershipHint> = Vec::new();
    let mut k: usize = 0;
    proof {
        assert(decls.take(0) =~= Seq::<FunctionDecl>::empty());
        assert(own_views(out@) =~= module_ownership_hints(decls.take(0), ctx@));
    }
    while k < positions.len()
        invariant
            k <= positions@.len(),
            decls == local_decls(module.items@),
            crate::ownership_fixpoint::positions_of(module.items@, positions@),
            own_views(out@) == module_ownership_hints(decls.take(k as int), ctx@),
        decreases positions@.len() - k,
    {
        match &module.items[positions[k]] {
            Item::Function(f) => {
                proof {
                    assert(*f == decls[k as int]);
                    assert(decls.take(k + 1).drop_last() =~= decls.take(k as int));
                    assert(decls.take(k + 1).last() == *f);
                }
                own_stmts_exec(&f.body.stmts, ctx, &mut out);
            },
            _ => {
                proof {
                    assert(false);
                }
            },
        }
        k = k + 1;
    }
    proof {
        assert(decls.take(k as int) =~= decls);
    }
    let ghost first = own_views(out@);
    let mut j: usize = 0;
    proof {
        assert(own_views(out@) =~= first + module_bg_hints(decls.take(0), bg_inferred@));
    }
    while j < positions.len()
        invariant
            j <= positions@.len(),
            decls == local_decls(module.items@),
            crate::ownership_fixpoint::positions_of(module.items@, positions@),
            own_views(out@) == first + module_bg_hints(decls.take(j as int), bg_inferred@),
        decreases positions@.len() - j,
    {
        match &module.items[positions[j]] {
            Item::Function(f) => {
                proof {
                    assert(*f == decls[j as int]);
                    assert(decls.take(j + 1).drop_last() =~= decls.take(j as int));
                    assert(decls.take(j + 1).last() == *f);
                }
                bg_stmts_exec(&f.body.stmts, bg_inferred, &mut out);
                proof {
                    assert(own_views(out@) =~= first + module_bg_hints(decls.take(j + 1), bg_inferred@));
                }
            },
            _ => {
                proof {
                    assert(false);
                }
            },
        }
        j = j + 1;
    }
    proof {
        assert(decls.take(j as int) =~= decls);
    }
    out
}

} // verus!
