//! Ownership contract violations found after the effective-ownership fixpoint: a `share`
//! parameter lent onward to a callee that writes it, and one call that receives the same
//! value twice where a position may modify it.
use vstd::prelude::*;

use crate::diagnostics::{SourceSpan, SpanView};
use crate::effective_ownership::{
    call_position, classify_call_position, spec_arg_is_binding, arg_is_binding, ClassifyEnv, EffectiveOwnership,
    EffectiveOwnershipReport, OwnershipContext,
};
use crate::names::NameSet;
use crate::ownership_fixpoint::{function_item_positions, local_decls};
use crate::syntax::{
    AstType, Expr, FieldInit, FunctionDecl, Item, MapEntryLit, MatchArm, Module, OwnershipModifier, Param, Stmt,
    StringPart,
};
use crate::text::lit;

verus! {

/// The first of two results.
pub open spec fn or_else<T>(a: Option<T>, b: Option<T>) -> Option<T> {
    match a {
        Some(_) => a,
        None => b,
    }
}

/// Some argument that is exactly the binding `p` stands, at call position `offset` plus
/// its index, where `callee` writes.
pub open spec fn passes_to_writer(
    p: Seq<char>,
    callee: Option<Seq<char>>,
    args: Seq<Expr>,
    offset: int,
    env: ClassifyEnv,
) -> bool {
    exists|i: int|
        0 <= i < args.len() && spec_arg_is_binding(#[trigger] args[i], p) && call_position(env, callee, i + offset)
            == EffectiveOwnership::Writes
}

/// The first call in `e` (in evaluation order, a call before its arguments) where the
/// binding `p` is passed at a position whose callee writes: the callee's name and the
/// call's span.
pub open spec fn ws_expr(p: Seq<char>, e: Expr, env: ClassifyEnv) -> Option<(Seq<char>, SpanView)>
    decreases e,
{
    match e {
        Expr::Call(c) => {
            let callee = match *c.callee {
                Expr::Ident(n, _) => Some(n@),
                _ => None,
            };
            if passes_to_writer(p, callee, c.args@, 0, env) {
                Some(
                    (
                        match callee {
                            Some(n) => n,
                            None => "a function"@,
                        },
                        c.span@,
                    ),
                )
            } else {
                ws_exprs(p, c.args@, env)
            }
        },
        Expr::MethodCall { receiver, method, args, span } => {
            if (spec_arg_is_binding(*receiver, p) && call_position(env, Some(method@), 0)
                == EffectiveOwnership::Writes) || passes_to_writer(p, Some(method@), args@, 1, env) {
                Some((method@, span@))
            } else {
                or_else(ws_expr(p, *receiver, env), ws_exprs(p, args@, env))
            }
        },
        Expr::BinOp { lhs, rhs, .. } => or_else(ws_expr(p, *lhs, env), ws_expr(p, *rhs, env)),
        Expr::UnaryOp { operand, .. } => ws_expr(p, *operand, env),
        Expr::FieldAccess { receiver, .. } => ws_expr(p, *receiver, env),
        Expr::IndexAccess { receiver, index, .. } => or_else(ws_expr(p, *receiver, env), ws_expr(p, *index, env)),
        Expr::Wait(inner, _) => ws_expr(p, *inner, env),
        Expr::Background(inner, _) => ws_expr(p, *inner, env),
        Expr::Is { expr, .. } => ws_expr(p, *expr, env),
        Expr::PostfixOp { receiver, .. } => ws_expr(p, *receiver, env),
        Expr::StructLit { fields, .. } => ws_fields(p, fields@, env),
        Expr::ArrayLit { elements, .. } => ws_exprs(p, elements@, env),
        Expr::MapLit { entries, .. } => ws_entries(p, entries@, env),
        Expr::InterpolatedString(parts, _) => ws_parts(p, parts@, env),
        _ => None,
    }
}

pub open spec fn ws_exprs(p: Seq<char>, s: Seq<Expr>, env: ClassifyEnv) -> Option<(Seq<char>, SpanView)>
    decreases s,
{
    if s.len() == 0 {
        None
    } else {
        or_else(ws_exprs(p, s.subrange(0, s.len() - 1), env), ws_expr(p, s[s.len() - 1], env))
    }
}

pub open spec fn ws_fields(p: Seq<char>, s: Seq<FieldInit>, env: ClassifyEnv) -> Option<(Seq<char>, SpanView)>
    decreases s,
{
    if s.len() == 0 {
        None
    } else {
        or_else(ws_fields(p, s.subrange(0, s.len() - 1), env), ws_expr(p, s[s.len() - 1].value, env))
    }
}

pub open spec fn ws_entries(p: Seq<char>, s: Seq<MapEntryLit>, env: ClassifyEnv) -> Option<(Seq<char>, SpanView)>
    decreases s,
{
    if s.len() == 0 {
        None
    } else {
        or_else(
            ws_entries(p, s.subrange(0, s.len() - 1), env),
            or_else(ws_expr(p, s[s.len() - 1].key, env), ws_expr(p, s[s.len() - 1].value, env)),
        )
    }
}

pub open spec fn ws_parts(p: Seq<char>, s: Seq<StringPart>, env: ClassifyEnv) -> Option<(Seq<char>, SpanView)>
    decreases s,
{
    if s.len() == 0 {
        None
    } else {
        or_else(
            ws_parts(p, s.subrange(0, s.len() - 1), env),
            match s[s.len() - 1] {
                StringPart::Expr(e, _) => ws_expr(p, e, env),
                StringPart::Text(_) => None,
            },
        )
    }
}

/// The first write site of `p` in a statement.
pub open spec fn ws_stmt(p: Seq<char>, st: Stmt, env: ClassifyEnv) -> Option<(Seq<char>, SpanView)>
    decreases st,
{
    match st {
        Stmt::Expr(e) => ws_expr(p, e, env),
        Stmt::Let { value, .. } => ws_expr(p, value, env),
        Stmt::Assign { value, .. } => ws_expr(p, value, env),
        Stmt::Return { value, .. } => match value {
            Some(e) => ws_expr(p, e, env),
            None => None,
        },
        Stmt::FieldAssign { target, value, .. } => or_else(ws_expr(p, target, env), ws_expr(p, value, env)),
        Stmt::IndexAssign { receiver, index, value, .. } => or_else(
            ws_expr(p, receiver, env),
            or_else(ws_expr(p, index, env), ws_expr(p, value, env)),
        ),
        Stmt::If { cond, body, .. } => or_else(ws_expr(p, cond, env), ws_stmts(p, body.stmts@, env)),
        Stmt::While { cond, body, .. } => or_else(ws_expr(p, cond, env), ws_stmts(p, body.stmts@, env)),
        Stmt::For { iter, body, .. } => or_else(ws_expr(p, iter, env), ws_stmts(p, body.stmts@, env)),
        Stmt::Match { scrutinee, arms, else_arm, .. } => or_else(
            ws_expr(p, scrutinee, env),
            or_else(
                ws_arms(p, arms@, env),
                match else_arm {
                    Some(b) => ws_stmts(p, b.stmts@, env),
                    None => None,
                },
            ),
        ),
    }
}

/// The first write site of `p` in a statement list.
pub open spec fn ws_stmts(p: Seq<char>, s: Seq<Stmt>, env: ClassifyEnv) -> Option<(Seq<char>, SpanView)>
    decreases s,
{
    if s.len() == 0 {
        None
    } else {
        or_else(ws_stmts(p, s.subrange(0, s.len() - 1), env), ws_stmt(p, s[s.len() - 1], env))
    }
}

pub open spec fn ws_arms(p: Seq<char>, s: Seq<MatchArm>, env: ClassifyEnv) -> Option<(Seq<char>, SpanView)>
    decreases s,
{
    if s.len() == 0 {
        None
    } else {
        or_else(ws_arms(p, s.subrange(0, s.len() - 1), env), ws_stmts(p, s[s.len() - 1].body.stmts@, env))
    }
}

fn passes_binding_to_writer(
    p: &str,
    callee: Option<&str>,
    args: &Vec<Expr>,
    offset: usize,
    ctx: &OwnershipContext,
) -> (b: bool)
    requires
        offset <= 1,
    ensures
        b == passes_to_writer(
            p@,
            match callee {
                Some(n) => Some(n@),
                None => None,
            },
            args@,
            offset as int,
            ctx@,
        ),
{
    let ghost cs = match callee {
        Some(n) => Some(n@),
        None => None,
    };
    let mut i: usize = 0;
    while i < args.len()
        invariant
            i <= args@.len(),
            offset <= 1,
            cs == match callee {
                Some(n) => Some(n@),
                None => None::<Seq<char>>,
            },
            forall|j: int|
                0 <= j < i ==> !(spec_arg_is_binding(#[trigger] args@[j], p@) && call_position(ctx@, cs, j + offset)
                    == EffectiveOwnership::Writes),
        decreases args@.len() - i,
    {
        if arg_is_binding(&args[i], p) && matches!(classify_call_position(callee, i + offset, ctx), EffectiveOwnership::Writes) {
            proof {
                assert(spec_arg_is_binding(args@[i as int], p@));
            }
            return true;
        }
        i = i + 1;
    }
    false
}

/// The first call in `e` where the binding `p` flows into a writing position.
pub fn first_write_site_in_expr(p: &str, e: &Expr, ctx: &OwnershipContext) -> (r: Option<(String, SourceSpan)>)
    ensures
        match r {
            Some(site) => ws_expr(p@, *e, ctx@) == Some((site.0@, site.1@)),
            None => ws_expr(p@, *e, ctx@) is None,
        },
    decreases e,
{
    match e {
        Expr::Call(c) => {
            let callee: Option<&str> = match &*c.callee {
                Expr::Ident(n, _) => Some(n.as_str()),
                _ => None,
            };
            if passes_binding_to_writer(p, callee, &c.args, 0, ctx) {
                let name = match callee {
                    Some(n) => lit(n),
                    None => lit("a function"),
                };
                proof {
                    reveal_strlit("a function");
                }
                return Some((name, c.span.duplicate()));
            }
            first_write_site_in_exprs(p, &c.args, ctx)
        },
        Expr::MethodCall { receiver, method, args, span } => {
            if (arg_is_binding(receiver, p) && matches!(
                classify_call_position(Some(method.as_str()), 0, ctx),
                EffectiveOwnership::Writes
            )) || passes_binding_to_writer(p, Some(method.as_str()), args, 1, ctx) {
                return Some((method.clone(), span.duplicate()));
            }
            match first_write_site_in_expr(p, receiver, ctx) {
                Some(s) => Some(s),
                None => first_write_site_in_exprs(p, args, ctx),
            }
        },
        Expr::BinOp { lhs, rhs, .. } => match first_write_site_in_expr(p, lhs, ctx) {
            Some(s) => Some(s),
            None => first_write_site_in_expr(p, rhs, ctx),
        },
        Expr::UnaryOp { operand, .. } => first_write_site_in_expr(p, operand, ctx),
        Expr::FieldAccess { receiver, .. } => first_write_site_in_expr(p, receiver, ctx),
        Expr::IndexAccess { receiver, index, .. } => match first_write_site_in_expr(p, receiver, ctx) {
            Some(s) => Some(s),
            None => first_write_site_in_expr(p, index, ctx),
        },
        Expr::Wait(inner, _) => first_write_site_in_expr(p, inner, ctx),
        Expr::Background(inner, _) => first_write_site_in_expr(p, inner, ctx),
        Expr::Is { expr, .. } => first_write_site_in_expr(p, expr, ctx),
        Expr::PostfixOp { receiver, .. } => first_write_site_in_expr(p, receiver, ctx),
        Expr::StructLit { fields, .. } => first_write_site_in_fields(p, fields, ctx),
        Expr::ArrayLit { elements, .. } => first_write_site_in_exprs(p, elements, ctx),
        Expr::MapLit { entries, .. } => first_write_site_in_entries(p, entries, ctx),
        Expr::InterpolatedString(parts, _) => first_write_site_in_parts(p, parts, ctx),
        _ => None,
    }
}

fn first_write_site_in_exprs(p: &str, v: &Vec<Expr>, ctx: &OwnershipContext) -> (r: Option<(String, SourceSpan)>)
    ensures
        match r {
            Some(site) => ws_exprs(p@, v@, ctx@) == Some((site.0@, site.1@)),
            None => ws_exprs(p@, v@, ctx@) is None,
        },
    decreases v,
{
    let mut i: usize = 0;
    proof {
        assert(v@.subrange(0, 0) =~= Seq::<Expr>::empty());
    }
    while i < v.len()
        invariant
            i <= v@.len(),
            ws_exprs(p@, v@.subrange(0, i as int), ctx@) is None,
        decreases v@.len() - i,
    {
        proof {
            let pre = v@.subrange(0, i + 1);
            assert(pre.subrange(0, i as int) =~= v@.subrange(0, i as int));
            assert(pre[i as int] == v@[i as int]);
        }
        match first_write_site_in_expr(p, &v[i], ctx) {
            Some(s) => {
                proof {
                    lemma_ws_exprs_prefix(p@, v@, i + 1, ctx@);
                }
                return Some(s);
            },
            None => {},
        }
        i = i + 1;
    }
    proof {
        assert(v@.subrange(0, v@.len() as int) =~= v@);
    }
    None
}

/// A result found in a prefix of a list stands for the whole list.
proof fn lemma_ws_exprs_prefix(p: Seq<char>, s: Seq<Expr>, k: int, env: ClassifyEnv)
    requires
        0 <= k <= s.len(),
        ws_exprs(p, s.subrange(0, k), env) is Some,
    ensures
        ws_exprs(p, s, env) == ws_exprs(p, s.subrange(0, k), env),
    decreases s.len() - k,
{
    if k < s.len() {
        let pre = s.subrange(0, k + 1);
        assert(pre.subrange(0, k) =~= s.subrange(0, k));
        lemma_ws_exprs_prefix(p, s, k + 1, env);
    } else {
        assert(s.subrange(0, k) =~= s);
    }
}

fn first_write_site_in_fields(p: &str, v: &Vec<FieldInit>, ctx: &OwnershipContext) -> (r: Option<(String, SourceSpan)>)
    ensures
        match r {
            Some(site) => ws_fields(p@, v@, ctx@) == Some((site.0@, site.1@)),
            None => ws_fields(p@, v@, ctx@) is None,
        },
    decreases v,
{
    let mut i: usize = 0;
    proof {
        assert(v@.subrange(0, 0) =~= Seq::<FieldInit>::empty());
    }
    while i < v.len()
        invariant
            i <= v@.len(),
            ws_fields(p@, v@.subrange(0, i as int), ctx@) is None,
        decreases v@.len() - i,
    {
        proof {
            let pre = v@.subrange(0, i + 1);
            assert(pre.subrange(0, i as int) =~= v@.subrange(0, i as int));
            assert(pre[i as int] == v@[i as int]);
        }
        match first_write_site_in_expr(p, &v[i].value, ctx) {
            Some(s) => {
                proof {
                    lemma_ws_fields_prefix(p@, v@, i + 1, ctx@);
                }
                return Some(s);
            },
            None => {},
        }
        i = i + 1;
    }
    proof {
        assert(v@.subrange(0, v@.len() as int) =~= v@);
    }
    None
}

proof fn lemma_ws_fields_prefix(p: Seq<char>, s: Seq<FieldInit>, k: int, env: ClassifyEnv)
    requires
        0 <= k <= s.len(),
        ws_fields(p, s.subrange(0, k), env) is Some,
    ensures
        ws_fields(p, s, env) == ws_fields(p, s.subrange(0, k), env),
    decreases s.len() - k,
{
    if k < s.len() {
        let pre = s.subrange(0, k + 1);
        assert(pre.subrange(0, k) =~= s.subrange(0, k));
        lemma_ws_fields_prefix(p, s, k + 1, env);
    } else {
        assert(s.subrange(0, k) =~= s);
    }
}

fn first_write_site_in_entries(p: &str, v: &Vec<MapEntryLit>, ctx: &OwnershipContext) -> (r: Option<(String, SourceSpan)>)
    ensures
        match r {
            Some(site) => ws_entries(p@, v@, ctx@) == Some((site.0@, site.1@)),
            None => ws_entries(p@, v@, ctx@) is None,
        },
    decreases v,
{
    let mut i: usize = 0;
    proof {
        assert(v@.subrange(0, 0) =~= Seq::<MapEntryLit>::empty());
    }
    while i < v.len()
        invariant
            i <= v@.len(),
            ws_entries(p@, v@.subrange(0, i as int), ctx@) is None,
        decreases v@.len() - i,
    {
        proof {
            let pre = v@.subrange(0, i + 1);
            assert(pre.subrange(0, i as int) =~= v@.subrange(0, i as int));
            assert(pre[i as int] == v@[i as int]);
        }
        match first_entry_site(p, &v[i], ctx) {
            Some(s) => {
                proof {
                    lemma_ws_entries_prefix(p@, v@, i + 1, ctx@);
                }
                return Some(s);
            },
            None => {},
        }
        i = i + 1;
    }
    proof {
        assert(v@.subrange(0, v@.len() as int) =~= v@);
    }
    None
}

proof fn lemma_ws_entries_prefix(p: Seq<char>, s: Seq<MapEntryLit>, k: int, env: ClassifyEnv)
    requires
        0 <= k <= s.len(),
        ws_entries(p, s.subrange(0, k), env) is Some,
    ensures
        ws_entries(p, s, env) == ws_entries(p, s.subrange(0, k), env),
    decreases s.len() - k,
{
    if k < s.len() {
        let pre = s.subrange(0, k + 1);
        assert(pre.subrange(0, k) =~= s.subrange(0, k));
        lemma_ws_entries_prefix(p, s, k + 1, env);
    } else {
        assert(s.subrange(0, k) =~= s);
    }
}

fn first_write_site_in_parts(p: &str, v: &Vec<StringPart>, ctx: &OwnershipContext) -> (r: Option<(String, SourceSpan)>)
    ensures
        match r {
            Some(site) => ws_parts(p@, v@, ctx@) == Some((site.0@, site.1@)),
            None => ws_parts(p@, v@, ctx@) is None,
        },
    decreases v,
{
    let mut i: usize = 0;
    proof {
        assert(v@.subrange(0, 0) =~= Seq::<StringPart>::empty());
    }
    while i < v.len()
        invariant
            i <= v@.len(),
            ws_parts(p@, v@.subrange(0, i as int), ctx@) is None,
        decreases v@.len() - i,
    {
        proof {
            let pre = v@.subrange(0, i + 1);
            assert(pre.subrange(0, i as int) =~= v@.subrange(0, i as int));
            assert(pre[i as int] == v@[i as int]);
        }
        match first_part_site(p, &v[i], ctx) {
            Some(s) => {
                proof {
                    lemma_ws_parts_prefix(p@, v@, i + 1, ctx@);
                }
                return Some(s);
            },
            None => {},
        }
        i = i + 1;
    }
    proof {
        assert(v@.subrange(0, v@.len() as int) =~= v@);
    }
    None
}

proof fn lemma_ws_parts_prefix(p: Seq<char>, s: Seq<StringPart>, k: int, env: ClassifyEnv)
    requires
        0 <= k <= s.len(),
        ws_parts(p, s.subrange(0, k), env) is Some,
    ensures
        ws_parts(p, s, env) == ws_parts(p, s.subrange(0, k), env),
    decreases s.len() - k,
{
    if k < s.len() {
        let pre = s.subrange(0, k + 1);
        assert(pre.subrange(0, k) =~= s.subrange(0, k));
        lemma_ws_parts_prefix(p, s, k + 1, env);
    } else {
        assert(s.subrange(0, k) =~= s);
    }
}

fn first_write_site_in_stmts(p: &str, v: &Vec<Stmt>, ctx: &OwnershipContext) -> (r: Option<(String, SourceSpan)>)
    ensures
        match r {
            Some(site) => ws_stmts(p@, v@, ctx@) == Some((site.0@, site.1@)),
            None => ws_stmts(p@, v@, ctx@) is None,
        },
    decreases v,
{
    let mut i: usize = 0;
    proof {
        assert(v@.subrange(0, 0) =~= Seq::<Stmt>::empty());
    }
    while i < v.len()
        invariant
            i <= v@.len(),
            ws_stmts(p@, v@.subrange(0, i as int), ctx@) is None,
        decreases v@.len() - i,
    {
        proof {
            let pre = v@.subrange(0, i + 1);
            assert(pre.subrange(0, i as int) =~= v@.subrange(0, i as int));
            assert(pre[i as int] == v@[i as int]);
        }
        match first_write_site_in_stmt(p, &v[i], ctx) {
            Some(s) => {
                proof {
                    lemma_ws_stmts_prefix(p@, v@, i + 1, ctx@);
                }
                return Some(s);
            },
            None => {},
        }
        i = i + 1;
    }
    proof {
        assert(v@.subrange(0, v@.len() as int) =~= v@);
    }
    None
}

proof fn lemma_ws_stmts_prefix(p: Seq<char>, s: Seq<Stmt>, k: int, env: ClassifyEnv)
    requires
        0 <= k <= s.len(),
        ws_stmts(p, s.subrange(0, k), env) is Some,
    ensures
        ws_stmts(p, s, env) == ws_stmts(p, s.subrange(0, k), env),
    decreases s.len() - k,
{
    if k < s.len() {
        let pre = s.subrange(0, k + 1);
        assert(pre.subrange(0, k) =~= s.subrange(0, k));
        lemma_ws_stmts_prefix(p, s, k + 1, env);
    } else {
        assert(s.subrange(0, k) =~= s);
    }
}

fn first_write_site_in_arms(p: &str, v: &Vec<MatchArm>, ctx: &OwnershipContext) -> (r: Option<(String, SourceSpan)>)
    ensures
        match r {
            Some(site) => ws_arms(p@, v@, ctx@) == Some((site.0@, site.1@)),
            None => ws_arms(p@, v@, ctx@) is None,
        },
    decreases v,
{
    let mut i: usize = 0;
    proof {
        assert(v@.subrange(0, 0) =~= Seq::<MatchArm>::empty());
    }
    while i < v.len()
        invariant
            i <= v@.len(),
            ws_arms(p@, v@.subrange(0, i as int), ctx@) is None,
        decreases v@.len() - i,
    {
        proof {
            let pre = v@.subrange(0, i + 1);
            assert(pre.subrange(0, i as int) =~= v@.subrange(0, i as int));
            assert(pre[i as int] == v@[i as int]);
        }
        match first_write_site_in_stmts(p, &v[i].body.stmts, ctx) {
            Some(s) => {
                proof {
                    lemma_ws_arms_prefix(p@, v@, i + 1, ctx@);
                }
                return Some(s);
            },
            None => {},
        }
        i = i + 1;
    }
    proof {
        assert(v@.subrange(0, v@.len() as int) =~= v@);
    }
    None
}

proof fn lemma_ws_arms_prefix(p: Seq<char>, s: Seq<MatchArm>, k: int, env: ClassifyEnv)
    requires
        0 <= k <= s.len(),
        ws_arms(p, s.subrange(0, k), env) is Some,
    ensures
        ws_arms(p, s, env) == ws_arms(p, s.subrange(0, k), env),
    decreases s.len() - k,
{
    if k < s.len() {
        let pre = s.subrange(0, k + 1);
        assert(pre.subrange(0, k) =~= s.subrange(0, k));
        lemma_ws_arms_prefix(p, s, k + 1, env);
    } else {
        assert(s.subrange(0, k) =~= s);
    }
}

fn first_entry_site(p: &str, en: &MapEntryLit, ctx: &OwnershipContext) -> (r: Option<(String, SourceSpan)>)
    ensures
        match r {
            Some(site) => or_else(ws_expr(p@, en.key, ctx@), ws_expr(p@, en.value, ctx@)) == Some((site.0@, site.1@)),
            None => or_else(ws_expr(p@, en.key, ctx@), ws_expr(p@, en.value, ctx@)) is None,
        },
    decreases en,
{
    match first_write_site_in_expr(p, &en.key, ctx) {
        Some(s) => Some(s),
        None => first_write_site_in_expr(p, &en.value, ctx),
    }
}

fn first_part_site(p: &str, part: &StringPart, ctx: &OwnershipContext) -> (r: Option<(String, SourceSpan)>)
    ensures
        match r {
            Some(site) => (match *part {
                StringPart::Expr(e, _) => ws_expr(p@, e, ctx@),
                StringPart::Text(_) => None,
            }) == Some((site.0@, site.1@)),
            None => (match *part {
                StringPart::Expr(e, _) => ws_expr(p@, e, ctx@),
                StringPart::Text(_) => None,
            }) is None,
        },
    decreases part,
{
    match part {
        StringPart::Expr(e, _) => first_write_site_in_expr(p, e, ctx),
        StringPart::Text(_) => None,
    }
}

/// The first call in a statement where the binding `p` flows into a writing position.
pub fn first_write_site_in_stmt(p: &str, st: &Stmt, ctx: &OwnershipContext) -> (r: Option<(String, SourceSpan)>)
    ensures
        match r {
            Some(site) => ws_stmt(p@, *st, ctx@) == Some((site.0@, site.1@)),
            None => ws_stmt(p@, *st, ctx@) is None,
        },
    decreases st,
{
    match st {
        Stmt::Expr(e) => first_write_site_in_expr(p, e, ctx),
        Stmt::Let { value, .. } => first_write_site_in_expr(p, value, ctx),
        Stmt::Assign { value, .. } => first_write_site_in_expr(p, value, ctx),
        Stmt::Return { value, .. } => match value {
            Some(e) => first_write_site_in_expr(p, e, ctx),
            None => None,
        },
        Stmt::FieldAssign { target, value, .. } => match first_write_site_in_expr(p, target, ctx) {
            Some(s) => Some(s),
            None => first_write_site_in_expr(p, value, ctx),
        },
        Stmt::IndexAssign { receiver, index, value, .. } => match first_write_site_in_expr(p, receiver, ctx) {
            Some(s) => Some(s),
            None => match first_write_site_in_expr(p, index, ctx) {
                Some(s) => Some(s),
                None => first_write_site_in_expr(p, value, ctx),
            },
        },
        Stmt::If { cond, body, .. } => match first_write_site_in_expr(p, cond, ctx) {
            Some(s) => Some(s),
            None => first_write_site_in_stmts(p, &body.stmts, ctx),
        },
        Stmt::While { cond, body, .. } => match first_write_site_in_expr(p, cond, ctx) {
            Some(s) => Some(s),
            None => first_write_site_in_stmts(p, &body.stmts, ctx),
        },
        Stmt::For { iter, body, .. } => match first_write_site_in_expr(p, iter, ctx) {
            Some(s) => Some(s),
            None => first_write_site_in_stmts(p, &body.stmts, ctx),
        },
        Stmt::Match { scrutinee, arms, else_arm, .. } => match first_write_site_in_expr(p, scrutinee, ctx) {
            Some(s) => Some(s),
            None => match first_write_site_in_arms(p, arms, ctx) {
                Some(s) => Some(s),
                None => match else_arm {
                    Some(b) => first_write_site_in_stmts(p, &b.stmts, ctx),
                    None => None,
                },
            },
        },
    }
}

/// A `share` parameter that a function lends onward to a callee that writes it.
pub struct TransitiveShareViolation<'a> {
    pub param_name: String,
    /// The parameter's declared type, for the `lend x: Type` suggestion.
    pub param_type: &'a AstType,
    /// The callee through which the write happens.
    pub callee_name: String,
    /// The call site where the parameter is lent onward.
    pub span: SourceSpan,
}

/// The model of a [`TransitiveShareViolation`].
pub struct ShareViolationView {
    pub param_name: Seq<char>,
    pub param_type: AstType,
    pub callee_name: Seq<char>,
    pub span: SpanView,
}

impl<'a> View for TransitiveShareViolation<'a> {
    type V = ShareViolationView;

    open spec fn view(&self) -> ShareViolationView {
        ShareViolationView {
            param_name: self.param_name@,
            param_type: *self.param_type,
            callee_name: self.callee_name@,
            span: self.span@,
        }
    }
}

/// The violations of the first `k` parameters of `f`: each parameter declared `share`
/// with a first write site in the body.
pub open spec fn param_violations(f: FunctionDecl, env: ClassifyEnv, k: int) -> Seq<ShareViolationView>
    decreases k,
{
    if k <= 0 {
        Seq::empty()
    } else {
        let prev = param_violations(f, env, k - 1);
        let p = f.params@[k - 1];
        if p.ownership == Some(OwnershipModifier::Share) {
            match ws_stmts(p.name@, f.body.stmts@, env) {
                Some(site) => prev.push(
                    ShareViolationView { param_name: p.name@, param_type: p.ty, callee_name: site.0, span: site.1 },
                ),
                None => prev,
            }
        } else {
            prev
        }
    }
}

/// The violations of the functions, in order.
pub open spec fn share_violations(decls: Seq<FunctionDecl>, env: ClassifyEnv) -> Seq<ShareViolationView>
    decreases decls.len(),
{
    if decls.len() == 0 {
        Seq::empty()
    } else {
        share_violations(decls.drop_last(), env) + param_violations(decls.last(), env, decls.last().params@.len() as int)
    }
}

/// What a call position is classified against when looking for transitive writes.
pub open spec fn share_env(
    per_fn: Seq<(String, Vec<EffectiveOwnership>)>,
    declared: Seq<(String, Vec<usize>)>,
    imported: Set<Seq<char>>,
) -> ClassifyEnv {
    ClassifyEnv { rows: per_fn, declared, imported, mutating: Set::empty() }
}

pub open spec fn violation_views<'a>(v: Seq<TransitiveShareViolation<'a>>) -> Seq<ShareViolationView> {
    v.map_values(|x: TransitiveShareViolation<'a>| x@)
}

/// Find every `share` parameter that a local function lends onward, at its first such
/// call, to a position whose callee's effective ownership is `Writes`. Flows to `Unknown`
/// positions are not reported; only proven writes are.
pub fn find_transitive_share_violations<'a>(
    module: &'a Module,
    report: &EffectiveOwnershipReport,
    declared_writes: &Vec<(String, Vec<usize>)>,
    imported_fn_names: &NameSet,
) -> (r: Vec<TransitiveShareViolation<'a>>)
    ensures
        violation_views(r@) == share_violations(
            local_decls(module.items@),
            share_env(report.per_fn@, declared_writes@, imported_fn_names@),
        ),
{
    let none = NameSet::new();
    let ctx = OwnershipContext {
        per_fn: &report.per_fn,
        declared_writes,
        imported_fn_names,
        mutating_builtin_methods: &none,
    };
    let ghost env = share_env(report.per_fn@, declared_writes@, imported_fn_names@);
    proof {
        assert(ctx@ == env);
    }
    let ghost decls = local_decls(module.items@);
    let positions = function_item_positions(module);
    let mut out: Vec<TransitiveShareViolation<'a>> = Vec::new();
    let mut k: usize = 0;
    proof {
        assert(decls.take(0) =~= Seq::<FunctionDecl>::empty());
        assert(violation_views(out@) =~= share_violations(decls.take(0), env));
    }
    while k < positions.len()
        invariant
            k <= positions@.len(),
            positions@.len() == decls.len(),
            decls == local_decls(module.items@),
            ctx@ == env,
            forall|q: int|
                0 <= q < positions@.len() ==> (#[trigger] positions@[q]) < module.items@.len() && module.items@[positions@[q] as int]
                    == Item::Function(decls[q]),
            violation_views(out@) == share_violations(decls.take(k as int), env),
        decreases positions@.len() - k,
    {
        proof {
            assert(decls.take(k + 1).drop_last() =~= decls.take(k as int));
            assert(decls.take(k + 1).last() == decls[k as int]);
        }
        let pos = positions[k];
        match &module.items[pos] {
            Item::Function(f) => {
                let ghost before = violation_views(out@);
                let mut i: usize = 0;
                proof {
                    assert(violation_views(out@) =~= before + param_violations(*f, env, 0));
                }
                while i < f.params.len()
                    invariant
                        i <= f.params@.len(),
                        ctx@ == env,
                        violation_views(out@) == before + param_violations(*f, env, i as int),
                    decreases f.params@.len() - i,
                {
                    let prm = &f.params[i];
                    if matches!(prm.ownership, Some(OwnershipModifier::Share)) {
                        match first_write_site_in_stmts(prm.name.as_str(), &f.body.stmts, &ctx) {
                            Some(site) => {
                                let ghost mid = violation_views(out@);
                                let ghost nv = ShareViolationView {
                                    param_name: prm.name@,
                                    param_type: prm.ty,
                                    callee_name: site.0@,
                                    span: site.1@,
                                };
                                proof {
                                    assert(f.params@[i as int] == *prm);
                                    assert(param_violations(*f, env, i + 1) == param_violations(*f, env, i as int).push(nv));
                                }
                                out.push(
                                    TransitiveShareViolation {
                                        param_name: prm.name.clone(),
                                        param_type: &prm.ty,
                                        callee_name: site.0,
                                        span: site.1,
                                    },
                                );
                                proof {
                                    assert(violation_views(out@) =~= mid.push(nv));
                                    assert(violation_views(out@) =~= before + param_violations(*f, env, i + 1));
                                }
                            },
                            None => {},
                        }
                    }
                    i = i + 1;
                }
                proof {
                    assert(decls[k as int] == *f);
                    assert(violation_views(out@) =~= share_violations(decls.take(k + 1), env));
                }
            },
            _ => {
                proof {
                    assert(false);
                }
            },
        }
        k = k + 1;
    }
    proof {
        assert(decls.take(positions@.len() as int) =~= decls);
    }
    out
}

} // verus!
