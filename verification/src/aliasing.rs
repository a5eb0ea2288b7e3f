//! Calls that pass the same value, or overlapping pieces of one value, into two parameter
//! positions where at least one position may modify it.
use vstd::prelude::*;

use crate::diagnostics::{SourceSpan, SpanView};
use crate::effective_ownership::{
    paths_overlap, render_path, spec_ownership_of, spec_paths_overlap, AliasArgKind, EffectiveOwnership,
    EffectiveOwnershipReport,
};
use crate::names::{find_row, lookup};
use crate::ownership_fixpoint::{function_item_positions, local_decls};
use crate::return_paths::{expr_span, expr_span_of};
use crate::signatures::FunctionSig;
use crate::syntax::{CallExpr, Expr, FieldInit, FunctionDecl, Item, MapEntryLit, MatchArm, Module, OwnershipModifier, Stmt, StringPart};
use crate::text::{join_with, lit, spec_join_with, str_eq, string_views};
use crate::types::{Type, TypeView};

verus! {

/// What the aliasing check reads: the effective ownership rows, the local signatures and
/// the imported ones (each looked up at its first row).
pub struct AliasEnv {
    pub per_fn: Seq<(String, Vec<EffectiveOwnership>)>,
    pub sigs: Seq<(String, FunctionSig)>,
    pub imported: Seq<(String, FunctionSig)>,
}

/// The executable form of [`AliasEnv`].
pub struct AliasContext<'a> {
    pub report: &'a EffectiveOwnershipReport,
    pub sigs: &'a Vec<(String, FunctionSig)>,
    pub imported_sigs: &'a Vec<(String, FunctionSig)>,
}

impl<'a> View for AliasContext<'a> {
    type V = AliasEnv;

    open spec fn view(&self) -> AliasEnv {
        AliasEnv { per_fn: self.report.per_fn@, sigs: self.sigs@, imported: self.imported_sigs@ }
    }
}

/// The place an expression denotes: its root binding and field chain (`a.b.c` is
/// `[a, b, c]`); none for an expression that yields a fresh value.
pub open spec fn spec_place_path(e: Expr) -> Option<Seq<Seq<char>>>
    decreases e,
{
    match e {
        Expr::Ident(n, _) => Some(seq![n@]),
        Expr::SelfValue { .. } => Some(seq!["self"@]),
        Expr::FieldAccess { receiver, field, .. } => match spec_place_path(*receiver) {
            Some(p) => Some(p.push(field@)),
            None => None,
        },
        _ => None,
    }
}

/// The place-path of an expression.
pub fn place_path(e: &Expr) -> (r: Option<Vec<String>>)
    ensures
        match r {
            Some(p) => spec_place_path(*e) == Some(string_views(p@)),
            None => spec_place_path(*e) is None,
        },
    decreases e,
{
    match e {
        Expr::Ident(n, _) => {
            let mut v: Vec<String> = Vec::new();
            v.push(n.clone());
            proof {
                assert(string_views(v@) =~= seq![n@]);
            }
            Some(v)
        },
        Expr::SelfValue { .. } => {
            let mut v: Vec<String> = Vec::new();
            v.push(lit("self"));
            proof {
                assert(string_views(v@) =~= seq!["self"@]);
            }
            Some(v)
        },
        Expr::FieldAccess { receiver, field, .. } => match place_path(receiver) {
            Some(mut p) => {
                let ghost before = string_views(p@);
                p.push(field.clone());
                proof {
                    assert(string_views(p@) =~= before.push(field@));
                }
                Some(p)
            },
            None => None,
        },
        _ => None,
    }
}

/// The signature of `name`: the local one, else the imported one.
pub open spec fn sig_of(env: AliasEnv, name: Seq<char>) -> Option<FunctionSig> {
    match lookup(env.sigs, name) {
        Some(s) => Some(s),
        None => lookup(env.imported, name),
    }
}

/// A scalar type passes by value and cannot alias.
pub open spec fn is_scalar(t: TypeView) -> bool {
    t is Int || t is Float || t is Bool
}

/// How position `index` of `name` treats its value: none for a callee without a known
/// signature, a position it does not have, or a scalar parameter; otherwise the declared
/// modifier, or for a bare parameter its effective ownership.
pub open spec fn alias_kind(env: AliasEnv, name: Seq<char>, index: int) -> Option<AliasArgKind> {
    match sig_of(env, name) {
        None => None,
        Some(sig) => if !(0 <= index < sig.params@.len()) || is_scalar(sig.params@[index].1@) {
            None
        } else {
            let declared = if index < sig.param_ownerships@.len() {
                sig.param_ownerships@[index]
            } else {
                None
            };
            Some(
                match declared {
                    Some(OwnershipModifier::Share) => AliasArgKind::DeclaredShare,
                    Some(OwnershipModifier::Lend) => AliasArgKind::DeclaredLend,
                    Some(OwnershipModifier::Give) => AliasArgKind::DeclaredGive,
                    None => match spec_ownership_of(env.per_fn, name, index) {
                        EffectiveOwnership::Reads => AliasArgKind::InferredRead,
                        EffectiveOwnership::Writes => AliasArgKind::InferredWrite,
                        EffectiveOwnership::Unknown => AliasArgKind::Unverifiable,
                    },
                },
            )
        },
    }
}

/// How position `index` of `name` treats its value (see [`alias_kind`]).
pub fn alias_arg_kind(name: &str, index: usize, ctx: &AliasContext) -> (r: Option<AliasArgKind>)
    ensures
        r == alias_kind(ctx@, name@, index as int),
{
    let sig = match find_row(ctx.sigs, name) {
        Some(i) => &ctx.sigs[i].1,
        None => match find_row(ctx.imported_sigs, name) {
            Some(i) => &ctx.imported_sigs[i].1,
            None => {
                return None;
            },
        },
    };
    if index >= sig.params.len() {
        return None;
    }
    match &sig.params[index].1 {
        Type::Int | Type::Float | Type::Bool => {
            return None;
        },
        _ => {},
    }
    let declared = if index < sig.param_ownerships.len() {
        sig.param_ownerships[index]
    } else {
        None
    };
    Some(
        match declared {
            Some(OwnershipModifier::Share) => AliasArgKind::DeclaredShare,
            Some(OwnershipModifier::Lend) => AliasArgKind::DeclaredLend,
            Some(OwnershipModifier::Give) => AliasArgKind::DeclaredGive,
            None => match ctx.report.ownership_of(name, index) {
                EffectiveOwnership::Reads => AliasArgKind::InferredRead,
                EffectiveOwnership::Writes => AliasArgKind::InferredWrite,
                EffectiveOwnership::Unknown => AliasArgKind::Unverifiable,
            },
        },
    )
}

/// An argument that denotes a place and reaches a non-scalar parameter: its position, its
/// place-path and how the position treats it.
pub type PlaceView = (int, Seq<Seq<char>>, AliasArgKind);

/// The next argument `e`, at position `i`, added to the places.
pub open spec fn place_step(pl: Seq<PlaceView>, env: AliasEnv, name: Seq<char>, e: Expr, i: int) -> Seq<PlaceView> {
    match spec_place_path(e) {
        Some(p) => match alias_kind(env, name, i) {
            Some(k) => pl.push((i, p, k)),
            None => pl,
        },
        None => pl,
    }
}

/// The places among the arguments of a call to `name`, in argument order.
pub open spec fn alias_places(env: AliasEnv, name: Seq<char>, args: Seq<Expr>) -> Seq<PlaceView>
    decreases args.len(),
{
    if args.len() == 0 {
        Seq::empty()
    } else {
        place_step(alias_places(env, name, args.drop_last()), env, name, args.last(), args.len() - 1)
    }
}

/// Places `a` before `b` overlap and at least one of their positions can modify the value.
pub open spec fn conflict(pl: Seq<PlaceView>, a: int, b: int) -> bool {
    &&& 0 <= a < b < pl.len()
    &&& spec_paths_overlap(pl[a].1, pl[b].1)
    &&& (pl[a].2.spec_write_capable() || pl[b].2.spec_write_capable())
}

/// `(a, b)` is the first conflicting pair, ordered by the first place, then the second.
pub open spec fn first_conflict(pl: Seq<PlaceView>, a: int, b: int) -> bool {
    &&& conflict(pl, a, b)
    &&& forall|a2: int, b2: int| (a2 < a || (a2 == a && b2 < b)) ==> !#[trigger] conflict(pl, a2, b2)
}

/// Whenever some pair conflicts, a first one does.
pub proof fn lemma_first_conflict_exists(pl: Seq<PlaceView>, a: int, b: int)
    requires
        conflict(pl, a, b),
    ensures
        exists|a1: int, b1: int| first_conflict(pl, a1, b1),
    decreases a, b,
{
    if !first_conflict(pl, a, b) {
        let (a2, b2) = choose|a2: int, b2: int| (a2 < a || (a2 == a && b2 < b)) && #[trigger] conflict(pl, a2, b2);
        lemma_first_conflict_exists(pl, a2, b2);
    }
}

proof fn lemma_first_conflict_unique(pl: Seq<PlaceView>, a: int, b: int, c: int, d: int)
    requires
        first_conflict(pl, a, b),
        first_conflict(pl, c, d),
    ensures
        a == c && b == d,
{
    if a < c || (a == c && b < d) {
        assert(!conflict(pl, a, b));
    }
    if c < a || (c == a && d < b) {
        assert(!conflict(pl, c, d));
    }
}

/// One rejected call: the same value reaches two parameters and at least one of the two
/// positions can modify it.
pub struct AliasingCallViolation {
    /// The place of the first overlapping argument (`player`).
    pub first_path: String,
    /// The place of the second overlapping argument (`player.pet`).
    pub second_path: String,
    pub callee_name: String,
    pub first_kind: AliasArgKind,
    pub second_kind: AliasArgKind,
    /// The span of the second overlapping argument.
    pub span: SourceSpan,
}

/// The model of an [`AliasingCallViolation`].
pub struct AliasViolationView {
    pub first_path: Seq<char>,
    pub second_path: Seq<char>,
    pub callee_name: Seq<char>,
    pub first_kind: AliasArgKind,
    pub second_kind: AliasArgKind,
    pub span: SpanView,
}

impl View for AliasingCallViolation {
    type V = AliasViolationView;

    open spec fn view(&self) -> AliasViolationView {
        AliasViolationView {
            first_path: self.first_path@,
            second_path: self.second_path@,
            callee_name: self.callee_name@,
            first_kind: self.first_kind,
            second_kind: self.second_kind,
            span: self.span@,
        }
    }
}

/// The violation for the conflicting places `a` and `b` of a call to `name` with `args`.
pub open spec fn violation_at(pl: Seq<PlaceView>, a: int, b: int, name: Seq<char>, args: Seq<Expr>) -> AliasViolationView {
    AliasViolationView {
        first_path: spec_join_with(pl[a].1, "."@),
        second_path: spec_join_with(pl[b].1, "."@),
        callee_name: name,
        first_kind: pl[a].2,
        second_kind: pl[b].2,
        span: expr_span(args[pl[b].0]),
    }
}

/// The violation of one call to `name` with the arguments `args` (a method's receiver
/// first): its first conflicting pair of places, if any pair conflicts.
#[verifier::opaque]
pub open spec fn call_violation(env: AliasEnv, name: Seq<char>, args: Seq<Expr>) -> Option<AliasViolationView> {
    let pl = alias_places(env, name, args);
    if exists|a: int, b: int| first_conflict(pl, a, b) {
        let (a, b) = choose|a: int, b: int| first_conflict(pl, a, b);
        Some(violation_at(pl, a, b, name, args))
    } else {
        None
    }
}

/// The arguments of a call, a method's receiver first.
pub open spec fn all_args(recv: Option<Expr>, args: Seq<Expr>) -> Seq<Expr> {
    match recv {
        Some(e) => seq![e] + args,
        None => args,
    }
}

/// The expression an optional reference points to.
pub open spec fn opt_expr(recv: Option<&Expr>) -> Option<Expr> {
    match recv {
        Some(e) => Some(*e),
        None => None,
    }
}

pub type Place = (usize, Vec<String>, AliasArgKind);

pub open spec fn place_views(v: Seq<Place>) -> Seq<PlaceView> {
    v.map_values(|q: Place| (q.0 as int, string_views(q.1@), q.2))
}

fn consider_arg(places: &mut Vec<Place>, name: &str, e: &Expr, i: usize, ctx: &AliasContext)
    ensures
        place_views(final(places)@) == place_step(place_views(old(places)@), ctx@, name@, *e, i as int),
        forall|q: int| 0 <= q < old(places)@.len() ==> #[trigger] final(places)@[q] == old(places)@[q],
        final(places)@.len() == old(places)@.len() || (final(places)@.len() == old(places)@.len() + 1
            && final(places)@[old(places)@.len() as int].0 == i),
{
    let ghost before = place_views(places@);
    match place_path(e) {
        Some(p) => match alias_arg_kind(name, i, ctx) {
            Some(k) => {
                let ghost pv = string_views(p@);
                places.push((i, p, k));
                proof {
                    assert(place_views(places@) =~= before.push((i as int, pv, k)));
                }
            },
            None => {},
        },
        None => {},
    }
}

/// Check one call's arguments (a method's receiver first) for two overlapping places where
/// a position can modify the value; report the first such pair.
pub fn check_call_args_for_aliasing(
    name: &str,
    recv: Option<&Expr>,
    args: &Vec<Expr>,
    ctx: &AliasContext,
) -> (r: Option<AliasingCallViolation>)
    ensures
        match r {
            Some(v) => call_violation(ctx@, name@, all_args(opt_expr(recv), args@)) == Some(v@),
            None => call_violation(ctx@, name@, all_args(opt_expr(recv), args@)) is None,
        },
        (r is None) == (forall|a: int, b: int|
            !#[trigger] conflict(alias_places(ctx@, name@, all_args(opt_expr(recv), args@)), a, b)),
{
    let ghost all = all_args(opt_expr(recv), args@);
    let ghost env = ctx@;
    proof {
        reveal(call_violation);
    }
    let mut places: Vec<Place> = Vec::new();
    let offset: usize = match recv {
        Some(_) => 1,
        None => 0,
    };
    proof {
        assert(all.take(0) =~= Seq::<Expr>::empty());
        assert(place_views(places@) =~= alias_places(env, name@, all.take(0)));
    }
    match recv {
        Some(r) => {
            consider_arg(&mut places, name, r, 0, ctx);
            proof {
                assert(all.take(1).drop_last() =~= all.take(0));
                assert(all.take(1).last() == *r);
            }
        },
        None => {},
    }
    let mut i: usize = 0;
    while i < args.len()
        invariant
            i <= args@.len(),
            offset <= 1,
            (recv is Some) == (offset == 1),
            all == all_args(opt_expr(recv), args@),
            all.len() == args@.len() + offset,
            forall|j: int| 0 <= j < args@.len() ==> #[trigger] all[j + offset] == args@[j],
            env == ctx@,
            place_views(places@) == alias_places(env, name@, all.take(i + offset)),
            forall|q: int| 0 <= q < places@.len() ==> (#[trigger] places@[q]).0 < i + offset,
        decreases args@.len() - i,
    {
        proof {
            assert(all.take(i + offset + 1).drop_last() =~= all.take(i + offset));
            assert(all.take(i + offset + 1).last() == args@[i as int]);
        }
        consider_arg(&mut places, name, &args[i], i + offset, ctx);
        i = i + 1;
    }
    proof {
        assert(all.take(args@.len() + offset) =~= all);
    }
    let ghost pl = place_views(places@);
    let mut a: usize = 0;
    while a < places.len()
        invariant
            a <= places@.len(),
            pl == place_views(places@),
            all == all_args(opt_expr(recv), args@),
            all.len() == args@.len() + offset,
            forall|j: int| 0 <= j < args@.len() ==> #[trigger] all[j + offset] == args@[j],
            pl == alias_places(ctx@, name@, all),
            offset <= 1,
            (recv is Some) == (offset == 1),
            forall|q: int| 0 <= q < places@.len() ==> (#[trigger] places@[q]).0 < args@.len() + offset,
            forall|a2: int, b2: int| a2 < a ==> !#[trigger] conflict(pl, a2, b2),
        decreases places@.len() - a,
    {
        let mut b: usize = a + 1;
        while b < places.len()
            invariant
                a < places@.len(),
                a + 1 <= b <= places@.len(),
                pl == place_views(places@),
                all == all_args(opt_expr(recv), args@),
                all.len() == args@.len() + offset,
                forall|j: int| 0 <= j < args@.len() ==> #[trigger] all[j + offset] == args@[j],
                pl == alias_places(ctx@, name@, all),
                offset <= 1,
                (recv is Some) == (offset == 1),
                forall|q: int| 0 <= q < places@.len() ==> (#[trigger] places@[q]).0 < args@.len() + offset,
                forall|a2: int, b2: int| a2 < a ==> !#[trigger] conflict(pl, a2, b2),
                forall|b2: int| b2 < b ==> !#[trigger] conflict(pl, a as int, b2),
            decreases places@.len() - b,
        {
            let hit = paths_overlap(&places[a].1, &places[b].1) && (places[a].2.write_capable()
                || places[b].2.write_capable());
            if hit {
                proof {
                    assert(conflict(pl, a as int, b as int));
                    assert(first_conflict(pl, a as int, b as int));
                }
                let bi = places[b].0;
                let span = match recv {
                    Some(r) => if bi == 0 {
                        expr_span_of(r)
                    } else {
                        expr_span_of(&args[bi - 1])
                    },
                    None => expr_span_of(&args[bi]),
                };
                let v = AliasingCallViolation {
                    first_path: render_path(&places[a].1),
                    second_path: render_path(&places[b].1),
                    callee_name: lit(name),
                    first_kind: places[a].2,
                    second_kind: places[b].2,
                    span,
                };
                proof {
                    reveal(call_violation);
                    let (a1, b1) = choose|a1: int, b1: int| first_conflict(pl, a1, b1);
                    lemma_first_conflict_unique(pl, a as int, b as int, a1, b1);
                    if bi > 0 && offset == 1 {
                        assert(all[(bi - 1) + 1] == args@[bi - 1]);
                    }
                    if offset == 0 {
                        assert(all[bi + 0] == args@[bi as int]);
                    }
                    assert(pl[b as int].0 == bi as int);
                    assert(v@ == violation_at(pl, a as int, b as int, name@, all));
                }
                return Some(v);
            }
            proof {
                assert(!conflict(pl, a as int, b as int));
            }
            b = b + 1;
        }
        a = a + 1;
    }
    proof {
        reveal(call_violation);
        assert forall|a1: int, b1: int| !#[trigger] first_conflict(pl, a1, b1) by {
            assert(!conflict(pl, a1, b1));
        }
    }
    None
}

/// An optional result as a list.
pub open spec fn opt_seq<V>(o: Option<V>) -> Seq<V> {
    match o {
        Some(v) => seq![v],
        None => Seq::empty(),
    }
}

/// The violation of a call to a named function itself.
pub open spec fn own_call_violation(c: CallExpr, env: AliasEnv) -> Seq<AliasViolationView> {
    match *c.callee {
        Expr::Ident(n, _) => opt_seq(call_violation(env, n@, c.args@)),
        _ => Seq::empty(),
    }
}

/// The aliasing violations of the calls in `e`, in evaluation order: a call's own before
/// those nested in its callee and arguments.
pub open spec fn alias_expr(e: Expr, env: AliasEnv) -> Seq<AliasViolationView>
    decreases e,
{
    match e {
        Expr::Call(c) => own_call_violation(c, env) + alias_expr(*c.callee, env) + alias_exprs(c.args@, env),
        Expr::MethodCall { receiver, method, args, .. } => opt_seq(
            call_violation(env, method@, seq![*receiver] + args@),
        ) + alias_expr(*receiver, env) + alias_exprs(args@, env),
        Expr::BinOp { lhs, rhs, .. } => alias_expr(*lhs, env) + alias_expr(*rhs, env),
        Expr::UnaryOp { operand, .. } => alias_expr(*operand, env),
        Expr::FieldAccess { receiver, .. } => alias_expr(*receiver, env),
        Expr::IndexAccess { receiver, index, .. } => alias_expr(*receiver, env) + alias_expr(*index, env),
        Expr::Wait(inner, _) => alias_expr(*inner, env),
        Expr::Background(inner, _) => alias_expr(*inner, env),
        Expr::Is { expr, .. } => alias_expr(*expr, env),
        Expr::PostfixOp { receiver, .. } => alias_expr(*receiver, env),
        Expr::StructLit { fields, .. } => alias_fields(fields@, env),
        Expr::ArrayLit { elements, .. } => alias_exprs(elements@, env),
        Expr::MapLit { entries, .. } => alias_entries(entries@, env),
        Expr::InterpolatedString(parts, _) => alias_parts(parts@, env),
        _ => Seq::empty(),
    }
}

pub open spec fn alias_exprs(s: Seq<Expr>, env: AliasEnv) -> Seq<AliasViolationView>
    decreases s,
{
    if s.len() == 0 {
        Seq::empty()
    } else {
        alias_exprs(s.subrange(0, s.len() - 1), env) + alias_expr(s[s.len() - 1], env)
    }
}

pub open spec fn alias_fields(s: Seq<FieldInit>, env: AliasEnv) -> Seq<AliasViolationView>
    decreases s,
{
    if s.len() == 0 {
        Seq::empty()
    } else {
        alias_fields(s.subrange(0, s.len() - 1), env) + alias_expr(s[s.len() - 1].value, env)
    }
}

pub open spec fn alias_entries(s: Seq<MapEntryLit>, env: AliasEnv) -> Seq<AliasViolationView>
    decreases s,
{
    if s.len() == 0 {
        Seq::empty()
    } else {
        alias_entries(s.subrange(0, s.len() - 1), env) + alias_expr(s[s.len() - 1].key, env) + alias_expr(
            s[s.len() - 1].value,
            env,
        )
    }
}

pub open spec fn alias_parts(s: Seq<StringPart>, env: AliasEnv) -> Seq<AliasViolationView>
    decreases s,
{
    if s.len() == 0 {
        Seq::empty()
    } else {
        alias_parts(s.subrange(0, s.len() - 1), env) + match s[s.len() - 1] {
            StringPart::Expr(e, _) => alias_expr(e, env),
            StringPart::Text(_) => Seq::empty(),
        }
    }
}

/// The aliasing violations of a statement, in order.
pub open spec fn alias_stmt(st: Stmt, env: AliasEnv) -> Seq<AliasViolationView>
    decreases st,
{
    match st {
        Stmt::Expr(e) => alias_expr(e, env),
        Stmt::Let { value, .. } => alias_expr(value, env),
        Stmt::Assign { value, .. } => alias_expr(value, env),
        Stmt::Return { value, .. } => match value {
            Some(e) => alias_expr(e, env),
            None => Seq::empty(),
        },
        Stmt::FieldAssign { target, value, .. } => alias_expr(target, env) + alias_expr(value, env),
        Stmt::IndexAssign { receiver, index, value, .. } => alias_expr(receiver, env) + alias_expr(index, env)
            + alias_expr(value, env),
        Stmt::If { cond, body, .. } => alias_expr(cond, env) + alias_stmts(body.stmts@, env),
        Stmt::While { cond, body, .. } => alias_expr(cond, env) + alias_stmts(body.stmts@, env),
        Stmt::For { iter, body, .. } => alias_expr(iter, env) + alias_stmts(body.stmts@, env),
        Stmt::Match { scrutinee, arms, else_arm, .. } => alias_expr(scrutinee, env) + alias_arms(arms@, env)
            + match else_arm {
            Some(b) => alias_stmts(b.stmts@, env),
            None => Seq::empty(),
        },
    }
}

pub open spec fn alias_stmts(s: Seq<Stmt>, env: AliasEnv) -> Seq<AliasViolationView>
    decreases s,
{
    if s.len() == 0 {
        Seq::empty()
    } else {
        alias_stmts(s.subrange(0, s.len() - 1), env) + alias_stmt(s[s.len() - 1], env)
    }
}

pub open spec fn alias_arms(s: Seq<MatchArm>, env: AliasEnv) -> Seq<AliasViolationView>
    decreases s,
{
    if s.len() == 0 {
        Seq::empty()
    } else {
        alias_arms(s.subrange(0, s.len() - 1), env) + alias_stmts(s[s.len() - 1].body.stmts@, env)
    }
}

pub open spec fn alias_views(v: Seq<AliasingCallViolation>) -> Seq<AliasViolationView> {
    v.map_values(|x: AliasingCallViolation| x@)
}

fn push_opt(out: &mut Vec<AliasingCallViolation>, o: Option<AliasingCallViolation>)
    ensures
        alias_views(final(out)@) == alias_views(old(out)@) + opt_seq(
            match o {
                Some(v) => Some(v@),
                None => None,
            },
        ),
{
    match o {
        Some(v) => {
            let ghost vv = v@;
            out.push(v);
            proof {
                assert(alias_views(out@) =~= alias_views(old(out)@) + seq![vv]);
            }
        },
        None => {
            proof {
                assert(alias_views(out@) =~= alias_views(old(out)@) + Seq::<AliasViolationView>::empty());
            }
        },
    }
}

/// Collect the aliasing violations of the calls in `e`.
#[verifier::spinoff_prover]
#[verifier::rlimit(40)]
pub fn collect_aliasing_in_expr(e: &Expr, ctx: &AliasContext, out: &mut Vec<AliasingCallViolation>)
    ensures
        alias_views(final(out)@) == alias_views(old(out)@) + alias_expr(*e, ctx@),
    decreases e,
{
    let ghost o0 = alias_views(out@);
    match e {
        Expr::Call(c) => collect_aliasing_in_call(c, ctx, out),
        Expr::MethodCall { receiver, method, args, .. } => {
            let v = check_call_args_for_aliasing(method.as_str(), Some(&**receiver), args, ctx);
            proof {
                assert(all_args(opt_expr(Some(&**receiver)), args@) == seq![**receiver] + args@);
            }
            push_opt(out, v);
            let ghost o1 = alias_views(out@);
            collect_aliasing_in_expr(receiver, ctx, out);
            let ghost o2 = alias_views(out@);
            collect_aliasing_in_exprs(args, ctx, out);
            proof {
                let own = opt_seq(call_violation(ctx@, method@, seq![**receiver] + args@));
                assert(o1 == o0 + own);
                assert(alias_views(out@) =~= o0 + (own + alias_expr(**receiver, ctx@) + alias_exprs(args@, ctx@)));
            }
        },
        Expr::BinOp { lhs, rhs, .. } => {
            collect_aliasing_in_expr(lhs, ctx, out);
            collect_aliasing_in_expr(rhs, ctx, out);
            proof {
                assert(alias_views(out@) =~= o0 + alias_expr(*e, ctx@));
            }
        },
        Expr::UnaryOp { operand, .. } => collect_aliasing_in_expr(operand, ctx, out),
        Expr::FieldAccess { receiver, .. } => collect_aliasing_in_expr(receiver, ctx, out),
        Expr::IndexAccess { receiver, index, .. } => {
            collect_aliasing_in_expr(receiver, ctx, out);
            collect_aliasing_in_expr(index, ctx, out);
            proof {
                assert(alias_views(out@) =~= o0 + alias_expr(*e, ctx@));
            }
        },
        Expr::Wait(inner, _) => collect_aliasing_in_expr(inner, ctx, out),
        Expr::Background(inner, _) => collect_aliasing_in_expr(inner, ctx, out),
        Expr::Is { expr, .. } => collect_aliasing_in_expr(expr, ctx, out),
        Expr::PostfixOp { receiver, .. } => collect_aliasing_in_expr(receiver, ctx, out),
        Expr::StructLit { fields, .. } => collect_aliasing_in_fields(fields, ctx, out),
        Expr::ArrayLit { elements, .. } => collect_aliasing_in_exprs(elements, ctx, out),
        Expr::MapLit { entries, .. } => collect_aliasing_in_entries(entries, ctx, out),
        Expr::InterpolatedString(parts, _) => collect_aliasing_in_parts(parts, ctx, out),
        _ => {
            proof {
                assert(alias_views(out@) =~= o0 + Seq::<AliasViolationView>::empty());
            }
        },
    }
}

fn collect_aliasing_in_call(c: &CallExpr, ctx: &AliasContext, out: &mut Vec<AliasingCallViolation>)
    ensures
        alias_views(final(out)@) == alias_views(old(out)@) + (own_call_violation(*c, ctx@) + alias_expr(
            *c.callee,
            ctx@,
        ) + alias_exprs(c.args@, ctx@)),
    decreases c,
{
    let ghost o0 = alias_views(out@);
    let ghost own = own_call_violation(*c, ctx@);
    match &*c.callee {
        Expr::Ident(n, _) => {
            let v = check_call_args_for_aliasing(n.as_str(), None, &c.args, ctx);
            proof {
                assert(all_args(opt_expr(None), c.args@) == c.args@);
            }
            push_opt(out, v);
        },
        _ => {
            proof {
                assert(alias_views(out@) =~= o0 + own);
            }
        },
    }
    let ghost o1 = alias_views(out@);
    collect_aliasing_in_expr(&c.callee, ctx, out);
    let ghost o2 = alias_views(out@);
    collect_aliasing_in_exprs(&c.args, ctx, out);
    proof {
        assert(o1 == o0 + own);
        assert(o2 == o1 + alias_expr(*c.callee, ctx@));
        assert(alias_views(out@) == o2 + alias_exprs(c.args@, ctx@));
        assert(alias_views(out@) =~= o0 + (own + alias_expr(*c.callee, ctx@) + alias_exprs(c.args@, ctx@)));
    }
}

fn collect_aliasing_in_entry(en: &MapEntryLit, ctx: &AliasContext, out: &mut Vec<AliasingCallViolation>)
    ensures
        alias_views(final(out)@) == alias_views(old(out)@) + alias_expr(en.key, ctx@) + alias_expr(en.value, ctx@),
    decreases en,
{
    collect_aliasing_in_expr(&en.key, ctx, out);
    collect_aliasing_in_expr(&en.value, ctx, out);
}

fn collect_aliasing_in_part(part: &StringPart, ctx: &AliasContext, out: &mut Vec<AliasingCallViolation>)
    ensures
        alias_views(final(out)@) == alias_views(old(out)@) + match *part {
            StringPart::Expr(e, _) => alias_expr(e, ctx@),
            StringPart::Text(_) => Seq::empty(),
        },
    decreases part,
{
    match part {
        StringPart::Expr(e, _) => collect_aliasing_in_expr(e, ctx, out),
        StringPart::Text(_) => {
            proof {
                assert(alias_views(out@) =~= alias_views(old(out)@) + Seq::<AliasViolationView>::empty());
            }
        },
    }
}

/// Collect the aliasing violations of a statement.
pub fn collect_aliasing_in_stmt(st: &Stmt, ctx: &AliasContext, out: &mut Vec<AliasingCallViolation>)
    ensures
        alias_views(final(out)@) == alias_views(old(out)@) + alias_stmt(*st, ctx@),
    decreases st,
{
    let ghost o0 = alias_views(out@);
    match st {
        Stmt::Expr(e) => collect_aliasing_in_expr(e, ctx, out),
        Stmt::Let { value, .. } => collect_aliasing_in_expr(value, ctx, out),
        Stmt::Assign { value, .. } => collect_aliasing_in_expr(value, ctx, out),
        Stmt::Return { value, .. } => match value {
            Some(e) => collect_aliasing_in_expr(e, ctx, out),
            None => {
                proof {
                    assert(alias_views(out@) =~= o0 + Seq::<AliasViolationView>::empty());
                }
            },
        },
        Stmt::FieldAssign { target, value, .. } => {
            collect_aliasing_in_expr(target, ctx, out);
            collect_aliasing_in_expr(value, ctx, out);
            proof {
                assert(alias_views(out@) =~= o0 + alias_stmt(*st, ctx@));
            }
        },
        Stmt::IndexAssign { receiver, index, value, .. } => {
            collect_aliasing_in_expr(receiver, ctx, out);
            collect_aliasing_in_expr(index, ctx, out);
            collect_aliasing_in_expr(value, ctx, out);
            proof {
                assert(alias_views(out@) =~= o0 + alias_stmt(*st, ctx@));
            }
        },
        Stmt::If { cond, body, .. } => {
            collect_aliasing_in_expr(cond, ctx, out);
            collect_aliasing_in_stmts(&body.stmts, ctx, out);
            proof {
                assert(alias_views(out@) =~= o0 + alias_stmt(*st, ctx@));
            }
        },
        Stmt::While { cond, body, .. } => {
            collect_aliasing_in_expr(cond, ctx, out);
            collect_aliasing_in_stmts(&body.stmts, ctx, out);
            proof {
                assert(alias_views(out@) =~= o0 + alias_stmt(*st, ctx@));
            }
        },
        Stmt::For { iter, body, .. } => {
            collect_aliasing_in_expr(iter, ctx, out);
            collect_aliasing_in_stmts(&body.stmts, ctx, out);
            proof {
                assert(alias_views(out@) =~= o0 + alias_stmt(*st, ctx@));
            }
        },
        Stmt::Match { scrutinee, arms, else_arm, .. } => {
            collect_aliasing_in_expr(scrutinee, ctx, out);
            collect_aliasing_in_arms(arms, ctx, out);
            let ghost o2 = alias_views(out@);
            match else_arm {
                Some(b) => collect_aliasing_in_stmts(&b.stmts, ctx, out),
                None => {
                    proof {
                        assert(alias_views(out@) =~= o2 + Seq::<AliasViolationView>::empty());
                    }
                },
            }
            proof {
                assert(alias_views(out@) =~= o0 + alias_stmt(*st, ctx@));
            }
        },
    }
}

fn collect_aliasing_in_exprs(v: &Vec<Expr>, ctx: &AliasContext, out: &mut Vec<AliasingCallViolation>)
    ensures
        alias_views(final(out)@) == alias_views(old(out)@) + alias_exprs(v@, ctx@),
    decreases v,
{
    let ghost o0 = alias_views(out@);
    let mut i: usize = 0;
    proof {
        assert(v@.subrange(0, 0) =~= Seq::<Expr>::empty());
        assert(alias_views(out@) =~= o0 + alias_exprs(v@.subrange(0, 0), ctx@));
    }
    while i < v.len()
        invariant
            i <= v@.len(),
            alias_views(out@) == o0 + alias_exprs(v@.subrange(0, i as int), ctx@),
        decreases v@.len() - i,
    {
        proof {
            let pre = v@.subrange(0, i + 1);
            assert(pre.subrange(0, i as int) =~= v@.subrange(0, i as int));
            assert(pre[i as int] == v@[i as int]);
        }
        collect_aliasing_in_expr(&v[i], ctx, out);
        proof {
            assert(alias_views(out@) =~= o0 + alias_exprs(v@.subrange(0, i + 1), ctx@));
        }
        i = i + 1;
    }
    proof {
        assert(v@.subrange(0, v@.len() as int) =~= v@);
    }
}

fn collect_aliasing_in_fields(v: &Vec<FieldInit>, ctx: &AliasContext, out: &mut Vec<AliasingCallViolation>)
    ensures
        alias_views(final(out)@) == alias_views(old(out)@) + alias_fields(v@, ctx@),
    decreases v,
{
    let ghost o0 = alias_views(out@);
    let mut i: usize = 0;
    proof {
        assert(v@.subrange(0, 0) =~= Seq::<FieldInit>::empty());
        assert(alias_views(out@) =~= o0 + alias_fields(v@.subrange(0, 0), ctx@));
    }
    while i < v.len()
        invariant
            i <= v@.len(),
            alias_views(out@) == o0 + alias_fields(v@.subrange(0, i as int), ctx@),
        decreases v@.len() - i,
    {
        proof {
            let pre = v@.subrange(0, i + 1);
            assert(pre.subrange(0, i as int) =~= v@.subrange(0, i as int));
            assert(pre[i as int] == v@[i as int]);
        }
        collect_aliasing_in_expr(&v[i].value, ctx, out);
        proof {
            assert(alias_views(out@) =~= o0 + alias_fields(v@.subrange(0, i + 1), ctx@));
        }
        i = i + 1;
    }
    proof {
        assert(v@.subrange(0, v@.len() as int) =~= v@);
    }
}

fn collect_aliasing_in_entries(v: &Vec<MapEntryLit>, ctx: &AliasContext, out: &mut Vec<AliasingCallViolation>)
    ensures
        alias_views(final(out)@) == alias_views(old(out)@) + alias_entries(v@, ctx@),
    decreases v,
{
    let ghost o0 = alias_views(out@);
    let mut i: usize = 0;
    proof {
        assert(v@.subrange(0, 0) =~= Seq::<MapEntryLit>::empty());
        assert(alias_views(out@) =~= o0 + alias_entries(v@.subrange(0, 0), ctx@));
    }
    while i < v.len()
        invariant
            i <= v@.len(),
            alias_views(out@) == o0 + alias_entries(v@.subrange(0, i as int), ctx@),
        decreases v@.len() - i,
    {
        proof {
            let pre = v@.subrange(0, i + 1);
            assert(pre.subrange(0, i as int) =~= v@.subrange(0, i as int));
            assert(pre[i as int] == v@[i as int]);
        }
        collect_aliasing_in_entry(&v[i], ctx, out);
        proof {
            assert(alias_views(out@) =~= o0 + alias_entries(v@.subrange(0, i + 1), ctx@));
        }
        i = i + 1;
    }
    proof {
        assert(v@.subrange(0, v@.len() as int) =~= v@);
    }
}

fn collect_aliasing_in_parts(v: &Vec<StringPart>, ctx: &AliasContext, out: &mut Vec<AliasingCallViolation>)
    ensures
        alias_views(final(out)@) == alias_views(old(out)@) + alias_parts(v@, ctx@),
    decreases v,
{
    let ghost o0 = alias_views(out@);
    let mut i: usize = 0;
    proof {
        assert(v@.subrange(0, 0) =~= Seq::<StringPart>::empty());
        assert(alias_views(out@) =~= o0 + alias_parts(v@.subrange(0, 0), ctx@));
    }
    while i < v.len()
        invariant
            i <= v@.len(),
            alias_views(out@) == o0 + alias_parts(v@.subrange(0, i as int), ctx@),
        decreases v@.len() - i,
    {
        proof {
            let pre = v@.subrange(0, i + 1);
            assert(pre.subrange(0, i as int) =~= v@.subrange(0, i as int));
            assert(pre[i as int] == v@[i as int]);
        }
        collect_aliasing_in_part(&v[i], ctx, out);
        proof {
            assert(alias_views(out@) =~= o0 + alias_parts(v@.subrange(0, i + 1), ctx@));
        }
        i = i + 1;
    }
    proof {
        assert(v@.subrange(0, v@.len() as int) =~= v@);
    }
}

fn collect_aliasing_in_stmts(v: &Vec<Stmt>, ctx: &AliasContext, out: &mut Vec<AliasingCallViolation>)
    ensures
        alias_views(final(out)@) == alias_views(old(out)@) + alias_stmts(v@, ctx@),
    decreases v,
{
    let ghost o0 = alias_views(out@);
    let mut i: usize = 0;
    proof {
        assert(v@.subrange(0, 0) =~= Seq::<Stmt>::empty());
        assert(alias_views(out@) =~= o0 + alias_stmts(v@.subrange(0, 0), ctx@));
    }
    while i < v.len()
        invariant
            i <= v@.len(),
            alias_views(out@) == o0 + alias_stmts(v@.subrange(0, i as int), ctx@),
        decreases v@.len() - i,
    {
        proof {
            let pre = v@.subrange(0, i + 1);
            assert(pre.subrange(0, i as int) =~= v@.subrange(0, i as int));
            assert(pre[i as int] == v@[i as int]);
        }
        collect_aliasing_in_stmt(&v[i], ctx, out);
        proof {
            assert(alias_views(out@) =~= o0 + alias_stmts(v@.subrange(0, i + 1), ctx@));
        }
        i = i + 1;
    }
    proof {
        assert(v@.subrange(0, v@.len() as int) =~= v@);
    }
}

fn collect_aliasing_in_arms(v: &Vec<MatchArm>, ctx: &AliasContext, out: &mut Vec<AliasingCallViolation>)
    ensures
        alias_views(final(out)@) == alias_views(old(out)@) + alias_arms(v@, ctx@),
    decreases v,
{
    let ghost o0 = alias_views(out@);
    let mut i: usize = 0;
    proof {
        assert(v@.subrange(0, 0) =~= Seq::<MatchArm>::empty());
        assert(alias_views(out@) =~= o0 + alias_arms(v@.subrange(0, 0), ctx@));
    }
    while i < v.len()
        invariant
            i <= v@.len(),
            alias_views(out@) == o0 + alias_arms(v@.subrange(0, i as int), ctx@),
        decreases v@.len() - i,
    {
        proof {
            let pre = v@.subrange(0, i + 1);
            assert(pre.subrange(0, i as int) =~= v@.subrange(0, i as int));
            assert(pre[i as int] == v@[i as int]);
        }
        collect_aliasing_in_stmts(&v[i].body.stmts, ctx, out);
        proof {
            assert(alias_views(out@) =~= o0 + alias_arms(v@.subrange(0, i + 1), ctx@));
        }
        i = i + 1;
    }
    proof {
        assert(v@.subrange(0, v@.len() as int) =~= v@);
    }
}

/// The aliasing violations of the functions' bodies, in order.
pub open spec fn module_alias_violations(decls: Seq<FunctionDecl>, env: AliasEnv) -> Seq<AliasViolationView>
    decreases decls.len(),
{
    if decls.len() == 0 {
        Seq::empty()
    } else {
        module_alias_violations(decls.drop_last(), env) + alias_stmts(decls.last().body.stmts@, env)
    }
}

/// Find every call in the module's functions that passes overlapping places into two
/// parameter positions of which at least one can modify the value. Callees without a
/// local or imported signature are not checked; scalar parameters are skipped.
pub fn find_aliasing_call_violations(
    module: &Module,
    report: &EffectiveOwnershipReport,
    sigs: &Vec<(String, FunctionSig)>,
    imported_sigs: &Vec<(String, FunctionSig)>,
) -> (r: Vec<AliasingCallViolation>)
    ensures
        alias_views(r@) == module_alias_violations(
            local_decls(module.items@),
            AliasEnv { per_fn: report.per_fn@, sigs: sigs@, imported: imported_sigs@ },
        ),
{
    let ctx = AliasContext { report, sigs, imported_sigs };
    let ghost env = ctx@;
    let ghost decls = local_decls(module.items@);
    let positions = function_item_positions(module);
    let mut out: Vec<AliasingCallViolation> = Vec::new();
    let mut k: usize = 0;
    proof {
        assert(decls.take(0) =~= Seq::<FunctionDecl>::empty());
        assert(alias_views(out@) =~= module_alias_violations(decls.take(0), env));
    }
    while k < positions.len()
        invariant
            k <= positions@.len(),
            positions@.len() == decls.len(),
            decls == local_decls(module.items@),
            ctx@ == env,
            forall|q: int|
                0 <= q < positions@.len() ==> (#[trigger] positions@[q]) < module.items@.len() && module.items@[positions@[q] as int]
                    == Item::Function(decls[q]),
            alias_views(out@) == module_alias_violations(decls.take(k as int), env),
        decreases positions@.len() - k,
    {
        proof {
            assert(decls.take(k + 1).drop_last() =~= decls.take(k as int));
            assert(decls.take(k + 1).last() == decls[k as int]);
        }
        match &module.items[positions[k]] {
            Item::Function(f) => {
                collect_aliasing_in_stmts(&f.body.stmts, &ctx, &mut out);
                proof {
                    assert(decls[k as int] == *f);
                }
            },
            _ => {
                proof {
                    assert(false);
                }
            },
        }
        k = k + 1;
    }
    proof {
        assert(decls.take(positions@.len() as int) =~= decls);
    }
    out
}

} // verus!
