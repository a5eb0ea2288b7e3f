//! The names a function body may mutate: assignment targets, the root binding of a field
//! or element write, a receiver or argument passed to a `lend`/`give` position, and, for a
//! callee whose signature cannot be found, every bare-name argument (a missed hint is
//! acceptable; a wrong "effectively const" hint is not).
use vstd::prelude::*;

use crate::generics::{GenericFnSig, GenericFnTable};
use crate::names::{find_row, lookup, NameSet};
use crate::ownership_fixpoint::is_write_modifier;
use crate::signatures::{FunctionSig, SignatureTable};
use crate::syntax::{Block, Expr, FieldInit, MapEntryLit, MatchArm, OwnershipModifier, Stmt, StringPart};
use crate::text::str_eq;

verus! {

/// What the collector reads: the local, imported and generic signatures (each looked
/// up at its first row, in that order), the built-in free functions that only read
/// their arguments, and the scalar intrinsic methods that only read their receiver.
pub struct MutationEnv {
    pub local: Seq<(String, FunctionSig)>,
    pub imported: Seq<(String, FunctionSig)>,
    pub generic: Seq<(String, GenericFnSig)>,
    pub readonly_free_fns: Set<Seq<char>>,
    pub readonly_methods: Set<Seq<char>>,
}

/// The executable form of [`MutationEnv`].
pub struct MutationContext<'a> {
    pub sig_table: &'a SignatureTable,
    pub imported: &'a Vec<(String, FunctionSig)>,
    pub generic_fn_table: &'a GenericFnTable,
    /// Built-in free functions besides `print` and `sensitive` (all read-only).
    pub readonly_free_fns: &'a NameSet,
    /// Scalar intrinsic methods, whose receiver is always read-only.
    pub readonly_methods: &'a NameSet,
}

impl<'a> View for MutationContext<'a> {
    type V = MutationEnv;

    open spec fn view(&self) -> MutationEnv {
        MutationEnv {
            local: self.sig_table.fns@,
            imported: self.imported@,
            generic: self.generic_fn_table.fns@,
            readonly_free_fns: self.readonly_free_fns@,
            readonly_methods: self.readonly_methods@,
        }
    }
}

/// The declared modifiers of the function `name`, from the first table that has it.
pub open spec fn resolved_ownerships(env: MutationEnv, name: Seq<char>) -> Option<Seq<Option<OwnershipModifier>>> {
    match lookup(env.local, name) {
        Some(sig) => Some(sig.param_ownerships@),
        None => match lookup(env.imported, name) {
            Some(sig) => Some(sig.param_ownerships@),
            None => match lookup(env.generic, name) {
                Some(g) => Some(g.param_ownerships@),
                None => None,
            },
        },
    }
}

/// `name` is a built-in free function that only reads its arguments.
pub open spec fn readonly_free_fn(env: MutationEnv, name: Seq<char>) -> bool {
    name == "print"@ || name == "sensitive"@ || env.readonly_free_fns.contains(name)
}

/// Position `i` mutates: a `lend`/`give` parameter of a resolved callee, or any position
/// of an unresolved one.
pub open spec fn position_mutates(ows: Option<Seq<Option<OwnershipModifier>>>, i: int) -> bool {
    match ows {
        Some(o) => 0 <= i < o.len() && is_write_modifier(o[i]),
        None => true,
    }
}

/// The binding a place expression is rooted at (`a` for `a`, `a.b.c`, `a[i]`).
pub open spec fn spec_root_ident(e: Expr) -> Option<Seq<char>>
    decreases e,
{
    match e {
        Expr::Ident(n, _) => Some(n@),
        Expr::FieldAccess { receiver, .. } => spec_root_ident(*receiver),
        Expr::IndexAccess { receiver, .. } => spec_root_ident(*receiver),
        _ => None,
    }
}

/// The name an argument marks: a bare name at a mutating position.
pub open spec fn arg_marks(arg: Expr, mutating: bool) -> Set<Seq<char>> {
    match arg {
        Expr::Ident(n, _) => if mutating {
            set![n@]
        } else {
            Set::empty()
        },
        _ => Set::empty(),
    }
}

/// The names an expression may mutate.
pub open spec fn mm_expr(e: Expr, env: MutationEnv) -> Set<Seq<char>>
    decreases e,
{
    match e {
        Expr::Call(c) => {
            let (ows, builtin) = match *c.callee {
                Expr::Ident(n, _) => (resolved_ownerships(env, n@), readonly_free_fn(env, n@)),
                _ => (None, false),
            };
            mm_args(c.args@, ows, builtin, 0, env).union(mm_expr(*c.callee, env))
        },
        Expr::MethodCall { receiver, method, args, .. } => {
            let ows = resolved_ownerships(env, method@);
            let recv_mut = !env.readonly_methods.contains(method@) && match ows {
                Some(o) => o.len() > 0 && is_write_modifier(o[0]),
                None => true,
            };
            let marks = match spec_root_ident(*receiver) {
                Some(n) => if recv_mut {
                    set![n]
                } else {
                    Set::empty()
                },
                None => Set::empty(),
            };
            marks.union(mm_expr(*receiver, env)).union(mm_args(args@, ows, false, 1, env))
        },
        Expr::BinOp { lhs, rhs, .. } => mm_expr(*lhs, env).union(mm_expr(*rhs, env)),
        Expr::UnaryOp { operand, .. } => mm_expr(*operand, env),
        Expr::FieldAccess { receiver, .. } => mm_expr(*receiver, env),
        Expr::IndexAccess { receiver, index, .. } => mm_expr(*receiver, env).union(mm_expr(*index, env)),
        Expr::StructLit { fields, .. } => mm_fields(fields@, env),
        Expr::ArrayLit { elements, .. } => mm_exprs(elements@, env),
        Expr::MapLit { entries, .. } => mm_entries(entries@, env),
        Expr::PostfixOp { receiver, .. } => mm_expr(*receiver, env),
        Expr::Wait(inner, _) => mm_expr(*inner, env),
        Expr::Background(inner, _) => mm_expr(*inner, env),
        Expr::Is { expr, .. } => mm_expr(*expr, env),
        Expr::InterpolatedString(parts, _) => mm_parts(parts@, env),
        _ => Set::empty(),
    }
}

/// The arguments `s` of a call whose first argument stands at position `offset`.
pub open spec fn mm_args(
    s: Seq<Expr>,
    ows: Option<Seq<Option<OwnershipModifier>>>,
    builtin: bool,
    offset: int,
    env: MutationEnv,
) -> Set<Seq<char>>
    decreases s,
{
    if s.len() == 0 {
        Set::empty()
    } else {
        let last = s[s.len() - 1];
        let mutating = !builtin && position_mutates(ows, offset + s.len() - 1);
        mm_args(s.subrange(0, s.len() - 1), ows, builtin, offset, env).union(arg_marks(last, mutating)).union(
            mm_expr(last, env),
        )
    }
}

pub open spec fn mm_exprs(s: Seq<Expr>, env: MutationEnv) -> Set<Seq<char>>
    decreases s,
{
    if s.len() == 0 {
        Set::empty()
    } else {
        mm_exprs(s.subrange(0, s.len() - 1), env).union(mm_expr(s[s.len() - 1], env))
    }
}

pub open spec fn mm_fields(s: Seq<FieldInit>, env: MutationEnv) -> Set<Seq<char>>
    decreases s,
{
    if s.len() == 0 {
        Set::empty()
    } else {
        mm_fields(s.subrange(0, s.len() - 1), env).union(mm_expr(s[s.len() - 1].value, env))
    }
}

pub open spec fn mm_entries(s: Seq<MapEntryLit>, env: MutationEnv) -> Set<Seq<char>>
    decreases s,
{
    if s.len() == 0 {
        Set::empty()
    } else {
        mm_entries(s.subrange(0, s.len() - 1), env).union(mm_expr(s[s.len() - 1].key, env)).union(
            mm_expr(s[s.len() - 1].value, env),
        )
    }
}

pub open spec fn mm_parts(s: Seq<StringPart>, env: MutationEnv) -> Set<Seq<char>>
    decreases s,
{
    if s.len() == 0 {
        Set::empty()
    } else {
        mm_parts(s.subrange(0, s.len() - 1), env).union(
            match s[s.len() - 1] {
                StringPart::Expr(e, _) => mm_expr(e, env),
                StringPart::Text(_) => Set::empty(),
            },
        )
    }
}

/// The root name of a place, as a set (empty when it has none).
pub open spec fn root_marks(e: Expr) -> Set<Seq<char>> {
    match spec_root_ident(e) {
        Some(n) => set![n],
        None => Set::empty(),
    }
}

/// The names a statement may mutate.
pub open spec fn mm_stmt(st: Stmt, env: MutationEnv) -> Set<Seq<char>>
    decreases st,
{
    match st {
        Stmt::Assign { target, value, .. } => set![target@].union(mm_expr(value, env)),
        Stmt::FieldAssign { target, value, .. } => root_marks(target).union(mm_expr(value, env)),
        Stmt::IndexAssign { receiver, index, value, .. } => root_marks(receiver).union(mm_expr(index, env)).union(
            mm_expr(value, env),
        ),
        Stmt::Let { value, .. } => mm_expr(value, env),
        Stmt::Expr(e) => mm_expr(e, env),
        Stmt::Return { value, .. } => match value {
            Some(e) => mm_expr(e, env),
            None => Set::empty(),
        },
        Stmt::If { cond, body, .. } => mm_expr(cond, env).union(mm_stmts(body.stmts@, env)),
        Stmt::Match { scrutinee, arms, else_arm, .. } => mm_expr(scrutinee, env).union(mm_arms(arms@, env)).union(
            match else_arm {
                Some(b) => mm_stmts(b.stmts@, env),
                None => Set::empty(),
            },
        ),
        Stmt::While { cond, body, .. } => mm_expr(cond, env).union(mm_stmts(body.stmts@, env)),
        Stmt::For { iter, body, .. } => mm_expr(iter, env).union(mm_stmts(body.stmts@, env)),
    }
}

/// The names a statement list may mutate.
pub open spec fn mm_stmts(s: Seq<Stmt>, env: MutationEnv) -> Set<Seq<char>>
    decreases s,
{
    if s.len() == 0 {
        Set::empty()
    } else {
        mm_stmts(s.subrange(0, s.len() - 1), env).union(mm_stmt(s[s.len() - 1], env))
    }
}

pub open spec fn mm_arms(s: Seq<MatchArm>, env: MutationEnv) -> Set<Seq<char>>
    decreases s,
{
    if s.len() == 0 {
        Set::empty()
    } else {
        mm_arms(s.subrange(0, s.len() - 1), env).union(mm_stmts(s[s.len() - 1].body.stmts@, env))
    }
}

/// The binding a place expression is rooted at.
pub fn root_ident(e: &Expr) -> (r: Option<&str>)
    ensures
        match r {
            Some(n) => spec_root_ident(*e) == Some(n@),
            None => spec_root_ident(*e) is None,
        },
    decreases e,
{
    match e {
        Expr::Ident(n, _) => Some(n.as_str()),
        Expr::FieldAccess { receiver, .. } => root_ident(receiver),
        Expr::IndexAccess { receiver, .. } => root_ident(receiver),
        _ => None,
    }
}

pub(crate) fn resolve_ownerships<'a>(ctx: &MutationContext<'a>, name: &str) -> (r: Option<&'a Vec<Option<OwnershipModifier>>>)
    ensures
        match r {
            Some(v) => resolved_ownerships(ctx@, name@) == Some(v@),
            None => resolved_ownerships(ctx@, name@) is None,
        },
{
    match find_row(&ctx.sig_table.fns, name) {
        Some(i) => {
            return Some(&ctx.sig_table.fns[i].1.param_ownerships);
        },
        None => {},
    }
    match find_row(ctx.imported, name) {
        Some(i) => {
            return Some(&ctx.imported[i].1.param_ownerships);
        },
        None => {},
    }
    match find_row(&ctx.generic_fn_table.fns, name) {
        Some(i) => Some(&ctx.generic_fn_table.fns[i].1.param_ownerships),
        None => None,
    }
}

fn modifier_writes(m: &Option<OwnershipModifier>) -> (b: bool)
    ensures
        b == is_write_modifier(*m),
{
    match m {
        Some(OwnershipModifier::Lend) => true,
        Some(OwnershipModifier::Give) => true,
        _ => false,
    }
}

fn position_mutates_exec(ows: Option<&Vec<Option<OwnershipModifier>>>, i: usize) -> (b: bool)
    ensures
        b == position_mutates(
            match ows {
                Some(v) => Some(v@),
                None => None,
            },
            i as int,
        ),
{
    match ows {
        Some(o) => i < o.len() && modifier_writes(&o[i]),
        None => true,
    }
}

fn mark_arg(arg: &Expr, mutating: bool, out: &mut NameSet)
    ensures
        final(out)@ == old(out)@.union(arg_marks(*arg, mutating)),
{
    match arg {
        Expr::Ident(n, _) => {
            if mutating {
                out.insert(n.clone());
                proof {
                    assert(final(out)@ =~= old(out)@.union(set![n@]));
                }
            } else {
                proof {
                    assert(out@ =~= old(out)@.union(Set::empty()));
                }
            }
        },
        _ => {
            proof {
                assert(out@ =~= old(out)@.union(Set::empty()));
            }
        },
    }
}

fn collect_args(
    v: &Vec<Expr>,
    ows: Option<&Vec<Option<OwnershipModifier>>>,
    builtin: bool,
    offset: usize,
    ctx: &MutationContext,
    out: &mut NameSet,
)
    requires
        offset <= 1,
    ensures
        final(out)@ == old(out)@.union(
            mm_args(
                v@,
                match ows {
                    Some(o) => Some(o@),
                    None => None,
                },
                builtin,
                offset as int,
                ctx@,
            ),
        ),
    decreases v,
{
    let ghost ov = match ows {
        Some(o) => Some(o@),
        None => None::<Seq<Option<OwnershipModifier>>>,
    };
    let mut i: usize = 0;
    proof {
        assert(v@.subrange(0, 0) =~= Seq::<Expr>::empty());
        assert(out@ =~= old(out)@.union(mm_args(v@.subrange(0, 0), ov, builtin, offset as int, ctx@)));
    }
    while i < v.len()
        invariant
            i <= v@.len(),
            offset <= 1,
            ov == match ows {
                Some(o) => Some(o@),
                None => None::<Seq<Option<OwnershipModifier>>>,
            },
            out@ == old(out)@.union(mm_args(v@.subrange(0, i as int), ov, builtin, offset as int, ctx@)),
        decreases v@.len() - i,
    {
        proof {
            let pre = v@.subrange(0, i + 1);
            assert(pre.subrange(0, i as int) =~= v@.subrange(0, i as int));
            assert(pre[i as int] == v@[i as int]);
        }
        let mutating = !builtin && position_mutates_exec(ows, offset + i);
        let ghost before = out@;
        mark_arg(&v[i], mutating, out);
        collect_maybe_mutated_expr(&v[i], ctx, out);
        proof {
            assert(out@ =~= old(out)@.union(mm_args(v@.subrange(0, i + 1), ov, builtin, offset as int, ctx@)));
        }
        i = i + 1;
    }
    proof {
        assert(v@.subrange(0, v@.len() as int) =~= v@);
    }
}

fn is_readonly_free_fn(ctx: &MutationContext, name: &str) -> (b: bool)
    ensures
        b == readonly_free_fn(ctx@, name@),
{
    str_eq(name, "print") || str_eq(name, "sensitive") || ctx.readonly_free_fns.contains(name)
}

/// Add to `out` the names the expression may mutate.
pub fn collect_maybe_mutated_expr(e: &Expr, ctx: &MutationContext, out: &mut NameSet)
    ensures
        final(out)@ == old(out)@.union(mm_expr(*e, ctx@)),
    decreases e,
{
    match e {
        Expr::Call(c) => {
            let (ows, builtin) = match &*c.callee {
                Expr::Ident(n, _) => (resolve_ownerships(ctx, n.as_str()), is_readonly_free_fn(ctx, n.as_str())),
                _ => (None, false),
            };
            collect_args(&c.args, ows, builtin, 0, ctx, out);
            collect_maybe_mutated_expr(&c.callee, ctx, out);
            proof {
                assert(out@ =~= old(out)@.union(mm_expr(*e, ctx@)));
            }
        },
        Expr::MethodCall { receiver, method, args, .. } => {
            let ows = resolve_ownerships(ctx, method.as_str());
            let recv_mut = !ctx.readonly_methods.contains(method.as_str()) && match ows {
                Some(o) => o.len() > 0 && modifier_writes(&o[0]),
                None => true,
            };
            match root_ident(receiver) {
                Some(n) => {
                    if recv_mut {
                        out.insert(crate::text::lit(n));
                    }
                },
                None => {},
            }
            let ghost marked = out@;
            collect_maybe_mutated_expr(receiver, ctx, out);
            collect_args(args, ows, false, 1, ctx, out);
            proof {
                assert(out@ =~= old(out)@.union(mm_expr(*e, ctx@)));
            }
        },
        Expr::BinOp { lhs, rhs, .. } => {
            collect_maybe_mutated_expr(lhs, ctx, out);
            collect_maybe_mutated_expr(rhs, ctx, out);
            proof {
                assert(out@ =~= old(out)@.union(mm_expr(*e, ctx@)));
            }
        },
        Expr::UnaryOp { operand, .. } => collect_maybe_mutated_expr(operand, ctx, out),
        Expr::FieldAccess { receiver, .. } => collect_maybe_mutated_expr(receiver, ctx, out),
        Expr::IndexAccess { receiver, index, .. } => {
            collect_maybe_mutated_expr(receiver, ctx, out);
            collect_maybe_mutated_expr(index, ctx, out);
            proof {
                assert(out@ =~= old(out)@.union(mm_expr(*e, ctx@)));
            }
        },
        Expr::StructLit { fields, .. } => collect_in_fields(fields, ctx, out),
        Expr::ArrayLit { elements, .. } => collect_in_exprs(elements, ctx, out),
        Expr::MapLit { entries, .. } => collect_in_entries(entries, ctx, out),
        Expr::PostfixOp { receiver, .. } => collect_maybe_mutated_expr(receiver, ctx, out),
        Expr::Wait(inner, _) => collect_maybe_mutated_expr(inner, ctx, out),
        Expr::Background(inner, _) => collect_maybe_mutated_expr(inner, ctx, out),
        Expr::Is { expr, .. } => collect_maybe_mutated_expr(expr, ctx, out),
        Expr::InterpolatedString(parts, _) => collect_in_parts(parts, ctx, out),
        _ => {
            proof {
                assert(out@ =~= old(out)@.union(Set::empty()));
            }
        },
    }
}

fn collect_in_exprs(v: &Vec<Expr>, ctx: &MutationContext, out: &mut NameSet)
    ensures
        final(out)@ == old(out)@.union(mm_exprs(v@, ctx@)),
    decreases v,
{
    let mut i: usize = 0;
    proof {
        assert(v@.subrange(0, 0) =~= Seq::<Expr>::empty());
        assert(out@ =~= old(out)@.union(mm_exprs(v@.subrange(0, 0), ctx@)));
    }
    while i < v.len()
        invariant
            i <= v@.len(),
            out@ == old(out)@.union(mm_exprs(v@.subrange(0, i as int), ctx@)),
        decreases v@.len() - i,
    {
        proof {
            let pre = v@.subrange(0, i + 1);
            assert(pre.subrange(0, i as int) =~= v@.subrange(0, i as int));
            assert(pre[i as int] == v@[i as int]);
        }
        collect_maybe_mutated_expr(&v[i], ctx, out);
        proof {
            assert(out@ =~= old(out)@.union(mm_exprs(v@.subrange(0, i + 1), ctx@)));
        }
        i = i + 1;
    }
    proof {
        assert(v@.subrange(0, v@.len() as int) =~= v@);
    }
}

fn collect_in_fields(v: &Vec<FieldInit>, ctx: &MutationContext, out: &mut NameSet)
    ensures
        final(out)@ == old(out)@.union(mm_fields(v@, ctx@)),
    decreases v,
{
    let mut i: usize = 0;
    proof {
        assert(v@.subrange(0, 0) =~= Seq::<FieldInit>::empty());
        assert(out@ =~= old(out)@.union(mm_fields(v@.subrange(0, 0), ctx@)));
    }
    while i < v.len()
        invariant
            i <= v@.len(),
            out@ == old(out)@.union(mm_fields(v@.subrange(0, i as int), ctx@)),
        decreases v@.len() - i,
    {
        proof {
            let pre = v@.subrange(0, i + 1);
            assert(pre.subrange(0, i as int) =~= v@.subrange(0, i as int));
            assert(pre[i as int] == v@[i as int]);
        }
        collect_maybe_mutated_expr(&v[i].value, ctx, out);
        proof {
            assert(out@ =~= old(out)@.union(mm_fields(v@.subrange(0, i + 1), ctx@)));
        }
        i = i + 1;
    }
    proof {
        assert(v@.subrange(0, v@.len() as int) =~= v@);
    }
}

fn collect_in_entries(v: &Vec<MapEntryLit>, ctx: &MutationContext, out: &mut NameSet)
    ensures
        final(out)@ == old(out)@.union(mm_entries(v@, ctx@)),
    decreases v,
{
    let mut i: usize = 0;
    proof {
        assert(v@.subrange(0, 0) =~= Seq::<MapEntryLit>::empty());
        assert(out@ =~= old(out)@.union(mm_entries(v@.subrange(0, 0), ctx@)));
    }
    while i < v.len()
        invariant
            i <= v@.len(),
            out@ == old(out)@.union(mm_entries(v@.subrange(0, i as int), ctx@)),
        decreases v@.len() - i,
    {
        proof {
            let pre = v@.subrange(0, i + 1);
            assert(pre.subrange(0, i as int) =~= v@.subrange(0, i as int));
            assert(pre[i as int] == v@[i as int]);
        }
        collect_maybe_mutated_expr(&v[i].key, ctx, out);
        collect_maybe_mutated_expr(&v[i].value, ctx, out);
        proof {
            assert(out@ =~= old(out)@.union(mm_entries(v@.subrange(0, i + 1), ctx@)));
        }
        i = i + 1;
    }
    proof {
        assert(v@.subrange(0, v@.len() as int) =~= v@);
    }
}

fn collect_in_parts(v: &Vec<StringPart>, ctx: &MutationContext, out: &mut NameSet)
    ensures
        final(out)@ == old(out)@.union(mm_parts(v@, ctx@)),
    decreases v,
{
    let mut i: usize = 0;
    proof {
        assert(v@.subrange(0, 0) =~= Seq::<StringPart>::empty());
        assert(out@ =~= old(out)@.union(mm_parts(v@.subrange(0, 0), ctx@)));
    }
    while i < v.len()
        invariant
            i <= v@.len(),
            out@ == old(out)@.union(mm_parts(v@.subrange(0, i as int), ctx@)),
        decreases v@.len() - i,
    {
        proof {
            let pre = v@.subrange(0, i + 1);
            assert(pre.subrange(0, i as int) =~= v@.subrange(0, i as int));
            assert(pre[i as int] == v@[i as int]);
        }
        match &v[i] {
            StringPart::Expr(pe, _) => collect_maybe_mutated_expr(pe, ctx, out),
            StringPart::Text(_) => {},
        }
        proof {
            assert(out@ =~= old(out)@.union(mm_parts(v@.subrange(0, i + 1), ctx@)));
        }
        i = i + 1;
    }
    proof {
        assert(v@.subrange(0, v@.len() as int) =~= v@);
    }
}

fn mark_root(e: &Expr, out: &mut NameSet)
    ensures
        final(out)@ == old(out)@.union(root_marks(*e)),
{
    match root_ident(e) {
        Some(n) => {
            out.insert(crate::text::lit(n));
            proof {
                assert(final(out)@ =~= old(out)@.union(root_marks(*e)));
            }
        },
        None => {
            proof {
                assert(out@ =~= old(out)@.union(root_marks(*e)));
            }
        },
    }
}

/// Add to `out` the names the statement may mutate.
pub fn collect_maybe_mutated_stmt(st: &Stmt, ctx: &MutationContext, out: &mut NameSet)
    ensures
        final(out)@ == old(out)@.union(mm_stmt(*st, ctx@)),
    decreases st,
{
    match st {
        Stmt::Assign { target, value, .. } => {
            out.insert(target.clone());
            collect_maybe_mutated_expr(value, ctx, out);
        },
        Stmt::FieldAssign { target, value, .. } => {
            mark_root(target, out);
            collect_maybe_mutated_expr(value, ctx, out);
        },
        Stmt::IndexAssign { receiver, index, value, .. } => {
            mark_root(receiver, out);
            collect_maybe_mutated_expr(index, ctx, out);
            collect_maybe_mutated_expr(value, ctx, out);
        },
        Stmt::Let { value, .. } => collect_maybe_mutated_expr(value, ctx, out),
        Stmt::Expr(e) => collect_maybe_mutated_expr(e, ctx, out),
        Stmt::Return { value, .. } => match value {
            Some(e) => collect_maybe_mutated_expr(e, ctx, out),
            None => {},
        },
        Stmt::If { cond, body, .. } => {
            collect_maybe_mutated_expr(cond, ctx, out);
            collect_maybe_mutated_stmts(&body.stmts, ctx, out);
        },
        Stmt::Match { scrutinee, arms, else_arm, .. } => {
            collect_maybe_mutated_expr(scrutinee, ctx, out);
            collect_in_arms(arms, ctx, out);
            match else_arm {
                Some(b) => collect_maybe_mutated_stmts(&b.stmts, ctx, out),
                None => {},
            }
        },
        Stmt::While { cond, body, .. } => {
            collect_maybe_mutated_expr(cond, ctx, out);
            collect_maybe_mutated_stmts(&body.stmts, ctx, out);
        },
        Stmt::For { iter, body, .. } => {
            collect_maybe_mutated_expr(iter, ctx, out);
            collect_maybe_mutated_stmts(&body.stmts, ctx, out);
        },
    }
    proof {
        assert(out@ =~= old(out)@.union(mm_stmt(*st, ctx@)));
    }
}

/// Add to `out` the names the statement list may mutate.
pub fn collect_maybe_mutated_stmts(v: &Vec<Stmt>, ctx: &MutationContext, out: &mut NameSet)
    ensures
        final(out)@ == old(out)@.union(mm_stmts(v@, ctx@)),
    decreases v,
{
    let mut i: usize = 0;
    proof {
        assert(v@.subrange(0, 0) =~= Seq::<Stmt>::empty());
        assert(out@ =~= old(out)@.union(mm_stmts(v@.subrange(0, 0), ctx@)));
    }
    while i < v.len()
        invariant
            i <= v@.len(),
            out@ == old(out)@.union(mm_stmts(v@.subrange(0, i as int), ctx@)),
        decreases v@.len() - i,
    {
        proof {
            let pre = v@.subrange(0, i + 1);
            assert(pre.subrange(0, i as int) =~= v@.subrange(0, i as int));
            assert(pre[i as int] == v@[i as int]);
        }
        collect_maybe_mutated_stmt(&v[i], ctx, out);
        proof {
            assert(out@ =~= old(out)@.union(mm_stmts(v@.subrange(0, i + 1), ctx@)));
        }
        i = i + 1;
    }
    proof {
        assert(v@.subrange(0, v@.len() as int) =~= v@);
    }
}

fn collect_in_arms(v: &Vec<MatchArm>, ctx: &MutationContext, out: &mut NameSet)
    ensures
        final(out)@ == old(out)@.union(mm_arms(v@, ctx@)),
    decreases v,
{
    let mut i: usize = 0;
    proof {
        assert(v@.subrange(0, 0) =~= Seq::<MatchArm>::empty());
        assert(out@ =~= old(out)@.union(mm_arms(v@.subrange(0, 0), ctx@)));
    }
    while i < v.len()
        invariant
            i <= v@.len(),
            out@ == old(out)@.union(mm_arms(v@.subrange(0, i as int), ctx@)),
        decreases v@.len() - i,
    {
        proof {
            let pre = v@.subrange(0, i + 1);
            assert(pre.subrange(0, i as int) =~= v@.subrange(0, i as int));
            assert(pre[i as int] == v@[i as int]);
        }
        collect_maybe_mutated_stmts(&v[i].body.stmts, ctx, out);
        proof {
            assert(out@ =~= old(out)@.union(mm_arms(v@.subrange(0, i + 1), ctx@)));
        }
        i = i + 1;
    }
    proof {
        assert(v@.subrange(0, v@.len() as int) =~= v@);
    }
}

/// The names a block may mutate.
pub fn collect_maybe_mutated(block: &Block, ctx: &MutationContext) -> (r: NameSet)
    ensures
        r@ == mm_stmts(block.stmts@, ctx@),
{
    let mut out = NameSet::new();
    collect_maybe_mutated_stmts(&block.stmts, ctx, &mut out);
    proof {
        assert(out@ =~= mm_stmts(block.stmts@, ctx@));
    }
    out
}

} // verus!
