//! The composed frame size of a suspending function, as the importing module's code
//! generator embeds it: a 32-byte header, one 8-byte slot per parameter and per slot of
//! each local that crosses a suspension point, a 16-byte staging slot for a
//! `-> number errors` function, then the composed frames of its direct suspending
//! callees. A conservative estimate from type-pass types: never smaller than the real frame.
use vstd::prelude::*;

use crate::names::{find_row, lookup, NameSet};
use crate::ownership_fixpoint::local_decls;
use crate::return_paths::{expr_span_of};
use crate::shape_passes::{put_row, put_view, row_get, row_index, row_position, row_views};
use crate::shapes::{ShapeDef, ShapeTable};
use crate::syntax::{AstType, Expr, FunctionDecl, Item, MatchArm, Module, Stmt};
use crate::text::{str_eq, string_views};
use crate::type_hints::{expr_key, type_at, type_at_exec};
use crate::types::{Type, TypeView};

verus! {

/// `a + b`, or the largest `u64` when that overflows.
pub open spec fn sat_add(a: u64, b: u64) -> u64 {
    if a + b > u64::MAX {
        u64::MAX
    } else {
        (a + b) as u64
    }
}

fn sat_add_exec(a: u64, b: u64) -> (r: u64)
    ensures
        r == sat_add(a, b),
{
    if a > u64::MAX - b {
        u64::MAX
    } else {
        a + b
    }
}

/// The 8-byte slots one value of type `t` takes: two for a `decimal128` number or an
/// errors-capable value, a shape its fields' slots (at least one; an unknown shape one),
/// anything else one. Shapes are looked up at most `fuel` levels deep.
pub open spec fn frame_slots(t: TypeView, shapes: Seq<(String, ShapeDef)>, fuel: nat) -> u64
    decreases fuel, 0nat,
{
    match t {
        TypeView::Number { precision } => if precision <= 34 {
            2
        } else {
            1
        },
        TypeView::ErrorsCapable { .. } => 2,
        TypeView::Shape { name } => if fuel == 0 {
            1
        } else {
            match lookup(shapes, name) {
                Some(def) => {
                    let s = fields_slots(def.fields@.map_values(|f: crate::shapes::FieldDef| f.ty@), shapes, (fuel - 1) as nat);
                    if s < 1 {
                        1
                    } else {
                        s
                    }
                },
                None => 1,
            }
        },
        _ => 1,
    }
}

/// The slots of the field types, summed.
pub open spec fn fields_slots(ts: Seq<TypeView>, shapes: Seq<(String, ShapeDef)>, fuel: nat) -> u64
    decreases fuel, ts.len(),
{
    if ts.len() == 0 {
        0
    } else {
        sat_add(fields_slots(ts.drop_last(), shapes, fuel), frame_slots(ts.last(), shapes, fuel))
    }
}

fn fields_frame_slots(def: &ShapeDef, shapes: &ShapeTable, fuel: usize) -> (r: u64)
    ensures
        r == fields_slots(def.fields@.map_values(|f: crate::shapes::FieldDef| f.ty@), shapes.shapes@, fuel as nat),
    decreases fuel, 1nat,
{
    let ghost ts = def.fields@.map_values(|f: crate::shapes::FieldDef| f.ty@);
    let mut acc: u64 = 0;
    let mut i: usize = 0;
    proof {
        assert(ts.take(0) =~= Seq::<TypeView>::empty());
    }
    while i < def.fields.len()
        invariant
            i <= def.fields@.len(),
            ts == def.fields@.map_values(|f: crate::shapes::FieldDef| f.ty@),
            acc == fields_slots(ts.take(i as int), shapes.shapes@, fuel as nat),
        decreases def.fields@.len() - i,
    {
        let s = type_frame_slots(&def.fields[i].ty, shapes, fuel);
        proof {
            assert(ts.take(i + 1).drop_last() =~= ts.take(i as int));
            assert(ts.take(i + 1).last() == def.fields@[i as int].ty@);
        }
        acc = sat_add_exec(acc, s);
        i = i + 1;
    }
    proof {
        assert(ts.take(i as int) =~= ts);
    }
    acc
}

/// The slots of one value of `t`, shapes looked up at most `fuel` levels deep.
#[verifier::spinoff_prover]
#[verifier::rlimit(80)]
pub fn type_frame_slots(t: &Type, shapes: &ShapeTable, fuel: usize) -> (r: u64)
    ensures
        r == frame_slots(t@, shapes.shapes@, fuel as nat),
    decreases fuel, 0nat,
{
    match t {
        Type::Number { precision } => {
            if *precision <= 34 {
                2
            } else {
                1
            }
        },
        Type::ErrorsCapable { .. } => 2,
        Type::Shape { name } => {
            if fuel == 0 {
                1
            } else {
                proof {
                    assert(t@ == TypeView::Shape { name: name@ });
                }
                match shapes.get(name.as_str()) {
                    Some(def) => {
                        let acc = fields_frame_slots(def, shapes, fuel - 1);
                        if acc < 1 {
                            1
                        } else {
                            acc
                        }
                    },
                    None => 1,
                }
            }
        },
        _ => 1,
    }
}

/// The type-pass type of the first `let` named `n` among the statements (nested blocks are
/// not searched) whose value has a recorded type; `int` when there is none.
pub open spec fn let_type(s: Seq<Stmt>, n: Seq<char>, et: Seq<((usize, usize), Type)>) -> TypeView
    decreases s.len(),
{
    if s.len() == 0 {
        TypeView::Int
    } else {
        let found = match s[0] {
            Stmt::Let { name, value, .. } => if name@ == n {
                type_at(et, expr_key(value))
            } else {
                None
            },
            _ => None,
        };
        match found {
            Some(t) => t,
            None => let_type(s.subrange(1, s.len() as int), n, et),
        }
    }
}

fn let_type_exec<'a>(s: &Vec<Stmt>, n: &str, et: &'a Vec<((usize, usize), Type)>) -> (r: Option<&'a Type>)
    ensures
        match r {
            Some(t) => let_type(s@, n@, et@) == t@,
            None => let_type(s@, n@, et@) == TypeView::Int,
        },
{
    let mut i: usize = 0;
    proof {
        assert(s@.subrange(0, s@.len() as int) =~= s@);
    }
    while i < s.len()
        invariant
            i <= s@.len(),
            let_type(s@, n@, et@) == let_type(s@.subrange(i as int, s@.len() as int), n@, et@),
        decreases s@.len() - i,
    {
        let ghost rest = s@.subrange(i as int, s@.len() as int);
        proof {
            assert(rest[0] == s@[i as int]);
            assert(rest.subrange(1, rest.len() as int) =~= s@.subrange(i + 1, s@.len() as int));
        }
        match &s[i] {
            Stmt::Let { name, value, .. } => {
                if str_eq(name.as_str(), n) {
                    let sp = expr_span_of(value);
                    match type_at_exec(et, (sp.start, sp.end)) {
                        Some(t) => {
                            return Some(t);
                        },
                        None => {},
                    }
                }
            },
            _ => {},
        }
        i = i + 1;
    }
    proof {
        assert(s@.subrange(i as int, s@.len() as int).len() == 0);
    }
    None
}

/// Every call of a suspending named function in an expression, in walk order (callee,
/// then arguments, then the callee expression); only calls, `wait`, operators, field and
/// index accesses, postfix operators and method calls are walked into.
pub open spec fn dc_expr(e: Expr, sus: Set<Seq<char>>) -> Seq<Seq<char>>
    decreases e,
{
    match e {
        Expr::Call(c) => {
            let here = match *c.callee {
                Expr::Ident(n, _) => if sus.contains(n@) {
                    seq![n@]
                } else {
                    Seq::empty()
                },
                _ => Seq::empty(),
            };
            here + dc_exprs(c.args@, sus) + dc_expr(*c.callee, sus)
        },
        Expr::Wait(inner, _) => dc_expr(*inner, sus),
        Expr::BinOp { lhs, rhs, .. } => dc_expr(*lhs, sus) + dc_expr(*rhs, sus),
        Expr::UnaryOp { operand, .. } => dc_expr(*operand, sus),
        Expr::FieldAccess { receiver, .. } => dc_expr(*receiver, sus),
        Expr::PostfixOp { receiver, .. } => dc_expr(*receiver, sus),
        Expr::MethodCall { receiver, args, .. } => dc_expr(*receiver, sus) + dc_exprs(args@, sus),
        Expr::IndexAccess { receiver, index, .. } => dc_expr(*receiver, sus) + dc_expr(*index, sus),
        _ => Seq::empty(),
    }
}

pub open spec fn dc_exprs(s: Seq<Expr>, sus: Set<Seq<char>>) -> Seq<Seq<char>>
    decreases s,
{
    if s.len() == 0 {
        Seq::empty()
    } else {
        dc_exprs(s.subrange(0, s.len() - 1), sus) + dc_expr(s[s.len() - 1], sus)
    }
}

pub open spec fn dc_stmt(st: Stmt, sus: Set<Seq<char>>) -> Seq<Seq<char>>
    decreases st,
{
    match st {
        Stmt::Expr(e) => dc_expr(e, sus),
        Stmt::Let { value, .. } => dc_expr(value, sus),
        Stmt::Return { value, .. } => match value {
            Some(e) => dc_expr(e, sus),
            None => Seq::empty(),
        },
        Stmt::Assign { value, .. } => dc_expr(value, sus),
        Stmt::FieldAssign { target, value, .. } => dc_expr(target, sus) + dc_expr(value, sus),
        Stmt::IndexAssign { receiver, index, value, .. } => dc_expr(receiver, sus) + dc_expr(index, sus) + dc_expr(
            value,
            sus,
        ),
        Stmt::If { cond, body, .. } => dc_expr(cond, sus) + dc_stmts(body.stmts@, sus),
        Stmt::While { cond, body, .. } => dc_expr(cond, sus) + dc_stmts(body.stmts@, sus),
        Stmt::For { iter, body, .. } => dc_expr(iter, sus) + dc_stmts(body.stmts@, sus),
        Stmt::Match { scrutinee, arms, else_arm, .. } => dc_expr(scrutinee, sus) + dc_arms(arms@, sus) + match else_arm {
            Some(b) => dc_stmts(b.stmts@, sus),
            None => Seq::empty(),
        },
    }
}

pub open spec fn dc_stmts(s: Seq<Stmt>, sus: Set<Seq<char>>) -> Seq<Seq<char>>
    decreases s,
{
    if s.len() == 0 {
        Seq::empty()
    } else {
        dc_stmts(s.subrange(0, s.len() - 1), sus) + dc_stmt(s[s.len() - 1], sus)
    }
}

pub open spec fn dc_arms(s: Seq<MatchArm>, sus: Set<Seq<char>>) -> Seq<Seq<char>>
    decreases s,
{
    if s.len() == 0 {
        Seq::empty()
    } else {
        dc_arms(s.subrange(0, s.len() - 1), sus) + dc_stmts(s[s.len() - 1].body.stmts@, sus)
    }
}

/// The names in order of first occurrence, each once.
pub open spec fn first_occurrences(s: Seq<Seq<char>>) -> Seq<Seq<char>>
    decreases s.len(),
{
    if s.len() == 0 {
        Seq::empty()
    } else {
        let d = first_occurrences(s.drop_last());
        if d.contains(s.last()) {
            d
        } else {
            d.push(s.last())
        }
    }
}

/// The suspending functions a body calls directly, each once, in order of first call.
pub open spec fn direct_suspending_callees(stmts: Seq<Stmt>, sus: Set<Seq<char>>) -> Seq<Seq<char>> {
    first_occurrences(dc_stmts(stmts, sus))
}

fn dc_expr_exec(e: &Expr, sus: &NameSet, out: &mut Vec<String>)
    ensures
        string_views(final(out)@) == string_views(old(out)@) + dc_expr(*e, sus@),
    decreases e,
{
    let ghost o = string_views(out@);
    match e {
        Expr::Call(c) => {
            match &*c.callee {
                Expr::Ident(n, _) => {
                    if sus.contains(n.as_str()) {
                        let ghost before = out@;
                        let c2 = n.clone();
                        out.push(c2);
                        proof {
                            assert(string_views(out@) =~= string_views(before).push(n@));
                        }
                    }
                },
                _ => {},
            }
            dc_exprs_exec(&c.args, sus, out);
            dc_expr_exec(&c.callee, sus, out);
        },
        Expr::Wait(inner, _) => dc_expr_exec(inner, sus, out),
        Expr::BinOp { lhs, rhs, .. } => {
            dc_expr_exec(lhs, sus, out);
            dc_expr_exec(rhs, sus, out);
        },
        Expr::UnaryOp { operand, .. } => dc_expr_exec(operand, sus, out),
        Expr::FieldAccess { receiver, .. } => dc_expr_exec(receiver, sus, out),
        Expr::PostfixOp { receiver, .. } => dc_expr_exec(receiver, sus, out),
        Expr::MethodCall { receiver, args, .. } => {
            dc_expr_exec(receiver, sus, out);
            dc_exprs_exec(args, sus, out);
        },
        Expr::IndexAccess { receiver, index, .. } => {
            dc_expr_exec(receiver, sus, out);
            dc_expr_exec(index, sus, out);
        },
        _ => {},
    }
    proof {
        assert(string_views(out@) =~= o + dc_expr(*e, sus@));
    }
}

fn dc_exprs_exec(v: &Vec<Expr>, sus: &NameSet, out: &mut Vec<String>)
    ensures
        string_views(final(out)@) == string_views(old(out)@) + dc_exprs(v@, sus@),
    decreases v,
{
    let ghost o = string_views(out@);
    let mut i: usize = 0;
    proof {
        assert(v@.subrange(0, 0) =~= Seq::<Expr>::empty());
        assert(string_views(out@) =~= o + dc_exprs(v@.subrange(0, 0), sus@));
    }
    while i < v.len()
        invariant
            i <= v@.len(),
            string_views(out@) == o + dc_exprs(v@.subrange(0, i as int), sus@),
        decreases v@.len() - i,
    {
        proof {
            let pre = v@.subrange(0, i + 1);
            assert(pre.subrange(0, i as int) =~= v@.subrange(0, i as int));
            assert(pre[i as int] == v@[i as int]);
        }
        dc_expr_exec(&v[i], sus, out);
        proof {
            assert(string_views(out@) =~= o + dc_exprs(v@.subrange(0, i + 1), sus@));
        }
        i = i + 1;
    }
    proof {
        assert(v@.subrange(0, v@.len() as int) =~= v@);
    }
}

fn dc_stmt_exec(st: &Stmt, sus: &NameSet, out: &mut Vec<String>)
    ensures
        string_views(final(out)@) == string_views(old(out)@) + dc_stmt(*st, sus@),
    decreases st,
{
    let ghost o = string_views(out@);
    match st {
        Stmt::Expr(e) => dc_expr_exec(e, sus, out),
        Stmt::Let { value, .. } => dc_expr_exec(value, sus, out),
        Stmt::Return { value, .. } => match value {
            Some(e) => dc_expr_exec(e, sus, out),
            None => {},
        },
        Stmt::Assign { value, .. } => dc_expr_exec(value, sus, out),
        Stmt::FieldAssign { target, value, .. } => {
            dc_expr_exec(target, sus, out);
            dc_expr_exec(value, sus, out);
        },
        Stmt::IndexAssign { receiver, index, value, .. } => {
            dc_expr_exec(receiver, sus, out);
            dc_expr_exec(index, sus, out);
            dc_expr_exec(value, sus, out);
        },
        Stmt::If { cond, body, .. } => {
            dc_expr_exec(cond, sus, out);
            dc_stmts_exec(&body.stmts, sus, out);
        },
        Stmt::While { cond, body, .. } => {
            dc_expr_exec(cond, sus, out);
            dc_stmts_exec(&body.stmts, sus, out);
        },
        Stmt::For { iter, body, .. } => {
            dc_expr_exec(iter, sus, out);
            dc_stmts_exec(&body.stmts, sus, out);
        },
        Stmt::Match { scrutinee, arms, else_arm, .. } => {
            dc_expr_exec(scrutinee, sus, out);
            dc_arms_exec(arms, sus, out);
            match else_arm {
                Some(b) => dc_stmts_exec(&b.stmts, sus, out),
                None => {},
            }
        },
    }
    proof {
        assert(string_views(out@) =~= o + dc_stmt(*st, sus@));
    }
}

fn dc_stmts_exec(v: &Vec<Stmt>, sus: &NameSet, out: &mut Vec<String>)
    ensures
        string_views(final(out)@) == string_views(old(out)@) + dc_stmts(v@, sus@),
    decreases v,
{
    let ghost o = string_views(out@);
    let mut i: usize = 0;
    proof {
        assert(v@.subrange(0, 0) =~= Seq::<Stmt>::empty());
        assert(string_views(out@) =~= o + dc_stmts(v@.subrange(0, 0), sus@));
    }
    while i < v.len()
        invariant
            i <= v@.len(),
            string_views(out@) == o + dc_stmts(v@.subrange(0, i as int), sus@),
        decreases v@.len() - i,
    {
        proof {
            let pre = v@.subrange(0, i + 1);
            assert(pre.subrange(0, i as int) =~= v@.subrange(0, i as int));
            assert(pre[i as int] == v@[i as int]);
        }
        dc_stmt_exec(&v[i], sus, out);
        proof {
            assert(string_views(out@) =~= o + dc_stmts(v@.subrange(0, i + 1), sus@));
        }
        i = i + 1;
    }
    proof {
        assert(v@.subrange(0, v@.len() as int) =~= v@);
    }
}

fn dc_arms_exec(v: &Vec<MatchArm>, sus: &NameSet, out: &mut Vec<String>)
    ensures
        string_views(final(out)@) == string_views(old(out)@) + dc_arms(v@, sus@),
    decreases v,
{
    let ghost o = string_views(out@);
    let mut i: usize = 0;
    proof {
        assert(v@.subrange(0, 0) =~= Seq::<MatchArm>::empty());
        assert(string_views(out@) =~= o + dc_arms(v@.subrange(0, 0), sus@));
    }
    while i < v.len()
        invariant
            i <= v@.len(),
            string_views(out@) == o + dc_arms(v@.subrange(0, i as int), sus@),
        decreases v@.len() - i,
    {
        proof {
            let pre = v@.subrange(0, i + 1);
            assert(pre.subrange(0, i as int) =~= v@.subrange(0, i as int));
            assert(pre[i as int] == v@[i as int]);
        }
        dc_stmts_exec(&v[i].body.stmts, sus, out);
        proof {
            assert(string_views(out@) =~= o + dc_arms(v@.subrange(0, i + 1), sus@));
        }
        i = i + 1;
    }
    proof {
        assert(v@.subrange(0, v@.len() as int) =~= v@);
    }
}

fn contains_name(v: &Vec<String>, n: &str) -> (b: bool)
    ensures
        b == string_views(v@).contains(n@),
{
    let mut i: usize = 0;
    while i < v.len()
        invariant
            i <= v@.len(),
            forall|k: int| 0 <= k < i ==> #[trigger] string_views(v@)[k] != n@,
        decreases v@.len() - i,
    {
        if str_eq(v[i].as_str(), n) {
            proof {
                assert(string_views(v@)[i as int] == n@);
            }
            return true;
        }
        i = i + 1;
    }
    false
}

/// The suspending functions the statements call directly, each once, in order of first call.
pub fn collect_direct_suspending_callees(stmts: &Vec<Stmt>, suspends: &NameSet) -> (r: Vec<String>)
    ensures
        string_views(r@) == direct_suspending_callees(stmts@, suspends@),
{
    let mut raw: Vec<String> = Vec::new();
    proof {
        assert(string_views(raw@) =~= Seq::<Seq<char>>::empty());
    }
    dc_stmts_exec(stmts, suspends, &mut raw);
    proof {
        assert(string_views(raw@) =~= dc_stmts(stmts@, suspends@));
    }
    let ghost rv = string_views(raw@);
    let mut out: Vec<String> = Vec::new();
    let mut i: usize = 0;
    proof {
        assert(rv.take(0) =~= Seq::<Seq<char>>::empty());
        assert(string_views(out@) =~= first_occurrences(rv.take(0)));
    }
    while i < raw.len()
        invariant
            i <= raw@.len(),
            rv == string_views(raw@),
            string_views(out@) == first_occurrences(rv.take(i as int)),
        decreases raw@.len() - i,
    {
        proof {
            assert(rv.take(i + 1).drop_last() =~= rv.take(i as int));
            assert(rv.take(i + 1).last() == raw@[i as int]@);
        }
        if !contains_name(&out, raw[i].as_str()) {
            let ghost before = out@;
            let c = raw[i].clone();
            out.push(c);
            proof {
                assert(string_views(out@) =~= string_views(before).push(raw@[i as int]@));
            }
        }
        i = i + 1;
    }
    proof {
        assert(rv.take(i as int) =~= rv);
    }
    out
}

/// What the frame sizes are computed against: the module's functions, the suspending
/// names, the shape table's rows, the type pass's expression types, and for each function
/// the locals that cross one of its suspension points.
pub struct FrameCtx {
    pub decls: Seq<FunctionDecl>,
    pub suspends: Set<Seq<char>>,
    pub shapes: Seq<(String, ShapeDef)>,
    pub et: Seq<((usize, usize), Type)>,
    pub crossings: Seq<(String, Vec<String>)>,
}

/// `8 * a`, or the largest `u64` when that overflows.
pub open spec fn sat_mul8(a: u64) -> u64 {
    if a * 8 > u64::MAX {
        u64::MAX
    } else {
        (a * 8) as u64
    }
}

/// The crossing locals recorded for the function `n` (none when it has no row).
pub open spec fn crossing_names(ctx: FrameCtx, n: Seq<char>) -> Seq<Seq<char>> {
    match lookup(ctx.crossings, n) {
        Some(v) => string_views(v@),
        None => Seq::empty(),
    }
}

/// The slots of the first `k` crossing locals of `f`, each by the type of its `let`.
pub open spec fn crossing_slots(ctx: FrameCtx, f: FunctionDecl, names: Seq<Seq<char>>, k: int) -> u64
    decreases k,
{
    if k <= 0 {
        0
    } else {
        sat_add(
            crossing_slots(ctx, f, names, k - 1),
            frame_slots(let_type(f.body.stmts@, names[k - 1], ctx.et), ctx.shapes, ctx.shapes.len()),
        )
    }
}

/// Where the child frames of `f` start: the header, a slot per parameter and per crossing
/// slot, and the staging slot of a `-> number errors` function.
pub open spec fn children_start(ctx: FrameCtx, f: FunctionDecl) -> u64 {
    let names = crossing_names(ctx, f.name@);
    let locals = sat_add(f.params@.len() as u64, crossing_slots(ctx, f, names, names.len() as int));
    let base = sat_add(32, sat_mul8(locals));
    let staging: u64 = if f.return_type is Number && f.errors_capable {
        16
    } else {
        0
    };
    sat_add(base, staging)
}

/// The first function named `n`.
pub open spec fn first_decl(decls: Seq<FunctionDecl>, n: Seq<char>) -> Option<FunctionDecl>
    decreases decls.len(),
{
    if decls.len() == 0 {
        None
    } else if decls[0].name@ == n {
        Some(decls[0])
    } else {
        first_decl(decls.subrange(1, decls.len() as int), n)
    }
}

/// The composed frame size of `f` and the memo after computing it: a memoized size is
/// reused; a function already on the path (or past the depth limit) counts as a bare
/// header; otherwise its children's sizes are added after its own part, and the total is
/// memoized.
pub open spec fn composed(
    ctx: FrameCtx,
    f: FunctionDecl,
    visited: Set<Seq<char>>,
    memo: Seq<(Seq<char>, u64)>,
    fuel: nat,
) -> (u64, Seq<(Seq<char>, u64)>)
    decreases fuel, 0int, 0int,
{
    match row_get(memo, f.name@) {
        Some(c) => (c, memo),
        None => if visited.contains(f.name@) || fuel == 0 {
            (32, memo)
        } else {
            let callees = direct_suspending_callees(f.body.stmts@, ctx.suspends);
            let (cursor, m) = children(
                ctx,
                f.name@,
                callees,
                callees.len() as int,
                visited.insert(f.name@),
                memo,
                (fuel - 1) as nat,
                children_start(ctx, f),
            );
            (cursor, put_view(m, f.name@, cursor))
        },
    }
}

/// The running size after the first `k` direct suspending callees (a call of the function
/// itself, or of a name with no local declaration, adds nothing).
pub open spec fn children(
    ctx: FrameCtx,
    own: Seq<char>,
    callees: Seq<Seq<char>>,
    k: int,
    visited: Set<Seq<char>>,
    memo: Seq<(Seq<char>, u64)>,
    fuel: nat,
    start: u64,
) -> (u64, Seq<(Seq<char>, u64)>)
    decreases fuel, 1int, k,
{
    if k <= 0 {
        (start, memo)
    } else {
        let (cur, m) = children(ctx, own, callees, k - 1, visited, memo, fuel, start);
        let c = callees[k - 1];
        if c == own || !ctx.suspends.contains(c) {
            (cur, m)
        } else {
            match first_decl(ctx.decls, c) {
                Some(d) => {
                    let (sz, m2) = composed(ctx, d, visited, m, fuel);
                    (sat_add(cur, sz), m2)
                },
                None => (cur, m),
            }
        }
    }
}

pub open spec fn frame_ctx(
    module: Module,
    suspends: Set<Seq<char>>,
    shapes: ShapeTable,
    et: Seq<((usize, usize), Type)>,
    crossings: Seq<(String, Vec<String>)>,
) -> FrameCtx {
    FrameCtx { decls: local_decls(module.items@), suspends, shapes: shapes.shapes@, et, crossings }
}

/// Every memoized size is at least a frame header.
pub open spec fn memo_ok(m: Seq<(Seq<char>, u64)>) -> bool {
    forall|i: int| 0 <= i < m.len() ==> #[trigger] m[i].1 >= 32
}

fn sat_mul8_exec(a: u64) -> (r: u64)
    ensures
        r == sat_mul8(a),
{
    if a > u64::MAX / 8 {
        u64::MAX
    } else {
        a * 8
    }
}

fn children_start_exec(
    f: &FunctionDecl,
    shapes: &ShapeTable,
    et: &Vec<((usize, usize), Type)>,
    crossings: &Vec<(String, Vec<String>)>,
    Ghost(ctx): Ghost<FrameCtx>,
) -> (r: u64)
    requires
        ctx.shapes == shapes.shapes@,
        ctx.et == et@,
        ctx.crossings == crossings@,
    ensures
        r == children_start(ctx, *f),
        r >= 32,
{
    let ghost names = crossing_names(ctx, f.name@);
    let mut cs: u64 = 0;
    match find_row(crossings, f.name.as_str()) {
        Some(row) => {
            let locals = &crossings[row].1;
            let mut i: usize = 0;
            proof {
                assert(names == string_views(locals@));
            }
            while i < locals.len()
                invariant
                    i <= locals@.len(),
                    names == string_views(locals@),
                    ctx.shapes == shapes.shapes@,
                    ctx.et == et@,
                    cs == crossing_slots(ctx, *f, names, i as int),
                decreases locals@.len() - i,
            {
                let t = let_type_exec(&f.body.stmts, locals[i].as_str(), et);
                proof {
                    assert(names[i as int] == locals@[i as int]@);
                }
                let slots = match t {
                    Some(t) => type_frame_slots(t, shapes, shapes.shapes.len()),
                    None => type_frame_slots(&Type::Int, shapes, shapes.shapes.len()),
                };
                cs = sat_add_exec(cs, slots);
                i = i + 1;
            }
        },
        None => {},
    }
    let locals = sat_add_exec(f.params.len() as u64, cs);
    let base = sat_add_exec(32, sat_mul8_exec(locals));
    let staging: u64 = if f.errors_capable {
        match f.return_type {
            AstType::Number { .. } => 16,
            _ => 0,
        }
    } else {
        0
    };
    sat_add_exec(base, staging)
}

fn first_decl_exec<'a>(module: &'a Module, positions: &Vec<usize>, n: &str) -> (r: Option<&'a FunctionDecl>)
    requires
        crate::ownership_fixpoint::positions_of(module.items@, positions@),
    ensures
        match r {
            Some(d) => first_decl(local_decls(module.items@), n@) == Some(*d),
            None => first_decl(local_decls(module.items@), n@) is None,
        },
{
    let ghost decls = local_decls(module.items@);
    let mut k: usize = 0;
    proof {
        assert(decls.subrange(0, decls.len() as int) =~= decls);
    }
    while k < positions.len()
        invariant
            k <= positions@.len(),
            decls == local_decls(module.items@),
            crate::ownership_fixpoint::positions_of(module.items@, positions@),
            first_decl(decls, n@) == first_decl(decls.subrange(k as int, decls.len() as int), n@),
        decreases positions@.len() - k,
    {
        let ghost rest = decls.subrange(k as int, decls.len() as int);
        proof {
            assert(rest[0] == decls[k as int]);
            assert(rest.subrange(1, rest.len() as int) =~= decls.subrange(k + 1, decls.len() as int));
        }
        match &module.items[positions[k]] {
            Item::Function(f) => {
                proof {
                    assert(*f == decls[k as int]);
                }
                if str_eq(f.name.as_str(), n) {
                    return Some(f);
                }
            },
            _ => {
                proof {
                    assert(false);
                }
            },
        }
        k = k + 1;
    }
    proof {
        assert(decls.subrange(k as int, decls.len() as int).len() == 0);
    }
    None
}

#[verifier::spinoff_prover]
#[verifier::rlimit(60)]
fn composed_exec(
    module: &Module,
    positions: &Vec<usize>,
    suspends: &NameSet,
    shapes: &ShapeTable,
    et: &Vec<((usize, usize), Type)>,
    crossings: &Vec<(String, Vec<String>)>,
    f: &FunctionDecl,
    visited: &NameSet,
    memo: &mut Vec<(String, u64)>,
    fuel: usize,
) -> (r: u64)
    requires
        crate::ownership_fixpoint::positions_of(module.items@, positions@),
        memo_ok(row_views(old(memo)@)),
    ensures
        (r, row_views(final(memo)@)) == composed(
            frame_ctx(*module, suspends@, *shapes, et@, crossings@),
            *f,
            visited@,
            row_views(old(memo)@),
            fuel as nat,
        ),
        r >= 32,
        memo_ok(row_views(final(memo)@)),
    decreases fuel,
{
    let ghost ctx = frame_ctx(*module, suspends@, *shapes, et@, crossings@);
    let ghost m0 = row_views(memo@);
    match row_position(memo, f.name.as_str()) {
        Some(i) => {
            proof {
                assert(row_get(m0, f.name@) == Some(m0[i as int].1));
                assert(m0[i as int].1 == memo@[i as int].1);
            }
            return memo[i].1;
        },
        None => {},
    }
    if visited.contains(f.name.as_str()) || fuel == 0 {
        return 32;
    }
    let callees = collect_direct_suspending_callees(&f.body.stmts, suspends);
    let ghost cv = string_views(callees@);
    let mut v2 = visited.copy();
    v2.insert(f.name.clone());
    let start = children_start_exec(f, shapes, et, crossings, Ghost(ctx));
    let mut cursor = start;
    let mut k: usize = 0;
    while k < callees.len()
        invariant
            k <= callees@.len(),
            cv == string_views(callees@),
            cv == direct_suspending_callees(f.body.stmts@, suspends@),
            ctx == frame_ctx(*module, suspends@, *shapes, et@, crossings@),
            crate::ownership_fixpoint::positions_of(module.items@, positions@),
            fuel > 0,
            v2@ == visited@.insert(f.name@),
            (cursor, row_views(memo@)) == children(ctx, f.name@, cv, k as int, v2@, m0, (fuel - 1) as nat, start),
            cursor >= 32,
            memo_ok(row_views(memo@)),
        decreases callees@.len() - k,
    {
        let c = callees[k].as_str();
        proof {
            assert(cv[k as int] == c@);
        }
        if !str_eq(c, f.name.as_str()) && suspends.contains(c) {
            match first_decl_exec(module, positions, c) {
                Some(d) => {
                    let sz = composed_exec(module, positions, suspends, shapes, et, crossings, d, &v2, memo, fuel - 1);
                    cursor = sat_add_exec(cursor, sz);
                },
                None => {},
            }
        }
        k = k + 1;
    }
    let ghost mk = row_views(memo@);
    put_row(memo, f.name.clone(), cursor);
    proof {
        let pv = put_view(mk, f.name@, cursor);
        assert(row_views(memo@) == pv);
        crate::shape_passes::lemma_row_index(mk, f.name@);
        let idx = row_index(mk, f.name@);
        assert forall|i: int| 0 <= i < pv.len() implies #[trigger] pv[i].1 >= 32 by {
            if idx >= 0 {
                assert(pv == mk.update(idx, (f.name@, cursor)));
                if i != idx {
                    assert(pv[i] == mk[i]);
                }
            } else {
                assert(pv == mk.push((f.name@, cursor)));
                if i < mk.len() {
                    assert(pv[i] == mk[i]);
                }
            }
        }
    }
    cursor
}

/// The composed sizes of the named functions, in order, threading one memo through them:
/// each name that suspends and has a declaration gets the size of its first declaration.
pub open spec fn frame_sizes(
    ctx: FrameCtx,
    names: Seq<Seq<char>>,
    k: int,
) -> (Seq<(Seq<char>, u64)>, Seq<(Seq<char>, u64)>)
    decreases k,
{
    if k <= 0 {
        (Seq::empty(), Seq::empty())
    } else {
        let (out, memo) = frame_sizes(ctx, names, k - 1);
        let n = names[k - 1];
        if ctx.suspends.contains(n) {
            match first_decl(ctx.decls, n) {
                Some(d) => {
                    let (sz, m) = composed(ctx, d, Set::empty(), memo, ctx.decls.len());
                    (out.push((n, sz)), m)
                },
                None => (out, memo),
            }
        } else {
            (out, memo)
        }
    }
}

/// The composed frame sizes of the named (exported) functions that suspend, each with its
/// name, in order: a conservative byte count never smaller than the real frame, and never
/// smaller than the 32-byte header. `crossings` gives, per function, the locals that live
/// across one of its suspension points.
pub fn composed_frame_sizes(
    module: &Module,
    names: &Vec<String>,
    suspends: &NameSet,
    shapes: &ShapeTable,
    expr_types: &Vec<((usize, usize), Type)>,
    crossings: &Vec<(String, Vec<String>)>,
) -> (r: Vec<(String, u64)>)
    ensures
        row_views(r@) == frame_sizes(
            frame_ctx(*module, suspends@, *shapes, expr_types@, crossings@),
            string_views(names@),
            names@.len() as int,
        ).0,
        forall|k: int| 0 <= k < r@.len() ==> #[trigger] r@[k].1 >= 32,
{
    let ghost ctx = frame_ctx(*module, suspends@, *shapes, expr_types@, crossings@);
    let ghost nv = string_views(names@);
    let positions = crate::ownership_fixpoint::function_item_positions(module);
    let mut out: Vec<(String, u64)> = Vec::new();
    let mut memo: Vec<(String, u64)> = Vec::new();
    let mut k: usize = 0;
    proof {
        assert(row_views(out@) =~= Seq::<(Seq<char>, u64)>::empty());
        assert(row_views(memo@) =~= Seq::<(Seq<char>, u64)>::empty());
    }
    while k < names.len()
        invariant
            k <= names@.len(),
            nv == string_views(names@),
            ctx == frame_ctx(*module, suspends@, *shapes, expr_types@, crossings@),
            crate::ownership_fixpoint::positions_of(module.items@, positions@),
            positions@.len() == ctx.decls.len(),
            (row_views(out@), row_views(memo@)) == frame_sizes(ctx, nv, k as int),
            memo_ok(row_views(memo@)),
            forall|q: int| 0 <= q < out@.len() ==> #[trigger] out@[q].1 >= 32,
        decreases names@.len() - k,
    {
        let n = names[k].as_str();
        proof {
            assert(nv[k as int] == n@);
        }
        if suspends.contains(n) {
            match first_decl_exec(module, &positions, n) {
                Some(d) => {
                    let empty = NameSet::new();
                    let sz = composed_exec(module, &positions, suspends, shapes, expr_types, crossings, d, &empty, &mut memo, positions.len());
                    let ghost before = out@;
                    out.push((names[k].clone(), sz));
                    proof {
                        assert(row_views(out@) =~= row_views(before).push((n@, sz)));
                    }
                },
                None => {},
            }
        }
        k = k + 1;
    }
    out
}

} // verus!
