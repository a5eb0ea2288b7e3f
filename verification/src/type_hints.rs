//! The inlay-hint passes that read the type pass's expression types: `: Type` after each
//! un-annotated `let`, and `.copy (N bytes)` after each trivially-copyable call argument.
use vstd::prelude::*;

use crate::independence::{is_trivially_copyable, spec_trivially_copyable};
use crate::inlay_hints::{copy_size_text, spec_copy_size_text, CopyHint, TypeHint};
use crate::ownership_fixpoint::local_decls;
use crate::return_paths::{expr_span, expr_span_of};
use crate::syntax::{Expr, FunctionDecl, Item, MatchArm, Module, Stmt, StringPart};
use crate::text::lit;
use crate::types::{render_type, spec_render_type, Type, TypeView};

verus! {

/// The type the type pass recorded for the expression at `key` (start and end byte): the
/// first row with that key.
pub open spec fn type_at(rows: Seq<((usize, usize), Type)>, key: (usize, usize)) -> Option<TypeView>
    decreases rows.len(),
{
    if rows.len() == 0 {
        None
    } else if rows[0].0 == key {
        Some(rows[0].1@)
    } else {
        type_at(rows.subrange(1, rows.len() as int), key)
    }
}

/// The key of an expression: its span's start and end.
pub open spec fn expr_key(e: Expr) -> (usize, usize) {
    (expr_span(e).start, expr_span(e).end)
}

pub(crate) fn type_at_exec(rows: &Vec<((usize, usize), Type)>, key: (usize, usize)) -> (r: Option<&Type>)
    ensures
        match r {
            Some(t) => type_at(rows@, key) == Some(t@),
            None => type_at(rows@, key) is None,
        },
{
    let mut i: usize = 0;
    proof {
        assert(rows@.subrange(0, rows@.len() as int) =~= rows@);
    }
    while i < rows.len()
        invariant
            i <= rows@.len(),
            type_at(rows@, key) == type_at(rows@.subrange(i as int, rows@.len() as int), key),
        decreases rows@.len() - i,
    {
        let ghost rest = rows@.subrange(i as int, rows@.len() as int);
        proof {
            assert(rest[0] == rows@[i as int]);
            assert(rest.subrange(1, rest.len() as int) =~= rows@.subrange(i + 1, rows@.len() as int));
        }
        if rows[i].0.0 == key.0 && rows[i].0.1 == key.1 {
            return Some(&rows[i].1);
        }
        i = i + 1;
    }
    proof {
        assert(rows@.subrange(i as int, rows@.len() as int).len() == 0);
    }
    None
}

/// The model of a [`TypeHint`].
pub open spec fn type_hint_views(v: Seq<TypeHint>) -> Seq<(int, Seq<char>)> {
    v.map_values(|h: TypeHint| (h.position as int, h.type_text@))
}

/// The type hints of a statement: an un-annotated `let` whose value has a recorded type
/// other than the error or nothing type gets its rendering after the name; nested blocks
/// are walked.
pub open spec fn th_stmt(st: Stmt, et: Seq<((usize, usize), Type)>) -> Seq<(int, Seq<char>)>
    decreases st,
{
    match st {
        Stmt::Let { name_span, ty, value, .. } => if ty is None {
            match type_at(et, expr_key(value)) {
                Some(t) => if t is Error || t is Nothing {
                    Seq::empty()
                } else {
                    seq![(name_span.end as int, spec_render_type(t))]
                },
                None => Seq::empty(),
            }
        } else {
            Seq::empty()
        },
        Stmt::If { body, .. } => th_stmts(body.stmts@, et),
        Stmt::While { body, .. } => th_stmts(body.stmts@, et),
        Stmt::For { body, .. } => th_stmts(body.stmts@, et),
        Stmt::Match { arms, else_arm, .. } => th_arms(arms@, et) + match else_arm {
            Some(b) => th_stmts(b.stmts@, et),
            None => Seq::empty(),
        },
        _ => Seq::empty(),
    }
}

pub open spec fn th_stmts(s: Seq<Stmt>, et: Seq<((usize, usize), Type)>) -> Seq<(int, Seq<char>)>
    decreases s,
{
    if s.len() == 0 {
        Seq::empty()
    } else {
        th_stmts(s.subrange(0, s.len() - 1), et) + th_stmt(s[s.len() - 1], et)
    }
}

pub open spec fn th_arms(s: Seq<MatchArm>, et: Seq<((usize, usize), Type)>) -> Seq<(int, Seq<char>)>
    decreases s,
{
    if s.len() == 0 {
        Seq::empty()
    } else {
        th_arms(s.subrange(0, s.len() - 1), et) + th_stmts(s[s.len() - 1].body.stmts@, et)
    }
}

pub open spec fn module_type_hints(decls: Seq<FunctionDecl>, et: Seq<((usize, usize), Type)>) -> Seq<(int, Seq<char>)>
    decreases decls.len(),
{
    if decls.len() == 0 {
        Seq::empty()
    } else {
        module_type_hints(decls.drop_last(), et) + th_stmts(decls.last().body.stmts@, et)
    }
}

fn th_stmt_exec(st: &Stmt, et: &Vec<((usize, usize), Type)>, out: &mut Vec<TypeHint>)
    ensures
        type_hint_views(final(out)@) == type_hint_views(old(out)@) + th_stmt(*st, et@),
    decreases st,
{
    let ghost o = type_hint_views(out@);
    match st {
        Stmt::Let { name_span, ty, value, .. } => {
            if ty.is_none() {
                let sp = expr_span_of(value);
                match type_at_exec(et, (sp.start, sp.end)) {
                    Some(t) => {
                        let skip = match t {
                            Type::Error => true,
                            Type::Nothing => true,
                            _ => false,
                        };
                        if !skip {
                            let h = TypeHint { position: name_span.end, type_text: render_type(t) };
                            let ghost before = out@;
                            out.push(h);
                            proof {
                                assert(type_hint_views(out@) =~= type_hint_views(before).push((h.position as int, h.type_text@)));
                            }
                        }
                    },
                    None => {},
                }
            }
        },
        Stmt::If { body, .. } => th_stmts_exec(&body.stmts, et, out),
        Stmt::While { body, .. } => th_stmts_exec(&body.stmts, et, out),
        Stmt::For { body, .. } => th_stmts_exec(&body.stmts, et, out),
        Stmt::Match { arms, else_arm, .. } => {
            th_arms_exec(arms, et, out);
            match else_arm {
                Some(b) => th_stmts_exec(&b.stmts, et, out),
                None => {},
            }
        },
        _ => {},
    }
    proof {
        assert(type_hint_views(out@) =~= o + th_stmt(*st, et@));
    }
}

fn th_stmts_exec(v: &Vec<Stmt>, et: &Vec<((usize, usize), Type)>, out: &mut Vec<TypeHint>)
    ensures
        type_hint_views(final(out)@) == type_hint_views(old(out)@) + th_stmts(v@, et@),
    decreases v,
{
    let ghost o = type_hint_views(out@);
    let mut i: usize = 0;
    proof {
        assert(v@.subrange(0, 0) =~= Seq::<Stmt>::empty());
        assert(type_hint_views(out@) =~= o + th_stmts(v@.subrange(0, 0), et@));
    }
    while i < v.len()
        invariant
            i <= v@.len(),
            type_hint_views(out@) == o + th_stmts(v@.subrange(0, i as int), et@),
        decreases v@.len() - i,
    {
        proof {
            let pre = v@.subrange(0, i + 1);
            assert(pre.subrange(0, i as int) =~= v@.subrange(0, i as int));
            assert(pre[i as int] == v@[i as int]);
        }
        th_stmt_exec(&v[i], et, out);
        proof {
            assert(type_hint_views(out@) =~= o + th_stmts(v@.subrange(0, i + 1), et@));
        }
        i = i + 1;
    }
    proof {
        assert(v@.subrange(0, v@.len() as int) =~= v@);
    }
}

fn th_arms_exec(v: &Vec<MatchArm>, et: &Vec<((usize, usize), Type)>, out: &mut Vec<TypeHint>)
    ensures
        type_hint_views(final(out)@) == type_hint_views(old(out)@) + th_arms(v@, et@),
    decreases v,
{
    let ghost o = type_hint_views(out@);
    let mut i: usize = 0;
    proof {
        assert(v@.subrange(0, 0) =~= Seq::<MatchArm>::empty());
        assert(type_hint_views(out@) =~= o + th_arms(v@.subrange(0, 0), et@));
    }
    while i < v.len()
        invariant
            i <= v@.len(),
            type_hint_views(out@) == o + th_arms(v@.subrange(0, i as int), et@),
        decreases v@.len() - i,
    {
        proof {
            let pre = v@.subrange(0, i + 1);
            assert(pre.subrange(0, i as int) =~= v@.subrange(0, i as int));
            assert(pre[i as int] == v@[i as int]);
        }
        th_stmts_exec(&v[i].body.stmts, et, out);
        proof {
            assert(type_hint_views(out@) =~= o + th_arms(v@.subrange(0, i + 1), et@));
        }
        i = i + 1;
    }
    proof {
        assert(v@.subrange(0, v@.len() as int) =~= v@);
    }
}

/// `: Type` after each un-annotated `let` whose value has a recorded type (not the error
/// or nothing type), function by function.
pub fn variable_type_hints(module: &Module, expr_types: &Vec<((usize, usize), Type)>) -> (r: Vec<TypeHint>)
    ensures
        type_hint_views(r@) == module_type_hints(local_decls(module.items@), expr_types@),
{
    let ghost decls = local_decls(module.items@);
    let positions = crate::ownership_fixpoint::function_item_positions(module);
    let mut out: Vec<TypeHint> = Vec::new();
    let mut k: usize = 0;
    proof {
        assert(decls.take(0) =~= Seq::<FunctionDecl>::empty());
        assert(type_hint_views(out@) =~= module_type_hints(decls.take(0), expr_types@));
    }
    while k < positions.len()
        invariant
            k <= positions@.len(),
            decls == local_decls(module.items@),
            crate::ownership_fixpoint::positions_of(module.items@, positions@),
            type_hint_views(out@) == module_type_hints(decls.take(k as int), expr_types@),
        decreases positions@.len() - k,
    {
        match &module.items[positions[k]] {
            Item::Function(f) => {
                proof {
                    assert(*f == decls[k as int]);
                    assert(decls.take(k + 1).drop_last() =~= decls.take(k as int));
                    assert(decls.take(k + 1).last() == *f);
                }
                th_stmts_exec(&f.body.stmts, expr_types, &mut out);
            },
            _ => {
                proof {
                    assert(false);
                }
            },
        }
        k = k + 1;
    }
    proof {
        assert(decls.take(k as int) =~= decls);
    }
    out
}

/// The model of a [`CopyHint`].
pub open spec fn copy_hint_views(v: Seq<CopyHint>) -> Seq<(int, Seq<char>)> {
    v.map_values(|h: CopyHint| (h.position as int, h.size_text@))
}

/// The copy hint an argument itself gets: its size after it, when its recorded type is
/// trivially copyable.
pub open spec fn copy_here(arg: Expr, et: Seq<((usize, usize), Type)>) -> Seq<(int, Seq<char>)> {
    match type_at(et, expr_key(arg)) {
        Some(t) => if spec_trivially_copyable(t) {
            seq![(expr_span(arg).end as int, spec_copy_size_text(t))]
        } else {
            Seq::empty()
        },
        None => Seq::empty(),
    }
}

/// The copy hints of an expression: each argument of a call gets its own, then is walked;
/// `wait`, `background`, `is` and interpolated strings are walked into.
pub open spec fn cp_expr(e: Expr, et: Seq<((usize, usize), Type)>) -> Seq<(int, Seq<char>)>
    decreases e,
{
    match e {
        Expr::Call(c) => cp_args(c.args@, et),
        Expr::Wait(inner, _) => cp_expr(*inner, et),
        Expr::Background(inner, _) => cp_expr(*inner, et),
        Expr::Is { expr, .. } => cp_expr(*expr, et),
        Expr::InterpolatedString(parts, _) => cp_parts(parts@, et),
        _ => Seq::empty(),
    }
}

pub open spec fn cp_args(s: Seq<Expr>, et: Seq<((usize, usize), Type)>) -> Seq<(int, Seq<char>)>
    decreases s,
{
    if s.len() == 0 {
        Seq::empty()
    } else {
        cp_args(s.subrange(0, s.len() - 1), et) + copy_here(s[s.len() - 1], et) + cp_expr(s[s.len() - 1], et)
    }
}

pub open spec fn cp_parts(s: Seq<StringPart>, et: Seq<((usize, usize), Type)>) -> Seq<(int, Seq<char>)>
    decreases s,
{
    if s.len() == 0 {
        Seq::empty()
    } else {
        cp_parts(s.subrange(0, s.len() - 1), et) + match s[s.len() - 1] {
            StringPart::Expr(e, _) => cp_expr(e, et),
            StringPart::Text(_) => Seq::empty(),
        }
    }
}

/// The copy hints of a statement: expression statements, `let` values, `if` conditions
/// and `match` scrutinees are walked, then nested blocks.
pub open spec fn cp_stmt(st: Stmt, et: Seq<((usize, usize), Type)>) -> Seq<(int, Seq<char>)>
    decreases st,
{
    match st {
        Stmt::Expr(e) => cp_expr(e, et),
        Stmt::Let { value, .. } => cp_expr(value, et),
        Stmt::If { cond, body, .. } => cp_expr(cond, et) + cp_stmts(body.stmts@, et),
        Stmt::Match { scrutinee, arms, else_arm, .. } => cp_expr(scrutinee, et) + cp_arms(arms@, et) + match else_arm {
            Some(b) => cp_stmts(b.stmts@, et),
            None => Seq::empty(),
        },
        Stmt::While { body, .. } => cp_stmts(body.stmts@, et),
        Stmt::For { body, .. } => cp_stmts(body.stmts@, et),
        _ => Seq::empty(),
    }
}

pub open spec fn cp_stmts(s: Seq<Stmt>, et: Seq<((usize, usize), Type)>) -> Seq<(int, Seq<char>)>
    decreases s,
{
    if s.len() == 0 {
        Seq::empty()
    } else {
        cp_stmts(s.subrange(0, s.len() - 1), et) + cp_stmt(s[s.len() - 1], et)
    }
}

pub open spec fn cp_arms(s: Seq<MatchArm>, et: Seq<((usize, usize), Type)>) -> Seq<(int, Seq<char>)>
    decreases s,
{
    if s.len() == 0 {
        Seq::empty()
    } else {
        cp_arms(s.subrange(0, s.len() - 1), et) + cp_stmts(s[s.len() - 1].body.stmts@, et)
    }
}

pub open spec fn module_copy_hints(decls: Seq<FunctionDecl>, et: Seq<((usize, usize), Type)>) -> Seq<(int, Seq<char>)>
    decreases decls.len(),
{
    if decls.len() == 0 {
        Seq::empty()
    } else {
        module_copy_hints(decls.drop_last(), et) + cp_stmts(decls.last().body.stmts@, et)
    }
}

fn cp_expr_exec(e: &Expr, et: &Vec<((usize, usize), Type)>, out: &mut Vec<CopyHint>)
    ensures
        copy_hint_views(final(out)@) == copy_hint_views(old(out)@) + cp_expr(*e, et@),
    decreases e,
{
    let ghost o = copy_hint_views(out@);
    match e {
        Expr::Call(c) => cp_args_exec(&c.args, et, out),
        Expr::Wait(inner, _) => cp_expr_exec(inner, et, out),
        Expr::Background(inner, _) => cp_expr_exec(inner, et, out),
        Expr::Is { expr, .. } => cp_expr_exec(expr, et, out),
        Expr::InterpolatedString(parts, _) => cp_parts_exec(parts, et, out),
        _ => {},
    }
    proof {
        assert(copy_hint_views(out@) =~= o + cp_expr(*e, et@));
    }
}

fn cp_args_exec(v: &Vec<Expr>, et: &Vec<((usize, usize), Type)>, out: &mut Vec<CopyHint>)
    ensures
        copy_hint_views(final(out)@) == copy_hint_views(old(out)@) + cp_args(v@, et@),
    decreases v,
{
    let ghost o = copy_hint_views(out@);
    let mut i: usize = 0;
    proof {
        assert(v@.subrange(0, 0) =~= Seq::<Expr>::empty());
        assert(copy_hint_views(out@) =~= o + cp_args(v@.subrange(0, 0), et@));
    }
    while i < v.len()
        invariant
            i <= v@.len(),
            copy_hint_views(out@) == o + cp_args(v@.subrange(0, i as int), et@),
        decreases v@.len() - i,
    {
        proof {
            let pre = v@.subrange(0, i + 1);
            assert(pre.subrange(0, i as int) =~= v@.subrange(0, i as int));
            assert(pre[i as int] == v@[i as int]);
        }
        let arg = &v[i];
        let sp = expr_span_of(arg);
        let ghost mid0 = copy_hint_views(out@);
        match type_at_exec(et, (sp.start, sp.end)) {
            Some(t) => {
                if is_trivially_copyable(t) {
                    let h = CopyHint { position: sp.end, size_text: lit(copy_size_text(t)) };
                    let ghost before = out@;
                    out.push(h);
                    proof {
                        assert(copy_hint_views(out@) =~= copy_hint_views(before).push((h.position as int, h.size_text@)));
                    }
                }
            },
            None => {},
        }
        proof {
            assert(copy_hint_views(out@) =~= mid0 + copy_here(*arg, et@));
        }
        cp_expr_exec(arg, et, out);
        proof {
            assert(copy_hint_views(out@) =~= o + cp_args(v@.subrange(0, i + 1), et@));
        }
        i = i + 1;
    }
    proof {
        assert(v@.subrange(0, v@.len() as int) =~= v@);
    }
}

fn cp_parts_exec(v: &Vec<StringPart>, et: &Vec<((usize, usize), Type)>, out: &mut Vec<CopyHint>)
    ensures
        copy_hint_views(final(out)@) == copy_hint_views(old(out)@) + cp_parts(v@, et@),
    decreases v,
{
    let ghost o = copy_hint_views(out@);
    let mut i: usize = 0;
    proof {
        assert(v@.subrange(0, 0) =~= Seq::<StringPart>::empty());
        assert(copy_hint_views(out@) =~= o + cp_parts(v@.subrange(0, 0), et@));
    }
    while i < v.len()
        invariant
            i <= v@.len(),
            copy_hint_views(out@) == o + cp_parts(v@.subrange(0, i as int), et@),
        decreases v@.len() - i,
    {
        proof {
            let pre = v@.subrange(0, i + 1);
            assert(pre.subrange(0, i as int) =~= v@.subrange(0, i as int));
            assert(pre[i as int] == v@[i as int]);
        }
        match &v[i] {
            StringPart::Expr(e, _) => cp_expr_exec(e, et, out),
            StringPart::Text(_) => {},
        }
        proof {
            assert(copy_hint_views(out@) =~= o + cp_parts(v@.subrange(0, i + 1), et@));
        }
        i = i + 1;
    }
    proof {
        assert(v@.subrange(0, v@.len() as int) =~= v@);
    }
}

fn cp_stmt_exec(st: &Stmt, et: &Vec<((usize, usize), Type)>, out: &mut Vec<CopyHint>)
    ensures
        copy_hint_views(final(out)@) == copy_hint_views(old(out)@) + cp_stmt(*st, et@),
    decreases st,
{
    let ghost o = copy_hint_views(out@);
    match st {
        Stmt::Expr(e) => cp_expr_exec(e, et, out),
        Stmt::Let { value, .. } => cp_expr_exec(value, et, out),
        Stmt::If { cond, body, .. } => {
            cp_expr_exec(cond, et, out);
            cp_stmts_exec(&body.stmts, et, out);
        },
        Stmt::Match { scrutinee, arms, else_arm, .. } => {
            cp_expr_exec(scrutinee, et, out);
            cp_arms_exec(arms, et, out);
            match else_arm {
                Some(b) => cp_stmts_exec(&b.stmts, et, out),
                None => {},
            }
        },
        Stmt::While { body, .. } => cp_stmts_exec(&body.stmts, et, out),
        Stmt::For { body, .. } => cp_stmts_exec(&body.stmts, et, out),
        _ => {},
    }
    proof {
        assert(copy_hint_views(out@) =~= o + cp_stmt(*st, et@));
    }
}

fn cp_stmts_exec(v: &Vec<Stmt>, et: &Vec<((usize, usize), Type)>, out: &mut Vec<CopyHint>)
    ensures
        copy_hint_views(final(out)@) == copy_hint_views(old(out)@) + cp_stmts(v@, et@),
    decreases v,
{
    let ghost o = copy_hint_views(out@);
    let mut i: usize = 0;
    proof {
        assert(v@.subrange(0, 0) =~= Seq::<Stmt>::empty());
        assert(copy_hint_views(out@) =~= o + cp_stmts(v@.subrange(0, 0), et@));
    }
    while i < v.len()
        invariant
            i <= v@.len(),
            copy_hint_views(out@) == o + cp_stmts(v@.subrange(0, i as int), et@),
        decreases v@.len() - i,
    {
        proof {
            let pre = v@.subrange(0, i + 1);
            assert(pre.subrange(0, i as int) =~= v@.subrange(0, i as int));
            assert(pre[i as int] == v@[i as int]);
        }
        cp_stmt_exec(&v[i], et, out);
        proof {
            assert(copy_hint_views(out@) =~= o + cp_stmts(v@.subrange(0, i + 1), et@));
        }
        i = i + 1;
    }
    proof {
        assert(v@.subrange(0, v@.len() as int) =~= v@);
    }
}

fn cp_arms_exec(v: &Vec<MatchArm>, et: &Vec<((usize, usize), Type)>, out: &mut Vec<CopyHint>)
    ensures
        copy_hint_views(final(out)@) == copy_hint_views(old(out)@) + cp_arms(v@, et@),
    decreases v,
{
    let ghost o = copy_hint_views(out@);
    let mut i: usize = 0;
    proof {
        assert(v@.subrange(0, 0) =~= Seq::<MatchArm>::empty());
        assert(copy_hint_views(out@) =~= o + cp_arms(v@.subrange(0, 0), et@));
    }
    while i < v.len()
        invariant
            i <= v@.len(),
            copy_hint_views(out@) == o + cp_arms(v@.subrange(0, i as int), et@),
        decreases v@.len() - i,
    {
        proof {
            let pre = v@.subrange(0, i + 1);
            assert(pre.subrange(0, i as int) =~= v@.subrange(0, i as int));
            assert(pre[i as int] == v@[i as int]);
        }
        cp_stmts_exec(&v[i].body.stmts, et, out);
        proof {
            assert(copy_hint_views(out@) =~= o + cp_arms(v@.subrange(0, i + 1), et@));
        }
        i = i + 1;
    }
    proof {
        assert(v@.subrange(0, v@.len() as int) =~= v@);
    }
}

/// `.copy (N bytes)` after each call argument whose recorded type is trivially copyable,
/// at any depth of nested calls, function by function.
pub fn copy_point_hints(module: &Module, expr_types: &Vec<((usize, usize), Type)>) -> (r: Vec<CopyHint>)
    ensures
        copy_hint_views(r@) == module_copy_hints(local_decls(module.items@), expr_types@),
{
    let ghost decls = local_decls(module.items@);
    let positions = crate::ownership_fixpoint::function_item_positions(module);
    let mut out: Vec<CopyHint> = Vec::new();
    let mut k: usize = 0;
    proof {
        assert(decls.take(0) =~= Seq::<FunctionDecl>::empty());
        assert(copy_hint_views(out@) =~= module_copy_hints(decls.take(0), expr_types@));
    }
    while k < positions.len()
        invariant
            k <= positions@.len(),
            decls == local_decls(module.items@),
            crate::ownership_fixpoint::positions_of(module.items@, positions@),
            copy_hint_views(out@) == module_copy_hints(decls.take(k as int), expr_types@),
        decreases positions@.len() - k,
    {
        match &module.items[positions[k]] {
            Item::Function(f) => {
                proof {
                    assert(*f == decls[k as int]);
                    assert(decls.take(k + 1).drop_last() =~= decls.take(k as int));
                    assert(decls.take(k + 1).last() == *f);
                }
                cp_stmts_exec(&f.body.stmts, expr_types, &mut out);
            },
            _ => {
                proof {
                    assert(false);
                }
            },
        }
        k = k + 1;
    }
    proof {
        assert(decls.take(k as int) =~= decls);
    }
    out
}

} // verus!
