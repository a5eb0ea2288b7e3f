//! The effective-ownership fixpoint over a module: every parameter of every local function
//! starts at its declared seed (`Writes` for a declared `lend`/`give` position, `Reads`
//! otherwise) and is raised by what its body does with it, using the current verdicts of
//! the callees it flows into, until nothing changes.
//!
//! The result is the least solution: the classification is monotone in the callees'
//! verdicts, so the iteration from the seed never overshoots any assignment that is
//! itself closed under the body walk.
use vstd::prelude::*;

use crate::effective_ownership::{
    call_position, classify_param_in_stmts, is_declared_write, cls_args, cls_arms, cls_entries, cls_expr, cls_exprs, cls_fields,
    cls_parts, cls_stmt, cls_stmts, declared_write, spec_arg_is_binding, ClassifyEnv, EffectiveOwnership,
    OwnershipContext,
};
use crate::names::{first_at, lemma_first_exists, lemma_lookup_at, lookup, NameSet};
use crate::syntax::{Expr, FieldInit, FunctionDecl, Item, MapEntryLit, MatchArm, Module, OwnershipModifier, Stmt, StringPart};

verus! {

/// Each entry of `x` is at most the entry of `y` at the same position.
pub open spec fn row_le(x: Seq<EffectiveOwnership>, y: Seq<EffectiveOwnership>) -> bool {
    x.len() == y.len() && forall|j: int| 0 <= j < x.len() ==> (#[trigger] x[j]).spec_rank() <= y[j].spec_rank()
}

/// `a` is below `b` row by row: the same names in the same order, each row below its
/// counterpart.
pub open spec fn rows_le(a: Seq<(String, Vec<EffectiveOwnership>)>, b: Seq<(String, Vec<EffectiveOwnership>)>) -> bool {
    a.len() == b.len() && forall|k: int| 0 <= k < a.len() ==> (#[trigger] a[k]).0@ == b[k].0@ && row_le(a[k].1@, b[k].1@)
}

/// Two classification environments that differ only in the rows, the first below.
pub open spec fn env_le(e1: ClassifyEnv, e2: ClassifyEnv) -> bool {
    rows_le(e1.rows, e2.rows) && e1.declared == e2.declared && e1.imported == e2.imported && e1.mutating
        == e2.mutating
}

/// Rows that are pointwise below find the same names, and a row below.
pub proof fn lemma_lookup_le(a: Seq<(String, Vec<EffectiveOwnership>)>, b: Seq<(String, Vec<EffectiveOwnership>)>, m: Seq<char>)
    requires
        rows_le(a, b),
    ensures
        (lookup(a, m) is Some) == (lookup(b, m) is Some),
        lookup(a, m) is Some ==> row_le(lookup(a, m)->0@, lookup(b, m)->0@),
{
    if exists|i: int| 0 <= i < a.len() && #[trigger] a[i].0@ == m {
        let i = choose|i: int| 0 <= i < a.len() && #[trigger] a[i].0@ == m;
        lemma_first_exists(a, m, i);
        let k = choose|k: int| first_at(a, m, k);
        assert(a[k].0@ == b[k].0@);
        assert forall|j: int| 0 <= j < k implies #[trigger] b[j].0@ != m by {
            assert(a[j].0@ == b[j].0@);
            assert(a[j].0@ != m);
        }
        assert(first_at(b, m, k));
        lemma_lookup_at(a, m, k);
        lemma_lookup_at(b, m, k);
    } else {
        assert forall|i: int| 0 <= i < b.len() implies #[trigger] b[i].0@ != m by {
            assert(a[i].0@ == b[i].0@);
        }
    }
}

/// A call position is monotone in the rows.
pub proof fn lemma_call_position_mono(e1: ClassifyEnv, e2: ClassifyEnv, callee: Option<Seq<char>>, index: int)
    requires
        env_le(e1, e2),
    ensures
        call_position(e1, callee, index).spec_rank() <= call_position(e2, callee, index).spec_rank(),
{
    if let Some(name) = callee {
        lemma_lookup_le(e1.rows, e2.rows, name);
    }
}

/// The classification of an expression is monotone in the rows.
pub proof fn lemma_cls_expr_mono(p: Seq<char>, e: Expr, e1: ClassifyEnv, e2: ClassifyEnv)
    requires
        env_le(e1, e2),
    ensures
        cls_expr(p, e, e1).spec_rank() <= cls_expr(p, e, e2).spec_rank(),
    decreases e,
{
    match e {
        Expr::Call(c) => {
            match *c.callee {
                Expr::Ident(n, _) => {
                    lemma_cls_args_mono(p, c.args@, Some(n@), 0, e1, e2);
                },
                other => {
                    lemma_cls_expr_mono(p, other, e1, e2);
                    lemma_cls_args_mono(p, c.args@, None, 0, e1, e2);
                },
            }
        },
        Expr::MethodCall { receiver, method, args, .. } => {
            if spec_arg_is_binding(*receiver, p) {
                lemma_lookup_le(e1.rows, e2.rows, method@);
                lemma_call_position_mono(e1, e2, Some(method@), 0);
            } else {
                lemma_cls_expr_mono(p, *receiver, e1, e2);
            }
            lemma_cls_args_mono(p, args@, Some(method@), 1, e1, e2);
        },
        Expr::PostfixOp { receiver, .. } => lemma_cls_expr_mono(p, *receiver, e1, e2),
        Expr::BinOp { lhs, rhs, .. } => {
            lemma_cls_expr_mono(p, *lhs, e1, e2);
            lemma_cls_expr_mono(p, *rhs, e1, e2);
        },
        Expr::UnaryOp { operand, .. } => lemma_cls_expr_mono(p, *operand, e1, e2),
        Expr::FieldAccess { receiver, .. } => lemma_cls_expr_mono(p, *receiver, e1, e2),
        Expr::IndexAccess { receiver, index, .. } => {
            lemma_cls_expr_mono(p, *receiver, e1, e2);
            lemma_cls_expr_mono(p, *index, e1, e2);
        },
        Expr::Wait(inner, _) => lemma_cls_expr_mono(p, *inner, e1, e2),
        Expr::Background(inner, _) => lemma_cls_expr_mono(p, *inner, e1, e2),
        Expr::Is { expr, .. } => lemma_cls_expr_mono(p, *expr, e1, e2),
        Expr::StructLit { fields, .. } => lemma_cls_fields_mono(p, fields@, e1, e2),
        Expr::ArrayLit { elements, .. } => lemma_cls_exprs_mono(p, elements@, e1, e2),
        Expr::MapLit { entries, .. } => lemma_cls_entries_mono(p, entries@, e1, e2),
        Expr::InterpolatedString(parts, _) => lemma_cls_parts_mono(p, parts@, e1, e2),
        _ => {},
    }
}

proof fn lemma_cls_args_mono(
    p: Seq<char>,
    s: Seq<Expr>,
    callee: Option<Seq<char>>,
    offset: int,
    e1: ClassifyEnv,
    e2: ClassifyEnv,
)
    requires
        env_le(e1, e2),
    ensures
        cls_args(p, s, callee, offset, e1).spec_rank() <= cls_args(p, s, callee, offset, e2).spec_rank(),
    decreases s,
{
    if s.len() > 0 {
        let last = s[s.len() - 1];
        if spec_arg_is_binding(last, p) {
            lemma_call_position_mono(e1, e2, callee, offset + s.len() - 1);
        } else {
            lemma_cls_expr_mono(p, last, e1, e2);
        }
        lemma_cls_args_mono(p, s.subrange(0, s.len() - 1), callee, offset, e1, e2);
    }
}

proof fn lemma_cls_exprs_mono(p: Seq<char>, s: Seq<Expr>, e1: ClassifyEnv, e2: ClassifyEnv)
    requires
        env_le(e1, e2),
    ensures
        cls_exprs(p, s, e1).spec_rank() <= cls_exprs(p, s, e2).spec_rank(),
    decreases s,
{
    if s.len() > 0 {
        lemma_cls_expr_mono(p, s[s.len() - 1], e1, e2);
        lemma_cls_exprs_mono(p, s.subrange(0, s.len() - 1), e1, e2);
    }
}

proof fn lemma_cls_fields_mono(p: Seq<char>, s: Seq<FieldInit>, e1: ClassifyEnv, e2: ClassifyEnv)
    requires
        env_le(e1, e2),
    ensures
        cls_fields(p, s, e1).spec_rank() <= cls_fields(p, s, e2).spec_rank(),
    decreases s,
{
    if s.len() > 0 {
        lemma_cls_expr_mono(p, s[s.len() - 1].value, e1, e2);
        lemma_cls_fields_mono(p, s.subrange(0, s.len() - 1), e1, e2);
    }
}

proof fn lemma_cls_entries_mono(p: Seq<char>, s: Seq<MapEntryLit>, e1: ClassifyEnv, e2: ClassifyEnv)
    requires
        env_le(e1, e2),
    ensures
        cls_entries(p, s, e1).spec_rank() <= cls_entries(p, s, e2).spec_rank(),
    decreases s,
{
    if s.len() > 0 {
        lemma_cls_expr_mono(p, s[s.len() - 1].key, e1, e2);
        lemma_cls_expr_mono(p, s[s.len() - 1].value, e1, e2);
        lemma_cls_entries_mono(p, s.subrange(0, s.len() - 1), e1, e2);
    }
}

proof fn lemma_cls_parts_mono(p: Seq<char>, s: Seq<StringPart>, e1: ClassifyEnv, e2: ClassifyEnv)
    requires
        env_le(e1, e2),
    ensures
        cls_parts(p, s, e1).spec_rank() <= cls_parts(p, s, e2).spec_rank(),
    decreases s,
{
    if s.len() > 0 {
        match s[s.len() - 1] {
            StringPart::Expr(e, _) => lemma_cls_expr_mono(p, e, e1, e2),
            StringPart::Text(_) => {},
        }
        lemma_cls_parts_mono(p, s.subrange(0, s.len() - 1), e1, e2);
    }
}

/// The classification of a statement is monotone in the rows.
pub proof fn lemma_cls_stmt_mono(p: Seq<char>, st: Stmt, e1: ClassifyEnv, e2: ClassifyEnv)
    requires
        env_le(e1, e2),
    ensures
        cls_stmt(p, st, e1).spec_rank() <= cls_stmt(p, st, e2).spec_rank(),
    decreases st,
{
    match st {
        Stmt::FieldAssign { target, value, .. } => {
            lemma_cls_expr_mono(p, value, e1, e2);
            lemma_cls_expr_mono(p, target, e1, e2);
        },
        Stmt::IndexAssign { receiver, index, value, .. } => {
            lemma_cls_expr_mono(p, receiver, e1, e2);
            lemma_cls_expr_mono(p, index, e1, e2);
            lemma_cls_expr_mono(p, value, e1, e2);
        },
        Stmt::Let { value, .. } => lemma_cls_expr_mono(p, value, e1, e2),
        Stmt::Assign { value, .. } => lemma_cls_expr_mono(p, value, e1, e2),
        Stmt::Expr(e) => lemma_cls_expr_mono(p, e, e1, e2),
        Stmt::Return { value, .. } => {
            if let Some(v) = value {
                lemma_cls_expr_mono(p, v, e1, e2);
            }
        },
        Stmt::If { cond, body, .. } => {
            lemma_cls_expr_mono(p, cond, e1, e2);
            lemma_cls_stmts_mono(p, body.stmts@, e1, e2);
        },
        Stmt::While { cond, body, .. } => {
            lemma_cls_expr_mono(p, cond, e1, e2);
            lemma_cls_stmts_mono(p, body.stmts@, e1, e2);
        },
        Stmt::For { iter, body, .. } => {
            lemma_cls_expr_mono(p, iter, e1, e2);
            lemma_cls_stmts_mono(p, body.stmts@, e1, e2);
        },
        Stmt::Match { scrutinee, arms, else_arm, .. } => {
            lemma_cls_expr_mono(p, scrutinee, e1, e2);
            lemma_cls_arms_mono(p, arms@, e1, e2);
            if let Some(b) = else_arm {
                lemma_cls_stmts_mono(p, b.stmts@, e1, e2);
            }
        },
    }
}

/// The classification of a statement list is monotone in the rows.
pub proof fn lemma_cls_stmts_mono(p: Seq<char>, s: Seq<Stmt>, e1: ClassifyEnv, e2: ClassifyEnv)
    requires
        env_le(e1, e2),
    ensures
        cls_stmts(p, s, e1).spec_rank() <= cls_stmts(p, s, e2).spec_rank(),
    decreases s,
{
    if s.len() > 0 {
        lemma_cls_stmt_mono(p, s[s.len() - 1], e1, e2);
        lemma_cls_stmts_mono(p, s.subrange(0, s.len() - 1), e1, e2);
    }
}

proof fn lemma_cls_arms_mono(p: Seq<char>, s: Seq<MatchArm>, e1: ClassifyEnv, e2: ClassifyEnv)
    requires
        env_le(e1, e2),
    ensures
        cls_arms(p, s, e1).spec_rank() <= cls_arms(p, s, e2).spec_rank(),
    decreases s,
{
    if s.len() > 0 {
        lemma_cls_stmts_mono(p, s[s.len() - 1].body.stmts@, e1, e2);
        lemma_cls_arms_mono(p, s.subrange(0, s.len() - 1), e1, e2);
    }
}

/// The function declarations among `items`, in order.
pub open spec fn local_decls(items: Seq<Item>) -> Seq<FunctionDecl>
    decreases items.len(),
{
    if items.len() == 0 {
        Seq::empty()
    } else {
        let rest = local_decls(items.drop_last());
        match items.last() {
            Item::Function(f) => rest.push(f),
            _ => rest,
        }
    }
}

/// The positions in `module.items` of its function declarations, in order.
pub(crate) fn function_item_positions(module: &Module) -> (r: Vec<usize>)
    ensures
        r@.len() == local_decls(module.items@).len(),
        forall|k: int|
            0 <= k < r@.len() ==> (#[trigger] r@[k]) < module.items@.len() && module.items@[r@[k] as int]
                == Item::Function(local_decls(module.items@)[k]),
{
    let mut r: Vec<usize> = Vec::new();
    let mut i: usize = 0;
    while i < module.items.len()
        invariant
            i <= module.items@.len(),
            r@.len() == local_decls(module.items@.take(i as int)).len(),
            forall|k: int|
                0 <= k < r@.len() ==> (#[trigger] r@[k]) < i && module.items@[r@[k] as int] == Item::Function(
                    local_decls(module.items@.take(i as int))[k],
                ),
        decreases module.items@.len() - i,
    {
        proof {
            assert(module.items@.take(i + 1).drop_last() =~= module.items@.take(i as int));
            assert(module.items@.take(i + 1).last() == module.items@[i as int]);
        }
        match &module.items[i] {
            Item::Function(_) => {
                r.push(i);
            },
            _ => {},
        }
        i = i + 1;
    }
    proof {
        assert(module.items@.take(module.items@.len() as int) =~= module.items@);
    }
    r
}

/// The seed of position `j` of `f`: `Writes` where it is declared a write, else `Reads`.
pub open spec fn seed_at(declared: Seq<(String, Vec<usize>)>, f: FunctionDecl, j: int) -> EffectiveOwnership {
    if declared_write(declared, f.name@, j) {
        EffectiveOwnership::Writes
    } else {
        EffectiveOwnership::Reads
    }
}

/// The classification environment over `rows`.
pub open spec fn env_of(
    rows: Seq<(String, Vec<EffectiveOwnership>)>,
    declared: Seq<(String, Vec<usize>)>,
    imported: Set<Seq<char>>,
    mutating: Set<Seq<char>>,
) -> ClassifyEnv {
    ClassifyEnv { rows, declared, imported, mutating }
}

/// What the body of `decls[k]` does with its parameter `j`, given the verdicts `rows`.
pub open spec fn discovered(
    decls: Seq<FunctionDecl>,
    rows: Seq<(String, Vec<EffectiveOwnership>)>,
    declared: Seq<(String, Vec<usize>)>,
    imported: Set<Seq<char>>,
    mutating: Set<Seq<char>>,
    k: int,
    j: int,
) -> EffectiveOwnership {
    cls_stmts(decls[k].params@[j].name@, decls[k].body.stmts@, env_of(rows, declared, imported, mutating))
}

/// One row per declaration, named after it, with one entry per parameter.
pub open spec fn rows_shaped(rows: Seq<(String, Vec<EffectiveOwnership>)>, decls: Seq<FunctionDecl>) -> bool {
    rows.len() == decls.len() && forall|k: int|
        0 <= k < rows.len() ==> (#[trigger] rows[k]).0@ == decls[k].name@ && rows[k].1@.len()
            == decls[k].params@.len()
}

/// `rows` is closed: each entry is at least its seed and at least what the body shows
/// under these very verdicts.
pub open spec fn is_ownership_solution(
    decls: Seq<FunctionDecl>,
    rows: Seq<(String, Vec<EffectiveOwnership>)>,
    declared: Seq<(String, Vec<usize>)>,
    imported: Set<Seq<char>>,
    mutating: Set<Seq<char>>,
) -> bool {
    rows_shaped(rows, decls) && forall|k: int, j: int|
        0 <= k < rows.len() && 0 <= j < rows[k].1@.len() ==> seed_at(declared, decls[k], j).spec_rank()
            <= (#[trigger] rows[k].1@[j]).spec_rank() && discovered(decls, rows, declared, imported, mutating, k, j).spec_rank()
            <= rows[k].1@[j].spec_rank()
}

/// The sum of the ranks of a row.
pub open spec fn row_rank(r: Seq<EffectiveOwnership>) -> int
    decreases r.len(),
{
    if r.len() == 0 {
        0
    } else {
        row_rank(r.drop_last()) + r.last().spec_rank()
    }
}

/// The sum of the ranks of all rows.
pub open spec fn rows_rank(rows: Seq<(String, Vec<EffectiveOwnership>)>) -> int
    decreases rows.len(),
{
    if rows.len() == 0 {
        0
    } else {
        rows_rank(rows.drop_last()) + row_rank(rows.last().1@)
    }
}

/// The number of entries of all rows.
pub open spec fn rows_size(rows: Seq<(String, Vec<EffectiveOwnership>)>) -> int
    decreases rows.len(),
{
    if rows.len() == 0 {
        0
    } else {
        rows_size(rows.drop_last()) + rows.last().1@.len()
    }
}

proof fn lemma_row_rank(x: Seq<EffectiveOwnership>, y: Seq<EffectiveOwnership>)
    requires
        row_le(x, y),
    ensures
        0 <= row_rank(x) <= row_rank(y) <= 2 * y.len(),
        x != y ==> row_rank(x) < row_rank(y),
    decreases x.len(),
{
    if x.len() > 0 {
        let (xa, ya) = (x.drop_last(), y.drop_last());
        assert forall|j: int| 0 <= j < xa.len() implies (#[trigger] xa[j]).spec_rank() <= ya[j].spec_rank() by {
            assert(x[j].spec_rank() <= y[j].spec_rank());
        }
        lemma_row_rank(xa, ya);
        assert(x.last().spec_rank() <= y.last().spec_rank()) by {
            assert(x[x.len() - 1].spec_rank() <= y[y.len() - 1].spec_rank());
        }
        if x != y && xa == ya {
            assert(x.last() != y.last()) by {
                if x.last() == y.last() {
                    assert(x =~= y) by {
                        assert forall|j: int| 0 <= j < x.len() implies x[j] == y[j] by {
                            if j < x.len() - 1 {
                                assert(xa[j] == ya[j]);
                            }
                        }
                    }
                }
            }
            crate::effective_ownership::lemma_rank_injective(x.last(), y.last());
        }
        crate::effective_ownership::lemma_rank_injective(y.last(), y.last());
    } else {
        assert(x =~= y);
    }
}

/// Rows pointwise below have no greater rank sum, the same size, and a strictly smaller
/// rank sum when they differ in some entry.
proof fn lemma_rows_rank(a: Seq<(String, Vec<EffectiveOwnership>)>, b: Seq<(String, Vec<EffectiveOwnership>)>)
    requires
        rows_le(a, b),
    ensures
        rows_size(a) == rows_size(b),
        0 <= rows_rank(a) <= rows_rank(b) <= 2 * rows_size(b),
        (exists|k: int, j: int| 0 <= k < a.len() && 0 <= j < a[k].1@.len() && #[trigger] a[k].1@[j] != b[k].1@[j])
            ==> rows_rank(a) < rows_rank(b),
    decreases a.len(),
{
    if a.len() > 0 {
        let (aa, ba) = (a.drop_last(), b.drop_last());
        assert forall|k: int| 0 <= k < aa.len() implies (#[trigger] aa[k]).0@ == ba[k].0@ && row_le(aa[k].1@, ba[k].1@) by {
            assert(a[k].0@ == b[k].0@ && row_le(a[k].1@, b[k].1@));
        }
        lemma_rows_rank(aa, ba);
        assert(row_le(a.last().1@, b.last().1@)) by {
            assert(row_le(a[a.len() - 1].1@, b[b.len() - 1].1@));
        }
        lemma_row_rank(a.last().1@, b.last().1@);
        if exists|k: int, j: int| 0 <= k < a.len() && 0 <= j < a[k].1@.len() && #[trigger] a[k].1@[j] != b[k].1@[j] {
            let (k, j) = choose|k: int, j: int| 0 <= k < a.len() && 0 <= j < a[k].1@.len() && #[trigger] a[k].1@[j] != b[k].1@[j];
            if k == a.len() - 1 {
                assert(a.last().1@ != b.last().1@) by {
                    assert(a.last().1@[j] != b.last().1@[j]);
                }
            } else {
                assert(aa[k].1@[j] != ba[k].1@[j]);
            }
        }
    }
}

fn seed_row(f: &FunctionDecl, declared: &Vec<(String, Vec<usize>)>) -> (r: Vec<EffectiveOwnership>)
    ensures
        r@.len() == f.params@.len(),
        forall|j: int| 0 <= j < r@.len() ==> #[trigger] r@[j] == seed_at(declared@, *f, j),
{
    let mut r: Vec<EffectiveOwnership> = Vec::new();
    let mut j: usize = 0;
    while j < f.params.len()
        invariant
            j <= f.params@.len(),
            r@.len() == j,
            forall|b: int| 0 <= b < j ==> #[trigger] r@[b] == seed_at(declared@, *f, b),
        decreases f.params@.len() - j,
    {
        if is_declared_write(declared, f.name.as_str(), j) {
            r.push(EffectiveOwnership::Writes);
        } else {
            r.push(EffectiveOwnership::Reads);
        }
        j = j + 1;
    }
    r
}

/// `positions` lists where the function declarations of `items` stand.
pub open spec fn positions_of(items: Seq<Item>, positions: Seq<usize>) -> bool {
    positions.len() == local_decls(items).len() && forall|k: int|
        0 <= k < positions.len() ==> (#[trigger] positions[k]) < items.len() && items[positions[k] as int]
            == Item::Function(local_decls(items)[k])
}

/// One round over every parameter of every function: each entry becomes its join with
/// what the body shows under the current rows.
fn ownership_pass(
    module: &Module,
    positions: &Vec<usize>,
    rows: &Vec<(String, Vec<EffectiveOwnership>)>,
    declared: &Vec<(String, Vec<usize>)>,
    imported: &NameSet,
    mutating: &NameSet,
) -> (r: (Vec<(String, Vec<EffectiveOwnership>)>, bool))
    requires
        positions_of(module.items@, positions@),
        rows_shaped(rows@, local_decls(module.items@)),
    ensures
        rows_shaped(r.0@, local_decls(module.items@)),
        forall|k: int, j: int|
            0 <= k < r.0@.len() && 0 <= j < r.0@[k].1@.len() ==> #[trigger] r.0@[k].1@[j] == rows@[k].1@[j].spec_join(
                discovered(local_decls(module.items@), rows@, declared@, imported@, mutating@, k, j),
            ),
        !r.1 ==> forall|k: int, j: int|
            0 <= k < r.0@.len() && 0 <= j < r.0@[k].1@.len() ==> #[trigger] r.0@[k].1@[j] == rows@[k].1@[j],
        r.1 ==> exists|k: int, j: int|
            0 <= k < r.0@.len() && 0 <= j < r.0@[k].1@.len() && #[trigger] r.0@[k].1@[j] != rows@[k].1@[j],
{
    let ghost decls = local_decls(module.items@);
    let ghost env = env_of(rows@, declared@, imported@, mutating@);
    let mut next: Vec<(String, Vec<EffectiveOwnership>)> = Vec::new();
    let mut changed = false;
    let ghost mut wk: int = 0;
    let ghost mut wj: int = 0;
    let mut k: usize = 0;
    while k < positions.len()
        invariant
            k <= positions@.len(),
            decls == local_decls(module.items@),
            env == env_of(rows@, declared@, imported@, mutating@),
            positions_of(module.items@, positions@),
            rows_shaped(rows@, decls),
            next@.len() == k,
            forall|a: int| 0 <= a < k ==> (#[trigger] next@[a]).0@ == decls[a].name@ && next@[a].1@.len()
                == decls[a].params@.len(),
            forall|a: int, b: int|
                0 <= a < k && 0 <= b < next@[a].1@.len() ==> #[trigger] next@[a].1@[b] == rows@[a].1@[b].spec_join(
                    discovered(decls, rows@, declared@, imported@, mutating@, a, b),
                ),
            !changed ==> forall|a: int, b: int|
                0 <= a < k && 0 <= b < next@[a].1@.len() ==> #[trigger] next@[a].1@[b] == rows@[a].1@[b],
            changed ==> 0 <= wk < k && 0 <= wj < next@[wk].1@.len() && next@[wk].1@[wj] != rows@[wk].1@[wj],
        decreases positions@.len() - k,
    {
        match &module.items[positions[k]] {
            Item::Function(f) => {
                let cur_row = &rows[k].1;
                proof {
                    assert(*f == decls[k as int]);
                    assert(rows@[k as int].1@.len() == f.params@.len());
                }
                let mut row: Vec<EffectiveOwnership> = Vec::new();
                let mut j: usize = 0;
                while j < f.params.len()
                    invariant
                        j <= f.params@.len(),
                        *f == decls[k as int],
                        *cur_row == rows@[k as int].1,
                        cur_row@.len() == f.params@.len(),
                        k < positions@.len(),
                        decls == local_decls(module.items@),
                        env == env_of(rows@, declared@, imported@, mutating@),
                        next@.len() == k,
                        row@.len() == j,
                        forall|b: int|
                            0 <= b < j ==> #[trigger] row@[b] == cur_row@[b].spec_join(
                                discovered(decls, rows@, declared@, imported@, mutating@, k as int, b),
                            ),
                        !changed ==> forall|a: int, b: int|
                            0 <= a < k && 0 <= b < next@[a].1@.len() ==> #[trigger] next@[a].1@[b] == rows@[a].1@[b],
                        !changed ==> forall|b: int| 0 <= b < j ==> #[trigger] row@[b] == cur_row@[b],
                        changed ==> (0 <= wk < k && 0 <= wj < next@[wk].1@.len() && next@[wk].1@[wj]
                            != rows@[wk].1@[wj]) || (wk == k && 0 <= wj < j && row@[wj] != cur_row@[wj]),
                    decreases f.params@.len() - j,
                {
                    let cur = cur_row[j];
                    let v = if cur.same(EffectiveOwnership::Writes) {
                        cur
                    } else {
                        let ctx = OwnershipContext {
                            per_fn: rows,
                            declared_writes: declared,
                            imported_fn_names: imported,
                            mutating_builtin_methods: mutating,
                        };
                        let d = classify_param_in_stmts(f.params[j].name.as_str(), &f.body.stmts, &ctx);
                        cur.join(d)
                    };
                    if !v.same(cur) {
                        proof {
                            if !changed {
                                wk = k as int;
                                wj = j as int;
                            }
                        }
                        changed = true;
                    }
                    row.push(v);
                    j = j + 1;
                }
                next.push((rows[k].0.clone(), row));
            },
            _ => {
                proof {
                    assert(false);
                }
            },
        }
        k = k + 1;
    }
    proof {
        if changed {
            assert(next@[wk].1@[wj] != rows@[wk].1@[wj]);
        }
    }
    (next, changed)
}

/// The least effective-ownership assignment of the module's local functions: one row per
/// function declaration, in order, holding a verdict per parameter. It is closed (every
/// verdict covers its seed and what its body shows under these verdicts) and below every
/// other closed assignment.
pub fn ownership_fixpoint(
    module: &Module,
    declared_writes: &Vec<(String, Vec<usize>)>,
    imported_fn_names: &NameSet,
    mutating_builtin_methods: &NameSet,
) -> (rows: Vec<(String, Vec<EffectiveOwnership>)>)
    ensures
        is_ownership_solution(
            local_decls(module.items@),
            rows@,
            declared_writes@,
            imported_fn_names@,
            mutating_builtin_methods@,
        ),
        forall|other: Seq<(String, Vec<EffectiveOwnership>)>|
            #[trigger] is_ownership_solution(
                local_decls(module.items@),
                other,
                declared_writes@,
                imported_fn_names@,
                mutating_builtin_methods@,
            ) ==> rows_le(rows@, other),
{
    let ghost decls = local_decls(module.items@);
    let ghost (dw, imp, mu) = (declared_writes@, imported_fn_names@, mutating_builtin_methods@);
    let positions = function_item_positions(module);
    let mut rows: Vec<(String, Vec<EffectiveOwnership>)> = Vec::new();
    let mut k: usize = 0;
    while k < positions.len()
        invariant
            k <= positions@.len(),
            decls == local_decls(module.items@),
            dw == declared_writes@,
            positions_of(module.items@, positions@),
            rows@.len() == k,
            forall|a: int| 0 <= a < k ==> (#[trigger] rows@[a]).0@ == decls[a].name@ && rows@[a].1@.len()
                == decls[a].params@.len(),
            forall|a: int, b: int|
                0 <= a < k && 0 <= b < rows@[a].1@.len() ==> #[trigger] rows@[a].1@[b] == seed_at(dw, decls[a], b),
        decreases positions@.len() - k,
    {
        match &module.items[positions[k]] {
            Item::Function(f) => {
                proof {
                    assert(*f == decls[k as int]);
                }
                let row = seed_row(f, declared_writes);
                let ghost rv = row@;
                rows.push((f.name.clone(), row));
                proof {
                    assert(rows@[k as int].1@ == rv);
                    assert forall|b: int| 0 <= b < rv.len() implies #[trigger] rv[b] == seed_at(dw, decls[k as int], b) by {
                        assert(rv[b] == seed_at(dw, *f, b));
                    }
                }
            },
            _ => {
                proof {
                    assert(false);
                }
            },
        }
        k = k + 1;
    }
    proof {
        assert forall|other: Seq<(String, Vec<EffectiveOwnership>)>|
            #[trigger] is_ownership_solution(decls, other, dw, imp, mu) implies rows_le(rows@, other) by {
            assert forall|a: int| 0 <= a < rows@.len() implies (#[trigger] rows@[a]).0@ == other[a].0@ && row_le(
                rows@[a].1@,
                other[a].1@,
            ) by {
                assert(other[a].0@ == decls[a].name@);
                assert forall|b: int| 0 <= b < rows@[a].1@.len() implies (#[trigger] rows@[a].1@[b]).spec_rank()
                    <= other[a].1@[b].spec_rank() by {
                    assert(other[a].1@[b].spec_rank() >= seed_at(dw, decls[a], b).spec_rank());
                }
            }
        }
    }
    loop
        invariant
            decls == local_decls(module.items@),
            dw == declared_writes@,
            imp == imported_fn_names@,
            mu == mutating_builtin_methods@,
            positions_of(module.items@, positions@),
            rows_shaped(rows@, decls),
            forall|a: int, b: int|
                0 <= a < rows@.len() && 0 <= b < rows@[a].1@.len() ==> seed_at(dw, decls[a], b).spec_rank()
                    <= (#[trigger] rows@[a].1@[b]).spec_rank(),
            forall|other: Seq<(String, Vec<EffectiveOwnership>)>|
                #[trigger] is_ownership_solution(decls, other, dw, imp, mu) ==> rows_le(rows@, other),
        decreases 2 * rows_size(rows@) - rows_rank(rows@),
    {
        let (next, changed) = ownership_pass(module, &positions, &rows, declared_writes, imported_fn_names, mutating_builtin_methods);
        proof {
            assert forall|a: int| 0 <= a < rows@.len() implies (#[trigger] rows@[a]).0@ == next@[a].0@ && row_le(
                rows@[a].1@,
                next@[a].1@,
            ) by {
                assert forall|b: int| 0 <= b < rows@[a].1@.len() implies (#[trigger] rows@[a].1@[b]).spec_rank()
                    <= next@[a].1@[b].spec_rank() by {
                    assert(next@[a].1@[b] == rows@[a].1@[b].spec_join(discovered(decls, rows@, dw, imp, mu, a, b)));
                }
            }
            lemma_rows_rank(rows@, next@);
        }
        if !changed {
            proof {
                assert forall|a: int, b: int| 0 <= a < rows@.len() && 0 <= b < rows@[a].1@.len() implies discovered(
                    decls,
                    rows@,
                    dw,
                    imp,
                    mu,
                    a,
                    b,
                ).spec_rank() <= (#[trigger] rows@[a].1@[b]).spec_rank() by {
                    assert(next@[a].1@[b] == rows@[a].1@[b]);
                    assert(next@[a].1@[b] == rows@[a].1@[b].spec_join(discovered(decls, rows@, dw, imp, mu, a, b)));
                }
            }
            return rows;
        }
        proof {
            let (ka, kb) = choose|ka: int, kb: int|
                0 <= ka < next@.len() && 0 <= kb < next@[ka].1@.len() && #[trigger] next@[ka].1@[kb] != rows@[ka].1@[kb];
            assert(rows@[ka].1@[kb] != next@[ka].1@[kb]);
            assert forall|other: Seq<(String, Vec<EffectiveOwnership>)>|
                #[trigger] is_ownership_solution(decls, other, dw, imp, mu) implies rows_le(next@, other) by {
                assert(rows_le(rows@, other));
                assert forall|a: int| 0 <= a < next@.len() implies (#[trigger] next@[a]).0@ == other[a].0@ && row_le(
                    next@[a].1@,
                    other[a].1@,
                ) by {
                    assert(rows@[a].0@ == other[a].0@);
                    assert(row_le(rows@[a].1@, other[a].1@));
                    assert forall|b: int| 0 <= b < next@[a].1@.len() implies (#[trigger] next@[a].1@[b]).spec_rank()
                        <= other[a].1@[b].spec_rank() by {
                        lemma_cls_stmts_mono(
                            decls[a].params@[b].name@,
                            decls[a].body.stmts@,
                            env_of(rows@, dw, imp, mu),
                            env_of(other, dw, imp, mu),
                        );
                        assert(rows@[a].1@[b].spec_rank() <= other[a].1@[b].spec_rank());
                        assert(discovered(decls, other, dw, imp, mu, a, b).spec_rank() <= other[a].1@[b].spec_rank());
                        assert(next@[a].1@[b] == rows@[a].1@[b].spec_join(discovered(decls, rows@, dw, imp, mu, a, b)));
                    }
                }
            }
        }
        rows = next;
    }
}

/// A declared `lend` or `give` modifier: the author committed to a write there.
pub open spec fn is_write_modifier(m: Option<OwnershipModifier>) -> bool {
    m == Some(OwnershipModifier::Lend) || m == Some(OwnershipModifier::Give)
}

/// `v` lists, in increasing order, exactly the parameter positions of `f` declared `lend`
/// or `give`.
pub open spec fn lists_write_positions(v: Seq<usize>, f: FunctionDecl) -> bool {
    &&& forall|a: int, b: int| 0 <= a < b < v.len() ==> v[a] < v[b]
    &&& forall|q: int| 0 <= q < v.len() ==> v[q] < f.params@.len() && is_write_modifier(f.params@[v[q] as int].ownership)
    &&& forall|i: int|
        0 <= i < f.params@.len() && is_write_modifier(#[trigger] f.params@[i].ownership) ==> exists|q: int|
            0 <= q < v.len() && v[q] == i
}

/// For each local function, in order, the parameter positions whose declared modifier is
/// `lend` or `give`: the explicit-write seed of the fixpoint.
pub fn declared_write_positions(module: &Module) -> (r: Vec<(String, Vec<usize>)>)
    ensures
        r@.len() == local_decls(module.items@).len(),
        forall|k: int|
            0 <= k < r@.len() ==> (#[trigger] r@[k]).0@ == local_decls(module.items@)[k].name@ && lists_write_positions(
                r@[k].1@,
                local_decls(module.items@)[k],
            ),
{
    let ghost decls = local_decls(module.items@);
    let positions = function_item_positions(module);
    let mut r: Vec<(String, Vec<usize>)> = Vec::new();
    let mut k: usize = 0;
    while k < positions.len()
        invariant
            k <= positions@.len(),
            decls == local_decls(module.items@),
            positions_of(module.items@, positions@),
            r@.len() == k,
            forall|a: int| 0 <= a < k ==> (#[trigger] r@[a]).0@ == decls[a].name@ && lists_write_positions(r@[a].1@, decls[a]),
        decreases positions@.len() - k,
    {
        match &module.items[positions[k]] {
            Item::Function(f) => {
                proof {
                    assert(*f == decls[k as int]);
                }
                let mut v: Vec<usize> = Vec::new();
                let mut i: usize = 0;
                while i < f.params.len()
                    invariant
                        i <= f.params@.len(),
                        forall|a: int, b: int| 0 <= a < b < v@.len() ==> v@[a] < v@[b],
                        forall|q: int| 0 <= q < v@.len() ==> v@[q] < i && is_write_modifier(f.params@[v@[q] as int].ownership),
                        forall|j: int|
                            0 <= j < i && is_write_modifier(#[trigger] f.params@[j].ownership) ==> exists|q: int|
                                0 <= q < v@.len() && v@[q] == j,
                    decreases f.params@.len() - i,
                {
                    let w = match f.params[i].ownership {
                        Some(OwnershipModifier::Lend) => true,
                        Some(OwnershipModifier::Give) => true,
                        _ => false,
                    };
                    let ghost old_v = v@;
                    if w {
                        v.push(i);
                    }
                    proof {
                        assert(w == is_write_modifier(f.params@[i as int].ownership));
                        assert forall|j: int|
                            0 <= j < i + 1 && is_write_modifier(#[trigger] f.params@[j].ownership) implies exists|q: int|
                                0 <= q < v@.len() && v@[q] == j by {
                            if j < i {
                                let q = choose|q: int| 0 <= q < old_v.len() && old_v[q] == j;
                                assert(v@[q] == j);
                            } else {
                                assert(v@[v@.len() - 1] == i);
                            }
                        }
                    }
                    i = i + 1;
                }
                let ghost vv = v@;
                r.push((f.name.clone(), v));
                proof {
                    assert(r@[k as int].1@ == vv);
                }
            },
            _ => {
                proof {
                    assert(false);
                }
            },
        }
        k = k + 1;
    }
    r
}

} // verus!
