//! Transitive may-block ("suspends") analysis and the does-real-work analysis over a
//! module's call graph.
//!
//! A function suspends if it can reach a suspension point: it directly calls a may-block
//! intrinsic, calls an imported function known to suspend, calls a suspending method on a
//! channel or task-handle binding, or calls (not through `background`) a local function that
//! suspends. `background f()` is a graph cut: the spawner does not await `f`, so only the
//! spawn's arguments are walked in the calling context. The property is the least fixpoint
//! of "is a seed, or calls a member", which is exactly "reaches a seed along call edges".
use vstd::prelude::*;

use crate::call_graph::{
    indexes, lemma_mutually_reachable_trans, lemma_reaches_indexed, lemma_reaches_name_ends, lemma_reaches_name_refl,
    lemma_reaches_prepend, lemma_reaches_weaken,
    mutually_reachable, on_cycle, reaches, reaches_name,
};
use crate::text::{insert_sorted_unique, sorted_unique, string_views};
use crate::graph::{any_member, graph_wf, least_fixpoint, reaches_seed};
use crate::names::{no_duplicates, NameSet};
use crate::suspension_source::{
    channel_method_suspends, is_base_suspension_intrinsic, spec_channel_method_suspends,
    spec_is_base_suspension_intrinsic,
};
use crate::syntax::{AstType, Expr, FieldInit, FunctionDecl, Item, MapEntryLit, MatchArm, Module, Stmt, StringPart};
use crate::text::str_eq;

verus! {

/// The three name scopes a call is classified against.
pub struct ScopesView {
    pub local: Set<Seq<char>>,
    pub imported: Set<Seq<char>>,
    pub suspending: Set<Seq<char>>,
}

/// What a walk over code finds: the local functions it calls directly (not through
/// `background`), and whether it calls a suspension source directly.
pub struct CallSummary {
    pub callees: Set<Seq<char>>,
    pub hit: bool,
}

pub open spec fn nothing_found() -> CallSummary {
    CallSummary { callees: Set::empty(), hit: false }
}

pub open spec fn join(a: CallSummary, b: CallSummary) -> CallSummary {
    CallSummary { callees: a.callees.union(b.callees), hit: a.hit || b.hit }
}

proof fn lemma_join_assoc(a: CallSummary, b: CallSummary, c: CallSummary)
    ensures
        join(join(a, b), c) == join(a, join(b, c)),
        join(a, nothing_found()) == a,
{
    assert(join(join(a, b), c).callees =~= join(a, join(b, c)).callees);
    assert(join(a, nothing_found()).callees =~= a.callees);
}

/// The call made by `callee(…)` itself: a local function (an edge), a suspension source
/// (a seed), or neither. Local functions shadow intrinsics of the same name.
pub open spec fn own_call(callee: Expr, bg: bool, sc: ScopesView) -> CallSummary {
    match callee {
        Expr::Ident(n, _) => if bg {
            nothing_found()
        } else if sc.local.contains(n@) {
            CallSummary { callees: set![n@], hit: false }
        } else if spec_is_base_suspension_intrinsic(n@) || (sc.imported.contains(n@)
            && sc.suspending.contains(n@)) {
            CallSummary { callees: Set::empty(), hit: true }
        } else {
            nothing_found()
        },
        _ => nothing_found(),
    }
}

/// What the expression `e` calls; `bg` marks the direct operand of `background`.
pub open spec fn sum_expr(e: Expr, bg: bool, sc: ScopesView) -> CallSummary
    decreases e,
{
    match e {
        Expr::Background(inner, _) => sum_expr(*inner, true, sc),
        Expr::Call(c) => join(
            own_call(*c.callee, bg, sc),
            join(sum_exprs(c.args@, sc), sum_expr(*c.callee, false, sc)),
        ),
        Expr::MethodCall { receiver, args, .. } => join(sum_expr(*receiver, false, sc), sum_exprs(args@, sc)),
        Expr::Wait(inner, _) => sum_expr(*inner, false, sc),
        Expr::BinOp { lhs, rhs, .. } => join(sum_expr(*lhs, false, sc), sum_expr(*rhs, false, sc)),
        Expr::UnaryOp { operand, .. } => sum_expr(*operand, false, sc),
        Expr::IndexAccess { receiver, index, .. } => join(sum_expr(*receiver, false, sc), sum_expr(*index, false, sc)),
        Expr::FieldAccess { receiver, .. } => sum_expr(*receiver, false, sc),
        Expr::StructLit { fields, .. } => sum_fields(fields@, sc),
        Expr::ArrayLit { elements, .. } => sum_exprs(elements@, sc),
        Expr::MapLit { entries, .. } => sum_entries(entries@, sc),
        Expr::Is { expr, .. } => sum_expr(*expr, false, sc),
        Expr::InterpolatedString(parts, _) => sum_parts(parts@, sc),
        Expr::PostfixOp { receiver, .. } => sum_expr(*receiver, false, sc),
        _ => nothing_found(),
    }
}

pub open spec fn sum_exprs(s: Seq<Expr>, sc: ScopesView) -> CallSummary
    decreases s,
{
    if s.len() == 0 {
        nothing_found()
    } else {
        join(sum_exprs(s.subrange(0, s.len() - 1), sc), sum_expr(s[s.len() - 1], false, sc))
    }
}

pub open spec fn sum_fields(s: Seq<FieldInit>, sc: ScopesView) -> CallSummary
    decreases s,
{
    if s.len() == 0 {
        nothing_found()
    } else {
        join(sum_fields(s.subrange(0, s.len() - 1), sc), sum_expr(s[s.len() - 1].value, false, sc))
    }
}

pub open spec fn sum_entries(s: Seq<MapEntryLit>, sc: ScopesView) -> CallSummary
    decreases s,
{
    if s.len() == 0 {
        nothing_found()
    } else {
        let last = s[s.len() - 1];
        join(
            sum_entries(s.subrange(0, s.len() - 1), sc),
            join(sum_expr(last.key, false, sc), sum_expr(last.value, false, sc)),
        )
    }
}

pub open spec fn sum_parts(s: Seq<StringPart>, sc: ScopesView) -> CallSummary
    decreases s,
{
    if s.len() == 0 {
        nothing_found()
    } else {
        join(
            sum_parts(s.subrange(0, s.len() - 1), sc),
            match s[s.len() - 1] {
                StringPart::Expr(e, _) => sum_expr(e, false, sc),
                StringPart::Text(_) => nothing_found(),
            },
        )
    }
}

/// What the statement `st` calls.
pub open spec fn sum_stmt(st: Stmt, sc: ScopesView) -> CallSummary
    decreases st,
{
    match st {
        Stmt::Expr(e) => sum_expr(e, false, sc),
        Stmt::Let { value, .. } => sum_expr(value, false, sc),
        Stmt::Assign { value, .. } => sum_expr(value, false, sc),
        Stmt::Return { value, .. } => match value {
            Some(v) => sum_expr(v, false, sc),
            None => nothing_found(),
        },
        Stmt::FieldAssign { target, value, .. } => join(sum_expr(target, false, sc), sum_expr(value, false, sc)),
        Stmt::IndexAssign { receiver, index, value, .. } => join(
            sum_expr(receiver, false, sc),
            join(sum_expr(index, false, sc), sum_expr(value, false, sc)),
        ),
        Stmt::If { cond, body, .. } => join(sum_expr(cond, false, sc), sum_stmts(body.stmts@, sc)),
        Stmt::While { cond, body, .. } => join(sum_expr(cond, false, sc), sum_stmts(body.stmts@, sc)),
        Stmt::For { iter, body, .. } => join(sum_expr(iter, false, sc), sum_stmts(body.stmts@, sc)),
        Stmt::Match { scrutinee, arms, else_arm, .. } => join(
            sum_expr(scrutinee, false, sc),
            join(
                sum_arms(arms@, sc),
                match else_arm {
                    Some(b) => sum_stmts(b.stmts@, sc),
                    None => nothing_found(),
                },
            ),
        ),
    }
}

/// What the statement list `s` calls.
pub open spec fn sum_stmts(s: Seq<Stmt>, sc: ScopesView) -> CallSummary
    decreases s,
{
    if s.len() == 0 {
        nothing_found()
    } else {
        join(sum_stmts(s.subrange(0, s.len() - 1), sc), sum_stmt(s[s.len() - 1], sc))
    }
}

pub open spec fn sum_arms(s: Seq<MatchArm>, sc: ScopesView) -> CallSummary
    decreases s,
{
    if s.len() == 0 {
        nothing_found()
    } else {
        join(sum_arms(s.subrange(0, s.len() - 1), sc), sum_stmts(s[s.len() - 1].body.stmts@, sc))
    }
}

/// Everything `a` finds, `b` finds too: its callees and its suspension hit.
pub open spec fn sub_summary(a: CallSummary, b: CallSummary) -> bool {
    a.callees.subset_of(b.callees) && (a.hit ==> b.hit)
}

/// A statement list's summary takes in each of its statements' summaries.
pub proof fn lemma_stmts_cover_each_summary(s: Seq<Stmt>, sc: ScopesView)
    ensures
        forall|i: int| 0 <= i < s.len() ==> sub_summary(#[trigger] sum_stmt(s[i], sc), sum_stmts(s, sc)),
    decreases s.len(),
{
    if s.len() > 0 {
        let pre = s.subrange(0, s.len() - 1);
        lemma_stmts_cover_each_summary(pre, sc);
        assert forall|i: int| 0 <= i < s.len() implies sub_summary(#[trigger] sum_stmt(s[i], sc), sum_stmts(s, sc)) by {
            if i < s.len() - 1 {
                assert(pre[i] == s[i]);
            }
        }
    }
}

/// A match's arms summary takes in each arm's body summary.
pub proof fn lemma_arms_cover_each_summary(s: Seq<MatchArm>, sc: ScopesView)
    ensures
        forall|i: int| 0 <= i < s.len() ==> sub_summary(#[trigger] sum_stmts(s[i].body.stmts@, sc), sum_arms(s, sc)),
    decreases s.len(),
{
    if s.len() > 0 {
        let pre = s.subrange(0, s.len() - 1);
        lemma_arms_cover_each_summary(pre, sc);
        assert forall|i: int| 0 <= i < s.len() implies sub_summary(#[trigger] sum_stmts(s[i].body.stmts@, sc), sum_arms(s, sc)) by {
            if i < s.len() - 1 {
                assert(pre[i] == s[i]);
            }
        }
    }
}

/// What a statement's summary finds includes what every statement nested in it finds: the
/// bodies of `if`, `while` and `for`, the arms and the `else` arm of a `match`. So a call
/// of a local function or of a suspension source made anywhere in a function body, a loop
/// body included, is seen.
pub proof fn lemma_stmt_summary_covers_nested(st: Stmt, sc: ScopesView)
    ensures
        st matches Stmt::If { body, .. } ==> sub_summary(sum_stmts(body.stmts@, sc), sum_stmt(st, sc)),
        st matches Stmt::While { body, .. } ==> sub_summary(sum_stmts(body.stmts@, sc), sum_stmt(st, sc)),
        st matches Stmt::For { body, .. } ==> sub_summary(sum_stmts(body.stmts@, sc), sum_stmt(st, sc)),
        st matches Stmt::Match { arms, else_arm, .. } ==> (forall|i: int|
            0 <= i < arms@.len() ==> sub_summary(#[trigger] sum_stmts(arms@[i].body.stmts@, sc), sum_stmt(st, sc)))
            && (else_arm matches Some(b) ==> sub_summary(sum_stmts(b.stmts@, sc), sum_stmt(st, sc))),
        st matches Stmt::If { body, .. } ==> forall|i: int|
            0 <= i < body.stmts@.len() ==> sub_summary(#[trigger] sum_stmt(body.stmts@[i], sc), sum_stmt(st, sc)),
        st matches Stmt::While { body, .. } ==> forall|i: int|
            0 <= i < body.stmts@.len() ==> sub_summary(#[trigger] sum_stmt(body.stmts@[i], sc), sum_stmt(st, sc)),
        st matches Stmt::For { body, .. } ==> forall|i: int|
            0 <= i < body.stmts@.len() ==> sub_summary(#[trigger] sum_stmt(body.stmts@[i], sc), sum_stmt(st, sc)),
{
    match st {
        Stmt::If { body, .. } => lemma_stmts_cover_each_summary(body.stmts@, sc),
        Stmt::While { body, .. } => lemma_stmts_cover_each_summary(body.stmts@, sc),
        Stmt::For { body, .. } => lemma_stmts_cover_each_summary(body.stmts@, sc),
        Stmt::Match { arms, .. } => lemma_arms_cover_each_summary(arms@, sc),
        _ => {},
    }
}

/// The scopes a walk classifies calls against.
pub struct Scopes<'a> {
    pub local: &'a NameSet,
    pub imported: &'a NameSet,
    pub suspending: &'a NameSet,
}

impl<'a> View for Scopes<'a> {
    type V = ScopesView;

    open spec fn view(&self) -> ScopesView {
        ScopesView { local: self.local@, imported: self.imported@, suspending: self.suspending@ }
    }
}

/// The outgoing edges of one function: its direct local callees, and whether it calls a
/// suspension source directly.
pub struct FnEdges {
    pub direct: NameSet,
    pub calls_may_block_intrinsic: bool,
}

impl View for FnEdges {
    type V = CallSummary;

    open spec fn view(&self) -> CallSummary {
        CallSummary { callees: self.direct@, hit: self.calls_may_block_intrinsic }
    }
}

fn walk_own_call(callee: &Expr, bg: bool, sc: &Scopes, acc: &mut FnEdges)
    ensures
        final(acc)@ == join(old(acc)@, own_call(*callee, bg, sc@)),
{
    proof {
        lemma_join_assoc(acc@, nothing_found(), nothing_found());
    }
    match callee {
        Expr::Ident(name, _) => {
            if !bg {
                if sc.local.contains(name.as_str()) {
                    let ghost before = acc@;
                    acc.direct.insert(name.clone());
                    proof {
                        assert(acc@.callees =~= before.callees.union(set![name@]));
                    }
                } else if is_base_suspension_intrinsic(name.as_str()) || (sc.imported.contains(name.as_str())
                    && sc.suspending.contains(name.as_str())) {
                    let ghost before = acc@;
                    acc.calls_may_block_intrinsic = true;
                    proof {
                        assert(acc@.callees =~= before.callees.union(Set::empty()));
                    }
                }
            }
        },
        _ => {},
    }
}

fn walk_expr(e: &Expr, bg: bool, sc: &Scopes, acc: &mut FnEdges)
    ensures
        final(acc)@ == join(old(acc)@, sum_expr(*e, bg, sc@)),
    decreases e,
{
    let ghost start = acc@;
    proof {
        lemma_join_assoc(start, nothing_found(), nothing_found());
    }
    match e {
        Expr::Background(inner, _) => walk_expr(inner, true, sc, acc),
        Expr::Call(c) => {
            walk_own_call(&c.callee, bg, sc, acc);
            let ghost a1 = acc@;
            walk_exprs(&c.args, sc, acc);
            let ghost a2 = acc@;
            walk_expr(&c.callee, false, sc, acc);
            proof {
                let o = own_call(*c.callee, bg, sc@);
                let x = sum_exprs(c.args@, sc@);
                let y = sum_expr(*c.callee, false, sc@);
                lemma_join_assoc(start, o, x);
                lemma_join_assoc(join(start, o), x, y);
                lemma_join_assoc(start, o, join(x, y));
                lemma_join_assoc(o, x, y);
            }
        },
        Expr::MethodCall { receiver, args, .. } => {
            walk_expr(receiver, false, sc, acc);
            walk_exprs(args, sc, acc);
            proof {
                lemma_join_assoc(start, sum_expr(**receiver, false, sc@), sum_exprs(args@, sc@));
            }
        },
        Expr::Wait(inner, _) => walk_expr(inner, false, sc, acc),
        Expr::BinOp { lhs, rhs, .. } => {
            walk_expr(lhs, false, sc, acc);
            walk_expr(rhs, false, sc, acc);
            proof {
                lemma_join_assoc(start, sum_expr(**lhs, false, sc@), sum_expr(**rhs, false, sc@));
            }
        },
        Expr::UnaryOp { operand, .. } => walk_expr(operand, false, sc, acc),
        Expr::IndexAccess { receiver, index, .. } => {
            walk_expr(receiver, false, sc, acc);
            walk_expr(index, false, sc, acc);
            proof {
                lemma_join_assoc(start, sum_expr(**receiver, false, sc@), sum_expr(**index, false, sc@));
            }
        },
        Expr::FieldAccess { receiver, .. } => walk_expr(receiver, false, sc, acc),
        Expr::StructLit { fields, .. } => walk_fields(fields, sc, acc),
        Expr::ArrayLit { elements, .. } => walk_exprs(elements, sc, acc),
        Expr::MapLit { entries, .. } => walk_entries(entries, sc, acc),
        Expr::Is { expr, .. } => walk_expr(expr, false, sc, acc),
        Expr::InterpolatedString(parts, _) => walk_parts(parts, sc, acc),
        Expr::PostfixOp { receiver, .. } => walk_expr(receiver, false, sc, acc),
        _ => {},
    }
}

fn walk_exprs(v: &Vec<Expr>, sc: &Scopes, acc: &mut FnEdges)
    ensures
        final(acc)@ == join(old(acc)@, sum_exprs(v@, sc@)),
    decreases v,
{
    let ghost start = acc@;
    let mut i: usize = 0;
    proof {
        lemma_join_assoc(start, nothing_found(), nothing_found());
        assert(v@.subrange(0, 0) =~= Seq::<Expr>::empty());
    }
    while i < v.len()
        invariant
            i <= v.len(),
            acc@ == join(start, sum_exprs(v@.subrange(0, i as int), sc@)),
        decreases v.len() - i,
    {
        proof {
            let pre = v@.subrange(0, i + 1);
            assert(pre.subrange(0, i as int) =~= v@.subrange(0, i as int));
            assert(pre[i as int] == v@[i as int]);
            lemma_join_assoc(start, sum_exprs(v@.subrange(0, i as int), sc@), sum_expr(v@[i as int], false, sc@));
        }
        walk_expr(&v[i], false, sc, acc);
        i = i + 1;
    }
    proof {
        assert(v@.subrange(0, v.len() as int) =~= v@);
    }
}

fn walk_fields(v: &Vec<FieldInit>, sc: &Scopes, acc: &mut FnEdges)
    ensures
        final(acc)@ == join(old(acc)@, sum_fields(v@, sc@)),
    decreases v,
{
    let ghost start = acc@;
    let mut i: usize = 0;
    proof {
        lemma_join_assoc(start, nothing_found(), nothing_found());
        assert(v@.subrange(0, 0) =~= Seq::<FieldInit>::empty());
    }
    while i < v.len()
        invariant
            i <= v.len(),
            acc@ == join(start, sum_fields(v@.subrange(0, i as int), sc@)),
        decreases v.len() - i,
    {
        proof {
            let pre = v@.subrange(0, i + 1);
            assert(pre.subrange(0, i as int) =~= v@.subrange(0, i as int));
            assert(pre[i as int] == v@[i as int]);
            lemma_join_assoc(start, sum_fields(v@.subrange(0, i as int), sc@), sum_expr(v@[i as int].value, false, sc@));
        }
        walk_expr(&v[i].value, false, sc, acc);
        i = i + 1;
    }
    proof {
        assert(v@.subrange(0, v.len() as int) =~= v@);
    }
}

fn walk_entries(v: &Vec<MapEntryLit>, sc: &Scopes, acc: &mut FnEdges)
    ensures
        final(acc)@ == join(old(acc)@, sum_entries(v@, sc@)),
    decreases v,
{
    let ghost start = acc@;
    let mut i: usize = 0;
    proof {
        lemma_join_assoc(start, nothing_found(), nothing_found());
        assert(v@.subrange(0, 0) =~= Seq::<MapEntryLit>::empty());
    }
    while i < v.len()
        invariant
            i <= v.len(),
            acc@ == join(start, sum_entries(v@.subrange(0, i as int), sc@)),
        decreases v.len() - i,
    {
        let ghost mid = acc@;
        proof {
            let pre = v@.subrange(0, i + 1);
            assert(pre.subrange(0, i as int) =~= v@.subrange(0, i as int));
            assert(pre[i as int] == v@[i as int]);
        }
        walk_expr(&v[i].key, false, sc, acc);
        walk_expr(&v[i].value, false, sc, acc);
        proof {
            let p = sum_entries(v@.subrange(0, i as int), sc@);
            let k = sum_expr(v@[i as int].key, false, sc@);
            let w = sum_expr(v@[i as int].value, false, sc@);
            lemma_join_assoc(mid, k, w);
            lemma_join_assoc(start, p, join(k, w));
        }
        i = i + 1;
    }
    proof {
        assert(v@.subrange(0, v.len() as int) =~= v@);
    }
}

fn walk_parts(v: &Vec<StringPart>, sc: &Scopes, acc: &mut FnEdges)
    ensures
        final(acc)@ == join(old(acc)@, sum_parts(v@, sc@)),
    decreases v,
{
    let ghost start = acc@;
    let mut i: usize = 0;
    proof {
        lemma_join_assoc(start, nothing_found(), nothing_found());
        assert(v@.subrange(0, 0) =~= Seq::<StringPart>::empty());
    }
    while i < v.len()
        invariant
            i <= v.len(),
            acc@ == join(start, sum_parts(v@.subrange(0, i as int), sc@)),
        decreases v.len() - i,
    {
        let ghost mid = acc@;
        proof {
            let pre = v@.subrange(0, i + 1);
            assert(pre.subrange(0, i as int) =~= v@.subrange(0, i as int));
            assert(pre[i as int] == v@[i as int]);
            lemma_join_assoc(mid, nothing_found(), nothing_found());
        }
        match &v[i] {
            StringPart::Expr(e, _) => walk_expr(e, false, sc, acc),
            StringPart::Text(_) => {},
        }
        proof {
            let p = sum_parts(v@.subrange(0, i as int), sc@);
            let x = match v@[i as int] {
                StringPart::Expr(e, _) => sum_expr(e, false, sc@),
                StringPart::Text(_) => nothing_found(),
            };
            lemma_join_assoc(start, p, x);
        }
        i = i + 1;
    }
    proof {
        assert(v@.subrange(0, v.len() as int) =~= v@);
    }
}

fn walk_stmt(st: &Stmt, sc: &Scopes, acc: &mut FnEdges)
    ensures
        final(acc)@ == join(old(acc)@, sum_stmt(*st, sc@)),
    decreases st,
{
    let ghost start = acc@;
    proof {
        lemma_join_assoc(start, nothing_found(), nothing_found());
    }
    match st {
        Stmt::Expr(e) => walk_expr(e, false, sc, acc),
        Stmt::Let { value, .. } => walk_expr(value, false, sc, acc),
        Stmt::Assign { value, .. } => walk_expr(value, false, sc, acc),
        Stmt::Return { value, .. } => {
            match value {
                Some(v) => walk_expr(v, false, sc, acc),
                None => {},
            }
        },
        Stmt::FieldAssign { target, value, .. } => {
            walk_expr(target, false, sc, acc);
            walk_expr(value, false, sc, acc);
            proof {
                lemma_join_assoc(start, sum_expr(*target, false, sc@), sum_expr(*value, false, sc@));
            }
        },
        Stmt::IndexAssign { receiver, index, value, .. } => {
            walk_expr(receiver, false, sc, acc);
            walk_expr(index, false, sc, acc);
            walk_expr(value, false, sc, acc);
            proof {
                let a = sum_expr(*receiver, false, sc@);
                let b = sum_expr(*index, false, sc@);
                let c = sum_expr(*value, false, sc@);
                lemma_join_assoc(start, a, b);
                lemma_join_assoc(join(start, a), b, c);
                lemma_join_assoc(start, a, join(b, c));
                lemma_join_assoc(a, b, c);
            }
        },
        Stmt::If { cond, body, .. } | Stmt::While { cond, body, .. } => {
            walk_expr(cond, false, sc, acc);
            walk_stmts(&body.stmts, sc, acc);
            proof {
                lemma_join_assoc(start, sum_expr(*cond, false, sc@), sum_stmts(body.stmts@, sc@));
            }
        },
        Stmt::For { iter, body, .. } => {
            walk_expr(iter, false, sc, acc);
            walk_stmts(&body.stmts, sc, acc);
            proof {
                lemma_join_assoc(start, sum_expr(*iter, false, sc@), sum_stmts(body.stmts@, sc@));
            }
        },
        Stmt::Match { scrutinee, arms, else_arm, .. } => {
            walk_expr(scrutinee, false, sc, acc);
            walk_arms(arms, sc, acc);
            let ghost mid = acc@;
            proof {
                lemma_join_assoc(mid, nothing_found(), nothing_found());
            }
            match else_arm {
                Some(b) => walk_stmts(&b.stmts, sc, acc),
                None => {},
            }
            proof {
                let a = sum_expr(*scrutinee, false, sc@);
                let b = sum_arms(arms@, sc@);
                let c = match else_arm {
                    Some(b) => sum_stmts(b.stmts@, sc@),
                    None => nothing_found(),
                };
                lemma_join_assoc(start, a, b);
                lemma_join_assoc(join(start, a), b, c);
                lemma_join_assoc(start, a, join(b, c));
                lemma_join_assoc(a, b, c);
            }
        },
    }
}

fn walk_stmts(v: &Vec<Stmt>, sc: &Scopes, acc: &mut FnEdges)
    ensures
        final(acc)@ == join(old(acc)@, sum_stmts(v@, sc@)),
    decreases v,
{
    let ghost start = acc@;
    let mut i: usize = 0;
    proof {
        lemma_join_assoc(start, nothing_found(), nothing_found());
        assert(v@.subrange(0, 0) =~= Seq::<Stmt>::empty());
    }
    while i < v.len()
        invariant
            i <= v.len(),
            acc@ == join(start, sum_stmts(v@.subrange(0, i as int), sc@)),
        decreases v.len() - i,
    {
        proof {
            let pre = v@.subrange(0, i + 1);
            assert(pre.subrange(0, i as int) =~= v@.subrange(0, i as int));
            assert(pre[i as int] == v@[i as int]);
            lemma_join_assoc(start, sum_stmts(v@.subrange(0, i as int), sc@), sum_stmt(v@[i as int], sc@));
        }
        walk_stmt(&v[i], sc, acc);
        i = i + 1;
    }
    proof {
        assert(v@.subrange(0, v.len() as int) =~= v@);
    }
}

fn walk_arms(v: &Vec<MatchArm>, sc: &Scopes, acc: &mut FnEdges)
    ensures
        final(acc)@ == join(old(acc)@, sum_arms(v@, sc@)),
    decreases v,
{
    let ghost start = acc@;
    let mut i: usize = 0;
    proof {
        lemma_join_assoc(start, nothing_found(), nothing_found());
        assert(v@.subrange(0, 0) =~= Seq::<MatchArm>::empty());
    }
    while i < v.len()
        invariant
            i <= v.len(),
            acc@ == join(start, sum_arms(v@.subrange(0, i as int), sc@)),
        decreases v.len() - i,
    {
        proof {
            let pre = v@.subrange(0, i + 1);
            assert(pre.subrange(0, i as int) =~= v@.subrange(0, i as int));
            assert(pre[i as int] == v@[i as int]);
            lemma_join_assoc(start, sum_arms(v@.subrange(0, i as int), sc@), sum_stmts(v@[i as int].body.stmts@, sc@));
        }
        walk_stmts(&v[i].body.stmts, sc, acc);
        i = i + 1;
    }
    proof {
        assert(v@.subrange(0, v.len() as int) =~= v@);
    }
}

} // verus!

verus! {

/// The declared type is `channel<T>`.
pub open spec fn spec_ast_type_is_channel(t: AstType) -> bool {
    match t {
        AstType::Generic { name, .. } => name@ == "channel"@,
        _ => false,
    }
}

/// Is a declared type `channel<T>` (any element type)?
pub fn ast_type_is_channel(t: &AstType) -> (b: bool)
    ensures
        b == spec_ast_type_is_channel(*t),
{
    match t {
        AstType::Generic { name, .. } => str_eq(name.as_str(), "channel"),
        _ => false,
    }
}

/// Does `let <name>[: ty] = value` create a conduit binding, given the conduit bindings
/// so far? A `channel<T>` annotation, `channel<T>(…)` construction, a call to a local
/// channel-returning function, a `background` spawn (a task handle), or an alias of an
/// existing conduit binding.
pub open spec fn spec_let_binds_derivable_conduit(
    ty: Option<AstType>,
    value: Expr,
    conduits: Set<Seq<char>>,
    channel_fns: Set<Seq<char>>,
) -> bool {
    (ty is Some && spec_ast_type_is_channel(ty->0)) || match value {
        Expr::Call(c) => match *c.callee {
            Expr::Ident(n, _) => n@ == "channel"@ || channel_fns.contains(n@),
            _ => false,
        },
        Expr::Background(_, _) => true,
        Expr::Ident(n, _) => conduits.contains(n@),
        _ => false,
    }
}

/// The binding-origin predicate shared with the conduit-receiver discipline.
pub fn let_binds_derivable_conduit(
    ty: Option<&AstType>,
    value: &Expr,
    conduits: &NameSet,
    channel_fns: &NameSet,
) -> (b: bool)
    ensures
        b == spec_let_binds_derivable_conduit(
            match ty {
                Some(t) => Some(*t),
                None => None,
            },
            *value,
            conduits@,
            channel_fns@,
        ),
{
    let annotated = match ty {
        Some(t) => ast_type_is_channel(t),
        None => false,
    };
    annotated || match value {
        Expr::Call(c) => match &*c.callee {
            Expr::Ident(n, _) => str_eq(n.as_str(), "channel") || channel_fns.contains(n.as_str()),
            _ => false,
        },
        Expr::Background(_, _) => true,
        Expr::Ident(n, _) => conduits.contains(n.as_str()),
        _ => false,
    }
}

/// `e` calls a suspending method on a conduit binding somewhere (spawned callees excluded,
/// spawn arguments included).
pub open spec fn conduit_expr(e: Expr, c: Set<Seq<char>>) -> bool
    decreases e,
{
    match e {
        Expr::MethodCall { receiver, method, args, .. } => {
            let on_conduit = match *receiver {
                Expr::Ident(n, _) => c.contains(n@),
                _ => false,
            };
            spec_channel_method_suspends(on_conduit, method@) || conduit_expr(*receiver, c) || conduit_exprs(args@, c)
        },
        Expr::Wait(inner, _) => conduit_expr(*inner, c),
        Expr::Background(inner, _) => match *inner {
            Expr::Call(call) => conduit_exprs(call.args@, c),
            other => conduit_expr(other, c),
        },
        Expr::Call(call) => conduit_expr(*call.callee, c) || conduit_exprs(call.args@, c),
        Expr::BinOp { lhs, rhs, .. } => conduit_expr(*lhs, c) || conduit_expr(*rhs, c),
        Expr::UnaryOp { operand, .. } => conduit_expr(*operand, c),
        Expr::FieldAccess { receiver, .. } => conduit_expr(*receiver, c),
        Expr::IndexAccess { receiver, index, .. } => conduit_expr(*receiver, c) || conduit_expr(*index, c),
        Expr::StructLit { fields, .. } => conduit_fields(fields@, c),
        Expr::ArrayLit { elements, .. } => conduit_exprs(elements@, c),
        Expr::MapLit { entries, .. } => conduit_entries(entries@, c),
        Expr::PostfixOp { receiver, .. } => conduit_expr(*receiver, c),
        Expr::Is { expr, .. } => conduit_expr(*expr, c),
        Expr::InterpolatedString(parts, _) => conduit_parts(parts@, c),
        _ => false,
    }
}

pub open spec fn conduit_exprs(s: Seq<Expr>, c: Set<Seq<char>>) -> bool
    decreases s,
{
    s.len() > 0 && (conduit_exprs(s.subrange(0, s.len() - 1), c) || conduit_expr(s[s.len() - 1], c))
}

pub open spec fn conduit_fields(s: Seq<FieldInit>, c: Set<Seq<char>>) -> bool
    decreases s,
{
    s.len() > 0 && (conduit_fields(s.subrange(0, s.len() - 1), c) || conduit_expr(s[s.len() - 1].value, c))
}

pub open spec fn conduit_entries(s: Seq<MapEntryLit>, c: Set<Seq<char>>) -> bool
    decreases s,
{
    s.len() > 0 && (conduit_entries(s.subrange(0, s.len() - 1), c) || conduit_expr(s[s.len() - 1].key, c)
        || conduit_expr(s[s.len() - 1].value, c))
}

pub open spec fn conduit_parts(s: Seq<StringPart>, c: Set<Seq<char>>) -> bool
    decreases s,
{
    s.len() > 0 && (conduit_parts(s.subrange(0, s.len() - 1), c) || match s[s.len() - 1] {
        StringPart::Expr(e, _) => conduit_expr(e, c),
        StringPart::Text(_) => false,
    })
}

/// Walking statements in order, accumulating conduit bindings: whether a suspending
/// conduit call appears, and the conduit bindings known at that point (or at the end).
pub open spec fn conduit_stmts(s: Seq<Stmt>, c: Set<Seq<char>>, cf: Set<Seq<char>>) -> (bool, Set<Seq<char>>)
    decreases s, 0nat,
{
    if s.len() == 0 {
        (false, c)
    } else {
        let r = conduit_stmt(s[0], c, cf);
        if r.0 {
            r
        } else {
            conduit_stmts(s.subrange(1, s.len() as int), r.1, cf)
        }
    }
}

pub open spec fn conduit_stmt(st: Stmt, c: Set<Seq<char>>, cf: Set<Seq<char>>) -> (bool, Set<Seq<char>>)
    decreases st, 0nat,
{
    match st {
        Stmt::Let { name, ty, value, .. } => if conduit_expr(value, c) {
            (true, c)
        } else if spec_let_binds_derivable_conduit(ty, value, c, cf) {
            (false, c.insert(name@))
        } else {
            (false, c)
        },
        Stmt::Expr(e) => (conduit_expr(e, c), c),
        Stmt::Assign { value, .. } => (conduit_expr(value, c), c),
        Stmt::Return { value, .. } => (
            match value {
                Some(v) => conduit_expr(v, c),
                None => false,
            },
            c,
        ),
        Stmt::FieldAssign { target, value, .. } => (conduit_expr(target, c) || conduit_expr(value, c), c),
        Stmt::IndexAssign { receiver, index, value, .. } => (
            conduit_expr(receiver, c) || conduit_expr(index, c) || conduit_expr(value, c),
            c,
        ),
        Stmt::If { cond, body, .. } => if conduit_expr(cond, c) {
            (true, c)
        } else {
            conduit_stmts(body.stmts@, c, cf)
        },
        Stmt::While { cond, body, .. } => if conduit_expr(cond, c) {
            (true, c)
        } else {
            conduit_stmts(body.stmts@, c, cf)
        },
        Stmt::For { iter, body, .. } => if conduit_expr(iter, c) {
            (true, c)
        } else {
            conduit_stmts(body.stmts@, c, cf)
        },
        Stmt::Match { scrutinee, arms, else_arm, .. } => if conduit_expr(scrutinee, c) {
            (true, c)
        } else {
            let r = conduit_arms(arms@, c, cf);
            if r.0 {
                r
            } else {
                match else_arm {
                    Some(b) => conduit_stmts(b.stmts@, r.1, cf),
                    None => r,
                }
            }
        },
    }
}

pub open spec fn conduit_arms(s: Seq<MatchArm>, c: Set<Seq<char>>, cf: Set<Seq<char>>) -> (bool, Set<Seq<char>>)
    decreases s, 0nat,
{
    if s.len() == 0 {
        (false, c)
    } else {
        let r = conduit_stmts(s[0].body.stmts@, c, cf);
        if r.0 {
            r
        } else {
            conduit_arms(s.subrange(1, s.len() as int), r.1, cf)
        }
    }
}

fn expr_has_conduit_suspension(e: &Expr, c: &NameSet) -> (b: bool)
    ensures
        b == conduit_expr(*e, c@),
    decreases e,
{
    match e {
        Expr::MethodCall { receiver, method, args, .. } => {
            let on_conduit = match &**receiver {
                Expr::Ident(n, _) => c.contains(n.as_str()),
                _ => false,
            };
            if channel_method_suspends(on_conduit, method.as_str()) {
                return true;
            }
            expr_has_conduit_suspension(receiver, c) || exprs_have_conduit_suspension(args, c)
        },
        Expr::Wait(inner, _) => expr_has_conduit_suspension(inner, c),
        Expr::Background(inner, _) => match &**inner {
            Expr::Call(call) => exprs_have_conduit_suspension(&call.args, c),
            other => expr_has_conduit_suspension(other, c),
        },
        Expr::Call(call) => expr_has_conduit_suspension(&call.callee, c) || exprs_have_conduit_suspension(&call.args, c),
        Expr::BinOp { lhs, rhs, .. } => expr_has_conduit_suspension(lhs, c) || expr_has_conduit_suspension(rhs, c),
        Expr::UnaryOp { operand, .. } => expr_has_conduit_suspension(operand, c),
        Expr::FieldAccess { receiver, .. } => expr_has_conduit_suspension(receiver, c),
        Expr::IndexAccess { receiver, index, .. } => expr_has_conduit_suspension(receiver, c)
            || expr_has_conduit_suspension(index, c),
        Expr::StructLit { fields, .. } => fields_have_conduit_suspension(fields, c),
        Expr::ArrayLit { elements, .. } => exprs_have_conduit_suspension(elements, c),
        Expr::MapLit { entries, .. } => entries_have_conduit_suspension(entries, c),
        Expr::PostfixOp { receiver, .. } => expr_has_conduit_suspension(receiver, c),
        Expr::Is { expr, .. } => expr_has_conduit_suspension(expr, c),
        Expr::InterpolatedString(parts, _) => parts_have_conduit_suspension(parts, c),
        _ => false,
    }
}

proof fn lemma_conduit_exprs_prefix(s: Seq<Expr>, c: Set<Seq<char>>, i: int)
    requires
        0 <= i < s.len(),
        conduit_expr(s[i], c),
    ensures
        conduit_exprs(s, c),
    decreases s.len(),
{
    if i < s.len() - 1 {
        lemma_conduit_exprs_prefix(s.subrange(0, s.len() - 1), c, i);
    }
}

proof fn lemma_conduit_fields_prefix(s: Seq<FieldInit>, c: Set<Seq<char>>, i: int)
    requires
        0 <= i < s.len(),
        conduit_expr(s[i].value, c),
    ensures
        conduit_fields(s, c),
    decreases s.len(),
{
    if i < s.len() - 1 {
        lemma_conduit_fields_prefix(s.subrange(0, s.len() - 1), c, i);
    }
}

proof fn lemma_conduit_entries_prefix(s: Seq<MapEntryLit>, c: Set<Seq<char>>, i: int)
    requires
        0 <= i < s.len(),
        conduit_expr(s[i].key, c) || conduit_expr(s[i].value, c),
    ensures
        conduit_entries(s, c),
    decreases s.len(),
{
    if i < s.len() - 1 {
        lemma_conduit_entries_prefix(s.subrange(0, s.len() - 1), c, i);
    }
}

proof fn lemma_conduit_parts_prefix(s: Seq<StringPart>, c: Set<Seq<char>>, i: int)
    requires
        0 <= i < s.len(),
        match s[i] {
            StringPart::Expr(e, _) => conduit_expr(e, c),
            StringPart::Text(_) => false,
        },
    ensures
        conduit_parts(s, c),
    decreases s.len(),
{
    if i < s.len() - 1 {
        lemma_conduit_parts_prefix(s.subrange(0, s.len() - 1), c, i);
    }
}

fn exprs_have_conduit_suspension(v: &Vec<Expr>, c: &NameSet) -> (b: bool)
    ensures
        b == conduit_exprs(v@, c@),
    decreases v,
{
    let mut i: usize = 0;
    proof {
        assert(v@.subrange(0, 0) =~= Seq::<Expr>::empty());
    }
    while i < v.len()
        invariant
            i <= v.len(),
            !conduit_exprs(v@.subrange(0, i as int), c@),
        decreases v.len() - i,
    {
        proof {
            assert(v@.subrange(0, i + 1).subrange(0, i as int) =~= v@.subrange(0, i as int));
        }
        if expr_has_conduit_suspension(&v[i], c) {
            proof {
                lemma_conduit_exprs_prefix(v@, c@, i as int);
            }
            return true;
        }
        i = i + 1;
    }
    proof {
        assert(v@.subrange(0, v.len() as int) =~= v@);
    }
    false
}

fn fields_have_conduit_suspension(v: &Vec<FieldInit>, c: &NameSet) -> (b: bool)
    ensures
        b == conduit_fields(v@, c@),
    decreases v,
{
    let mut i: usize = 0;
    proof {
        assert(v@.subrange(0, 0) =~= Seq::<FieldInit>::empty());
    }
    while i < v.len()
        invariant
            i <= v.len(),
            !conduit_fields(v@.subrange(0, i as int), c@),
        decreases v.len() - i,
    {
        proof {
            assert(v@.subrange(0, i + 1).subrange(0, i as int) =~= v@.subrange(0, i as int));
        }
        if expr_has_conduit_suspension(&v[i].value, c) {
            proof {
                lemma_conduit_fields_prefix(v@, c@, i as int);
            }
            return true;
        }
        i = i + 1;
    }
    proof {
        assert(v@.subrange(0, v.len() as int) =~= v@);
    }
    false
}

fn entries_have_conduit_suspension(v: &Vec<MapEntryLit>, c: &NameSet) -> (b: bool)
    ensures
        b == conduit_entries(v@, c@),
    decreases v,
{
    let mut i: usize = 0;
    proof {
        assert(v@.subrange(0, 0) =~= Seq::<MapEntryLit>::empty());
    }
    while i < v.len()
        invariant
            i <= v.len(),
            !conduit_entries(v@.subrange(0, i as int), c@),
        decreases v.len() - i,
    {
        proof {
            assert(v@.subrange(0, i + 1).subrange(0, i as int) =~= v@.subrange(0, i as int));
        }
        let hit_key = expr_has_conduit_suspension(&v[i].key, c);
        let hit = hit_key || expr_has_conduit_suspension(&v[i].value, c);
        if hit {
            proof {
                lemma_conduit_entries_prefix(v@, c@, i as int);
            }
            return true;
        }
        i = i + 1;
    }
    proof {
        assert(v@.subrange(0, v.len() as int) =~= v@);
    }
    false
}

fn parts_have_conduit_suspension(v: &Vec<StringPart>, c: &NameSet) -> (b: bool)
    ensures
        b == conduit_parts(v@, c@),
    decreases v,
{
    let mut i: usize = 0;
    proof {
        assert(v@.subrange(0, 0) =~= Seq::<StringPart>::empty());
    }
    while i < v.len()
        invariant
            i <= v.len(),
            !conduit_parts(v@.subrange(0, i as int), c@),
        decreases v.len() - i,
    {
        proof {
            assert(v@.subrange(0, i + 1).subrange(0, i as int) =~= v@.subrange(0, i as int));
        }
        let hit = match &v[i] {
            StringPart::Expr(pe, _) => expr_has_conduit_suspension(pe, c),
            StringPart::Text(_) => false,
        };
        if hit {
            proof {
                lemma_conduit_parts_prefix(v@, c@, i as int);
            }
            return true;
        }
        i = i + 1;
    }
    proof {
        assert(v@.subrange(0, v.len() as int) =~= v@);
    }
    false
}

fn stmts_contain_conduit_suspension(stmts: &Vec<Stmt>, conduits: &mut NameSet, cf: &NameSet) -> (b: bool)
    ensures
        (b, final(conduits)@) == conduit_stmts(stmts@, old(conduits)@, cf@),
    decreases stmts, 1nat,
{
    let mut i: usize = 0;
    proof {
        assert(stmts@.subrange(0, stmts@.len() as int) =~= stmts@);
    }
    while i < stmts.len()
        invariant
            i <= stmts.len(),
            conduit_stmts(stmts@, old(conduits)@, cf@) == conduit_stmts(
                stmts@.subrange(i as int, stmts@.len() as int),
                conduits@,
                cf@,
            ),
        decreases stmts.len() - i,
    {
        proof {
            let rest = stmts@.subrange(i as int, stmts@.len() as int);
            assert(rest[0] == stmts@[i as int]);
            assert(rest.subrange(1, rest.len() as int) =~= stmts@.subrange(i + 1, stmts@.len() as int));
        }
        if stmt_contains_conduit_suspension(&stmts[i], conduits, cf) {
            return true;
        }
        i = i + 1;
    }
    false
}

fn stmt_contains_conduit_suspension(st: &Stmt, conduits: &mut NameSet, cf: &NameSet) -> (b: bool)
    ensures
        (b, final(conduits)@) == conduit_stmt(*st, old(conduits)@, cf@),
    decreases st, 1nat,
{
    match st {
        Stmt::Let { name, ty, value, .. } => {
            if expr_has_conduit_suspension(value, conduits) {
                return true;
            }
            let is_conduit = let_binds_derivable_conduit(ty.as_ref(), value, conduits, cf);
            if is_conduit {
                conduits.insert(name.clone());
            }
            false
        },
        Stmt::Expr(e) => expr_has_conduit_suspension(e, conduits),
        Stmt::Assign { value, .. } => expr_has_conduit_suspension(value, conduits),
        Stmt::Return { value, .. } => match value {
            Some(v) => expr_has_conduit_suspension(v, conduits),
            None => false,
        },
        Stmt::FieldAssign { target, value, .. } => expr_has_conduit_suspension(target, conduits)
            || expr_has_conduit_suspension(value, conduits),
        Stmt::IndexAssign { receiver, index, value, .. } => expr_has_conduit_suspension(receiver, conduits)
            || expr_has_conduit_suspension(index, conduits) || expr_has_conduit_suspension(value, conduits),
        Stmt::If { cond, body, .. } | Stmt::While { cond, body, .. } => {
            if expr_has_conduit_suspension(cond, conduits) {
                return true;
            }
            stmts_contain_conduit_suspension(&body.stmts, conduits, cf)
        },
        Stmt::For { iter, body, .. } => {
            if expr_has_conduit_suspension(iter, conduits) {
                return true;
            }
            stmts_contain_conduit_suspension(&body.stmts, conduits, cf)
        },
        Stmt::Match { scrutinee, arms, else_arm, .. } => {
            if expr_has_conduit_suspension(scrutinee, conduits) {
                return true;
            }
            if arms_contain_conduit_suspension(arms, conduits, cf) {
                return true;
            }
            match else_arm {
                Some(b) => stmts_contain_conduit_suspension(&b.stmts, conduits, cf),
                None => false,
            }
        },
    }
}

fn arms_contain_conduit_suspension(arms: &Vec<MatchArm>, conduits: &mut NameSet, cf: &NameSet) -> (b: bool)
    ensures
        (b, final(conduits)@) == conduit_arms(arms@, old(conduits)@, cf@),
    decreases arms, 1nat,
{
    let mut i: usize = 0;
    proof {
        assert(arms@.subrange(0, arms@.len() as int) =~= arms@);
    }
    while i < arms.len()
        invariant
            i <= arms.len(),
            conduit_arms(arms@, old(conduits)@, cf@) == conduit_arms(
                arms@.subrange(i as int, arms@.len() as int),
                conduits@,
                cf@,
            ),
        decreases arms.len() - i,
    {
        proof {
            let rest = arms@.subrange(i as int, arms@.len() as int);
            assert(rest[0] == arms@[i as int]);
            assert(rest.subrange(1, rest.len() as int) =~= arms@.subrange(i + 1, arms@.len() as int));
        }
        if stmts_contain_conduit_suspension(&arms[i].body.stmts, conduits, cf) {
            return true;
        }
        i = i + 1;
    }
    false
}

/// The names of the parameters declared `channel<T>`.
pub open spec fn channel_params(ps: Seq<crate::syntax::Param>) -> Set<Seq<char>> {
    Set::new(|n: Seq<char>| exists|i: int| 0 <= i < ps.len() && ps[i].name@ == n && spec_ast_type_is_channel(ps[i].ty))
}

/// Does `f`'s body call a suspending method on a conduit binding?
pub open spec fn spec_fn_contains_conduit_suspension(f: FunctionDecl, cf: Set<Seq<char>>) -> bool {
    conduit_stmts(f.body.stmts@, channel_params(f.params@), cf).0
}

fn fn_contains_conduit_suspension(f: &FunctionDecl, cf: &NameSet) -> (b: bool)
    ensures
        b == spec_fn_contains_conduit_suspension(*f, cf@),
{
    let mut conduits = NameSet::new();
    let mut i: usize = 0;
    while i < f.params.len()
        invariant
            i <= f.params.len(),
            conduits@ == Set::new(
                |n: Seq<char>|
                    exists|j: int| 0 <= j < i && f.params@[j].name@ == n && spec_ast_type_is_channel(f.params@[j].ty),
            ),
        decreases f.params.len() - i,
    {
        let ghost before = conduits@;
        if ast_type_is_channel(&f.params[i].ty) {
            conduits.insert(f.params[i].name.clone());
        }
        proof {
            assert(conduits@ =~= Set::new(
                |n: Seq<char>|
                    exists|j: int| 0 <= j < i + 1 && f.params@[j].name@ == n && spec_ast_type_is_channel(f.params@[j].ty),
            )) by {
                assert forall|n: Seq<char>|
                    (exists|j: int| 0 <= j < i + 1 && f.params@[j].name@ == n && spec_ast_type_is_channel(f.params@[j].ty))
                        implies conduits@.contains(n) by {
                    let j = choose|j: int| 0 <= j < i + 1 && f.params@[j].name@ == n && spec_ast_type_is_channel(f.params@[j].ty);
                    if j < i {
                        assert(before.contains(n));
                    }
                }
            }
        }
        i = i + 1;
    }
    proof {
        assert(conduits@ =~= channel_params(f.params@));
    }
    stmts_contain_conduit_suspension(&f.body.stmts, &mut conduits, cf)
}

} // verus!

verus! {

/// The statement is, or holds in a nested `if`/`match` block, a `while` or `for` loop.
pub open spec fn loop_stmt(st: Stmt) -> bool
    decreases st,
{
    match st {
        Stmt::While { .. } => true,
        Stmt::For { .. } => true,
        Stmt::If { body, .. } => loop_stmts(body.stmts@),
        Stmt::Match { arms, else_arm, .. } => loop_arms(arms@) || match else_arm {
            Some(b) => loop_stmts(b.stmts@),
            None => false,
        },
        _ => false,
    }
}

pub open spec fn loop_stmts(s: Seq<Stmt>) -> bool
    decreases s,
{
    s.len() > 0 && (loop_stmts(s.subrange(0, s.len() - 1)) || loop_stmt(s[s.len() - 1]))
}

pub open spec fn loop_arms(s: Seq<MatchArm>) -> bool
    decreases s,
{
    s.len() > 0 && (loop_arms(s.subrange(0, s.len() - 1)) || loop_stmts(s[s.len() - 1].body.stmts@))
}

proof fn lemma_loop_stmts_prefix(s: Seq<Stmt>, i: int)
    requires
        0 <= i < s.len(),
        loop_stmt(s[i]),
    ensures
        loop_stmts(s),
    decreases s.len(),
{
    if i < s.len() - 1 {
        lemma_loop_stmts_prefix(s.subrange(0, s.len() - 1), i);
    }
}

proof fn lemma_loop_arms_prefix(s: Seq<MatchArm>, i: int)
    requires
        0 <= i < s.len(),
        loop_stmts(s[i].body.stmts@),
    ensures
        loop_arms(s),
    decreases s.len(),
{
    if i < s.len() - 1 {
        lemma_loop_arms_prefix(s.subrange(0, s.len() - 1), i);
    }
}

fn block_contains_loop(v: &Vec<Stmt>) -> (b: bool)
    ensures
        b == loop_stmts(v@),
    decreases v,
{
    let mut i: usize = 0;
    proof {
        assert(v@.subrange(0, 0) =~= Seq::<Stmt>::empty());
    }
    while i < v.len()
        invariant
            i <= v.len(),
            !loop_stmts(v@.subrange(0, i as int)),
        decreases v.len() - i,
    {
        proof {
            assert(v@.subrange(0, i + 1).subrange(0, i as int) =~= v@.subrange(0, i as int));
        }
        if stmt_contains_loop(&v[i]) {
            proof {
                lemma_loop_stmts_prefix(v@, i as int);
            }
            return true;
        }
        i = i + 1;
    }
    proof {
        assert(v@.subrange(0, v.len() as int) =~= v@);
    }
    false
}

fn stmt_contains_loop(st: &Stmt) -> (b: bool)
    ensures
        b == loop_stmt(*st),
    decreases st,
{
    match st {
        Stmt::While { .. } => true,
        Stmt::For { .. } => true,
        Stmt::If { body, .. } => block_contains_loop(&body.stmts),
        Stmt::Match { arms, else_arm, .. } => {
            if arms_contain_loop(arms) {
                return true;
            }
            match else_arm {
                Some(b) => block_contains_loop(&b.stmts),
                None => false,
            }
        },
        _ => false,
    }
}

fn arms_contain_loop(v: &Vec<MatchArm>) -> (b: bool)
    ensures
        b == loop_arms(v@),
    decreases v,
{
    let mut i: usize = 0;
    proof {
        assert(v@.subrange(0, 0) =~= Seq::<MatchArm>::empty());
    }
    while i < v.len()
        invariant
            i <= v.len(),
            !loop_arms(v@.subrange(0, i as int)),
        decreases v.len() - i,
    {
        proof {
            assert(v@.subrange(0, i + 1).subrange(0, i as int) =~= v@.subrange(0, i as int));
        }
        if block_contains_loop(&v[i].body.stmts) {
            proof {
                lemma_loop_arms_prefix(v@, i as int);
            }
            return true;
        }
        i = i + 1;
    }
    proof {
        assert(v@.subrange(0, v.len() as int) =~= v@);
    }
    false
}

} // verus!

verus! {

/// `e` calls a function named in `t` directly (by name, not through `background`).
pub open spec fn imp_expr(e: Expr, t: Set<Seq<char>>) -> bool
    decreases e,
{
    match e {
        Expr::Background(inner, _) => match *inner {
            Expr::Call(c) => imp_exprs(c.args@, t),
            other => imp_expr(other, t),
        },
        Expr::Call(c) => {
            let direct = match *c.callee {
                Expr::Ident(n, _) => t.contains(n@),
                _ => false,
            };
            direct || imp_expr(*c.callee, t) || imp_exprs(c.args@, t)
        },
        Expr::Wait(inner, _) => imp_expr(*inner, t),
        Expr::BinOp { lhs, rhs, .. } => imp_expr(*lhs, t) || imp_expr(*rhs, t),
        Expr::UnaryOp { operand, .. } => imp_expr(*operand, t),
        Expr::MethodCall { receiver, args, .. } => imp_expr(*receiver, t) || imp_exprs(args@, t),
        Expr::IndexAccess { receiver, index, .. } => imp_expr(*receiver, t) || imp_expr(*index, t),
        Expr::FieldAccess { receiver, .. } => imp_expr(*receiver, t),
        Expr::StructLit { fields, .. } => imp_fields(fields@, t),
        Expr::ArrayLit { elements, .. } => imp_exprs(elements@, t),
        Expr::MapLit { entries, .. } => imp_entries(entries@, t),
        Expr::Is { expr, .. } => imp_expr(*expr, t),
        Expr::InterpolatedString(parts, _) => imp_parts(parts@, t),
        Expr::PostfixOp { receiver, .. } => imp_expr(*receiver, t),
        _ => false,
    }
}

pub open spec fn imp_exprs(s: Seq<Expr>, t: Set<Seq<char>>) -> bool
    decreases s,
{
    s.len() > 0 && (imp_exprs(s.subrange(0, s.len() - 1), t) || imp_expr(s[s.len() - 1], t))
}

pub open spec fn imp_fields(s: Seq<FieldInit>, t: Set<Seq<char>>) -> bool
    decreases s,
{
    s.len() > 0 && (imp_fields(s.subrange(0, s.len() - 1), t) || imp_expr(s[s.len() - 1].value, t))
}

pub open spec fn imp_entries(s: Seq<MapEntryLit>, t: Set<Seq<char>>) -> bool
    decreases s,
{
    s.len() > 0 && (imp_entries(s.subrange(0, s.len() - 1), t) || imp_expr(s[s.len() - 1].key, t) || imp_expr(
        s[s.len() - 1].value,
        t,
    ))
}

pub open spec fn imp_parts(s: Seq<StringPart>, t: Set<Seq<char>>) -> bool
    decreases s,
{
    s.len() > 0 && (imp_parts(s.subrange(0, s.len() - 1), t) || match s[s.len() - 1] {
        StringPart::Expr(e, _) => imp_expr(e, t),
        StringPart::Text(_) => false,
    })
}

pub open spec fn imp_stmt(st: Stmt, t: Set<Seq<char>>) -> bool
    decreases st,
{
    match st {
        Stmt::Expr(e) => imp_expr(e, t),
        Stmt::Let { value, .. } => imp_expr(value, t),
        Stmt::Assign { value, .. } => imp_expr(value, t),
        Stmt::Return { value, .. } => match value {
            Some(v) => imp_expr(v, t),
            None => false,
        },
        Stmt::FieldAssign { target, value, .. } => imp_expr(target, t) || imp_expr(value, t),
        Stmt::IndexAssign { receiver, index, value, .. } => imp_expr(receiver, t) || imp_expr(index, t) || imp_expr(
            value,
            t,
        ),
        Stmt::If { cond, body, .. } => imp_expr(cond, t) || imp_stmts(body.stmts@, t),
        Stmt::While { cond, body, .. } => imp_expr(cond, t) || imp_stmts(body.stmts@, t),
        Stmt::For { iter, body, .. } => imp_expr(iter, t) || imp_stmts(body.stmts@, t),
        Stmt::Match { scrutinee, arms, else_arm, .. } => imp_expr(scrutinee, t) || imp_arms(arms@, t) || match else_arm {
            Some(b) => imp_stmts(b.stmts@, t),
            None => false,
        },
    }
}

pub open spec fn imp_stmts(s: Seq<Stmt>, t: Set<Seq<char>>) -> bool
    decreases s,
{
    s.len() > 0 && (imp_stmts(s.subrange(0, s.len() - 1), t) || imp_stmt(s[s.len() - 1], t))
}

pub open spec fn imp_arms(s: Seq<MatchArm>, t: Set<Seq<char>>) -> bool
    decreases s,
{
    s.len() > 0 && (imp_arms(s.subrange(0, s.len() - 1), t) || imp_stmts(s[s.len() - 1].body.stmts@, t))
}

proof fn lemma_imp_exprs_prefix(s: Seq<Expr>, t: Set<Seq<char>>, i: int)
    requires
        0 <= i < s.len(),
        imp_expr(s[i], t),
    ensures
        imp_exprs(s, t),
    decreases s.len(),
{
    if i < s.len() - 1 {
        lemma_imp_exprs_prefix(s.subrange(0, s.len() - 1), t, i);
    }
}

proof fn lemma_imp_fields_prefix(s: Seq<FieldInit>, t: Set<Seq<char>>, i: int)
    requires
        0 <= i < s.len(),
        imp_expr(s[i].value, t),
    ensures
        imp_fields(s, t),
    decreases s.len(),
{
    if i < s.len() - 1 {
        lemma_imp_fields_prefix(s.subrange(0, s.len() - 1), t, i);
    }
}

proof fn lemma_imp_entries_prefix(s: Seq<MapEntryLit>, t: Set<Seq<char>>, i: int)
    requires
        0 <= i < s.len(),
        imp_expr(s[i].key, t) || imp_expr(s[i].value, t),
    ensures
        imp_entries(s, t),
    decreases s.len(),
{
    if i < s.len() - 1 {
        lemma_imp_entries_prefix(s.subrange(0, s.len() - 1), t, i);
    }
}

proof fn lemma_imp_parts_prefix(s: Seq<StringPart>, t: Set<Seq<char>>, i: int)
    requires
        0 <= i < s.len(),
        match s[i] {
            StringPart::Expr(e, _) => imp_expr(e, t),
            StringPart::Text(_) => false,
        },
    ensures
        imp_parts(s, t),
    decreases s.len(),
{
    if i < s.len() - 1 {
        lemma_imp_parts_prefix(s.subrange(0, s.len() - 1), t, i);
    }
}

proof fn lemma_imp_stmts_prefix(s: Seq<Stmt>, t: Set<Seq<char>>, i: int)
    requires
        0 <= i < s.len(),
        imp_stmt(s[i], t),
    ensures
        imp_stmts(s, t),
    decreases s.len(),
{
    if i < s.len() - 1 {
        lemma_imp_stmts_prefix(s.subrange(0, s.len() - 1), t, i);
    }
}

proof fn lemma_imp_arms_prefix(s: Seq<MatchArm>, t: Set<Seq<char>>, i: int)
    requires
        0 <= i < s.len(),
        imp_stmts(s[i].body.stmts@, t),
    ensures
        imp_arms(s, t),
    decreases s.len(),
{
    if i < s.len() - 1 {
        lemma_imp_arms_prefix(s.subrange(0, s.len() - 1), t, i);
    }
}

fn expr_calls_imported_name(e: &Expr, t: &NameSet) -> (b: bool)
    ensures
        b == imp_expr(*e, t@),
    decreases e,
{
    match e {
        Expr::Background(inner, _) => match &**inner {
            Expr::Call(c) => exprs_call_imported_name(&c.args, t),
            other => expr_calls_imported_name(other, t),
        },
        Expr::Call(c) => {
            let direct = match &*c.callee {
                Expr::Ident(n, _) => t.contains(n.as_str()),
                _ => false,
            };
            direct || expr_calls_imported_name(&c.callee, t) || exprs_call_imported_name(&c.args, t)
        },
        Expr::Wait(inner, _) => expr_calls_imported_name(inner, t),
        Expr::BinOp { lhs, rhs, .. } => expr_calls_imported_name(lhs, t) || expr_calls_imported_name(rhs, t),
        Expr::UnaryOp { operand, .. } => expr_calls_imported_name(operand, t),
        Expr::MethodCall { receiver, args, .. } => expr_calls_imported_name(receiver, t) || exprs_call_imported_name(
            args,
            t,
        ),
        Expr::IndexAccess { receiver, index, .. } => expr_calls_imported_name(receiver, t) || expr_calls_imported_name(
            index,
            t,
        ),
        Expr::FieldAccess { receiver, .. } => expr_calls_imported_name(receiver, t),
        Expr::StructLit { fields, .. } => fields_call_imported_name(fields, t),
        Expr::ArrayLit { elements, .. } => exprs_call_imported_name(elements, t),
        Expr::MapLit { entries, .. } => entries_call_imported_name(entries, t),
        Expr::Is { expr, .. } => expr_calls_imported_name(expr, t),
        Expr::InterpolatedString(parts, _) => parts_call_imported_name(parts, t),
        Expr::PostfixOp { receiver, .. } => expr_calls_imported_name(receiver, t),
        _ => false,
    }
}

fn exprs_call_imported_name(v: &Vec<Expr>, t: &NameSet) -> (b: bool)
    ensures
        b == imp_exprs(v@, t@),
    decreases v,
{
    let mut i: usize = 0;
    proof {
        assert(v@.subrange(0, 0) =~= Seq::<Expr>::empty());
    }
    while i < v.len()
        invariant
            i <= v.len(),
            !imp_exprs(v@.subrange(0, i as int), t@),
        decreases v.len() - i,
    {
        proof {
            assert(v@.subrange(0, i + 1).subrange(0, i as int) =~= v@.subrange(0, i as int));
        }
        if expr_calls_imported_name(&v[i], t) {
            proof {
                lemma_imp_exprs_prefix(v@, t@, i as int);
            }
            return true;
        }
        i = i + 1;
    }
    proof {
        assert(v@.subrange(0, v.len() as int) =~= v@);
    }
    false
}

fn fields_call_imported_name(v: &Vec<FieldInit>, t: &NameSet) -> (b: bool)
    ensures
        b == imp_fields(v@, t@),
    decreases v,
{
    let mut i: usize = 0;
    proof {
        assert(v@.subrange(0, 0) =~= Seq::<FieldInit>::empty());
    }
    while i < v.len()
        invariant
            i <= v.len(),
            !imp_fields(v@.subrange(0, i as int), t@),
        decreases v.len() - i,
    {
        proof {
            assert(v@.subrange(0, i + 1).subrange(0, i as int) =~= v@.subrange(0, i as int));
        }
        if expr_calls_imported_name(&v[i].value, t) {
            proof {
                lemma_imp_fields_prefix(v@, t@, i as int);
            }
            return true;
        }
        i = i + 1;
    }
    proof {
        assert(v@.subrange(0, v.len() as int) =~= v@);
    }
    false
}

fn entries_call_imported_name(v: &Vec<MapEntryLit>, t: &NameSet) -> (b: bool)
    ensures
        b == imp_entries(v@, t@),
    decreases v,
{
    let mut i: usize = 0;
    proof {
        assert(v@.subrange(0, 0) =~= Seq::<MapEntryLit>::empty());
    }
    while i < v.len()
        invariant
            i <= v.len(),
            !imp_entries(v@.subrange(0, i as int), t@),
        decreases v.len() - i,
    {
        proof {
            assert(v@.subrange(0, i + 1).subrange(0, i as int) =~= v@.subrange(0, i as int));
        }
        let hit_key = expr_calls_imported_name(&v[i].key, t);
        let hit = hit_key || expr_calls_imported_name(&v[i].value, t);
        if hit {
            proof {
                lemma_imp_entries_prefix(v@, t@, i as int);
            }
            return true;
        }
        i = i + 1;
    }
    proof {
        assert(v@.subrange(0, v.len() as int) =~= v@);
    }
    false
}

fn parts_call_imported_name(v: &Vec<StringPart>, t: &NameSet) -> (b: bool)
    ensures
        b == imp_parts(v@, t@),
    decreases v,
{
    let mut i: usize = 0;
    proof {
        assert(v@.subrange(0, 0) =~= Seq::<StringPart>::empty());
    }
    while i < v.len()
        invariant
            i <= v.len(),
            !imp_parts(v@.subrange(0, i as int), t@),
        decreases v.len() - i,
    {
        proof {
            assert(v@.subrange(0, i + 1).subrange(0, i as int) =~= v@.subrange(0, i as int));
        }
        let hit = match &v[i] {
            StringPart::Expr(pe, _) => expr_calls_imported_name(pe, t),
            StringPart::Text(_) => false,
        };
        if hit {
            proof {
                lemma_imp_parts_prefix(v@, t@, i as int);
            }
            return true;
        }
        i = i + 1;
    }
    proof {
        assert(v@.subrange(0, v.len() as int) =~= v@);
    }
    false
}

fn stmt_calls_imported_name(st: &Stmt, t: &NameSet) -> (b: bool)
    ensures
        b == imp_stmt(*st, t@),
    decreases st,
{
    match st {
        Stmt::Expr(e) => expr_calls_imported_name(e, t),
        Stmt::Let { value, .. } => expr_calls_imported_name(value, t),
        Stmt::Assign { value, .. } => expr_calls_imported_name(value, t),
        Stmt::Return { value, .. } => match value {
            Some(v) => expr_calls_imported_name(v, t),
            None => false,
        },
        Stmt::FieldAssign { target, value, .. } => expr_calls_imported_name(target, t) || expr_calls_imported_name(
            value,
            t,
        ),
        Stmt::IndexAssign { receiver, index, value, .. } => expr_calls_imported_name(receiver, t)
            || expr_calls_imported_name(index, t) || expr_calls_imported_name(value, t),
        Stmt::If { cond, body, .. } => expr_calls_imported_name(cond, t) || block_calls_imported_name(&body.stmts, t),
        Stmt::While { cond, body, .. } => expr_calls_imported_name(cond, t) || block_calls_imported_name(
            &body.stmts,
            t,
        ),
        Stmt::For { iter, body, .. } => expr_calls_imported_name(iter, t) || block_calls_imported_name(&body.stmts, t),
        Stmt::Match { scrutinee, arms, else_arm, .. } => {
            if expr_calls_imported_name(scrutinee, t) || arms_call_imported_name(arms, t) {
                return true;
            }
            match else_arm {
                Some(b) => block_calls_imported_name(&b.stmts, t),
                None => false,
            }
        },
    }
}

fn block_calls_imported_name(v: &Vec<Stmt>, t: &NameSet) -> (b: bool)
    ensures
        b == imp_stmts(v@, t@),
    decreases v,
{
    let mut i: usize = 0;
    proof {
        assert(v@.subrange(0, 0) =~= Seq::<Stmt>::empty());
    }
    while i < v.len()
        invariant
            i <= v.len(),
            !imp_stmts(v@.subrange(0, i as int), t@),
        decreases v.len() - i,
    {
        proof {
            assert(v@.subrange(0, i + 1).subrange(0, i as int) =~= v@.subrange(0, i as int));
        }
        if stmt_calls_imported_name(&v[i], t) {
            proof {
                lemma_imp_stmts_prefix(v@, t@, i as int);
            }
            return true;
        }
        i = i + 1;
    }
    proof {
        assert(v@.subrange(0, v.len() as int) =~= v@);
    }
    false
}

fn arms_call_imported_name(v: &Vec<MatchArm>, t: &NameSet) -> (b: bool)
    ensures
        b == imp_arms(v@, t@),
    decreases v,
{
    let mut i: usize = 0;
    proof {
        assert(v@.subrange(0, 0) =~= Seq::<MatchArm>::empty());
    }
    while i < v.len()
        invariant
            i <= v.len(),
            !imp_arms(v@.subrange(0, i as int), t@),
        decreases v.len() - i,
    {
        proof {
            assert(v@.subrange(0, i + 1).subrange(0, i as int) =~= v@.subrange(0, i as int));
        }
        if block_calls_imported_name(&v[i].body.stmts, t) {
            proof {
                lemma_imp_arms_prefix(v@, t@, i as int);
            }
            return true;
        }
        i = i + 1;
    }
    proof {
        assert(v@.subrange(0, v.len() as int) =~= v@);
    }
    false
}

} // verus!

verus! {

/// The item declares a function named `n`.
pub open spec fn is_fn_named(it: Item, n: Seq<char>) -> bool {
    match it {
        Item::Function(f) => f.name@ == n,
        _ => false,
    }
}

/// The item declares a function named `n` whose declared return type is `channel<T>`.
pub open spec fn is_channel_fn_named(it: Item, n: Seq<char>) -> bool {
    match it {
        Item::Function(f) => f.name@ == n && spec_ast_type_is_channel(f.return_type),
        _ => false,
    }
}

/// The names of the module's functions.
pub open spec fn local_fn_names(items: Seq<Item>) -> Set<Seq<char>> {
    Set::new(|n: Seq<char>| exists|j: int| 0 <= j < items.len() && #[trigger] is_fn_named(items[j], n))
}

/// The names of the module's functions declared to return `channel<T>`.
pub open spec fn channel_returning_fns(items: Seq<Item>) -> Set<Seq<char>> {
    Set::new(|n: Seq<char>| exists|j: int| 0 <= j < items.len() && #[trigger] is_channel_fn_named(items[j], n))
}

/// The position of the last function named `n`: when a name is declared twice, the call
/// graph keeps the later declaration.
pub open spec fn defining_index(items: Seq<Item>, n: Seq<char>) -> int {
    choose|j: int|
        0 <= j < items.len() && is_fn_named(items[j], n) && forall|k: int|
            j < k < items.len() ==> !#[trigger] is_fn_named(items[k], n)
}

/// The declaration the call graph keeps for the name `n`.
pub open spec fn defining_decl(items: Seq<Item>, n: Seq<char>) -> FunctionDecl {
    items[defining_index(items, n)]->Function_0
}

/// The scopes a module's calls are classified against.
pub open spec fn module_scopes(items: Seq<Item>, imported: Set<Seq<char>>, suspending: Set<Seq<char>>) -> ScopesView {
    ScopesView { local: local_fn_names(items), imported, suspending }
}

/// What a function's body calls; a suspending conduit-method call also makes it a seed.
pub open spec fn fn_summary(f: FunctionDecl, sc: ScopesView, cf: Set<Seq<char>>) -> CallSummary {
    let s = sum_stmts(f.body.stmts@, sc);
    CallSummary { callees: s.callees, hit: s.hit || spec_fn_contains_conduit_suspension(f, cf) }
}

/// The call-graph node of the name `n`.
pub open spec fn summary_of(
    items: Seq<Item>,
    imported: Set<Seq<char>>,
    suspending: Set<Seq<char>>,
    n: Seq<char>,
) -> CallSummary {
    fn_summary(defining_decl(items, n), module_scopes(items, imported, suspending), channel_returning_fns(items))
}

/// The direct (not `background`) local callees of each function.
pub open spec fn call_edges(items: Seq<Item>, imported: Set<Seq<char>>, suspending: Set<Seq<char>>) -> spec_fn(
    Seq<char>,
) -> Set<Seq<char>> {
    |n: Seq<char>| summary_of(items, imported, suspending, n).callees
}

/// The function `n` suspends: a suspension seed (a direct suspension source, or a name in
/// `extra`) is reachable from it along direct calls.
pub open spec fn spec_suspends(
    items: Seq<Item>,
    imported: Set<Seq<char>>,
    suspending: Set<Seq<char>>,
    extra: Set<Seq<char>>,
    n: Seq<char>,
) -> bool {
    reaches(
        local_fn_names(items),
        call_edges(items, imported, suspending),
        |x: Seq<char>| summary_of(items, imported, suspending, x).hit || extra.contains(x),
        n,
    )
}

proof fn lemma_defining_decl(items: Seq<Item>, i: int, n: Seq<char>)
    requires
        0 <= i < items.len(),
        is_fn_named(items[i], n),
        forall|k: int| i < k < items.len() ==> !#[trigger] is_fn_named(items[k], n),
    ensures
        defining_index(items, n) == i,
        defining_decl(items, n) == items[i]->Function_0,
{
    let d = defining_index(items, n);
    assert(0 <= d < items.len() && is_fn_named(items[d], n) && forall|k: int|
        d < k < items.len() ==> !#[trigger] is_fn_named(items[k], n));
    if d < i {
        assert(!is_fn_named(items[i], n));
    }
    if d > i {
        assert(!is_fn_named(items[d], n));
    }
}

/// The call graph of a module: each local function (its last declaration) with its edges.
struct CallGraph {
    names: NameSet,
    edges: Vec<FnEdges>,
}

spec fn graph_of(g: CallGraph, items: Seq<Item>, imported: Set<Seq<char>>, suspending: Set<Seq<char>>) -> bool {
    &&& g.edges@.len() == g.names.entries().len()
    &&& g.names@ == local_fn_names(items)
    &&& forall|k: int|
        0 <= k < g.edges@.len() ==> #[trigger] g.edges@[k]@ == summary_of(
            items,
            imported,
            suspending,
            g.names.entries()[k],
        )
}

pub fn local_function_names(items: &Vec<Item>) -> (s: NameSet)
    ensures
        s@ == local_fn_names(items@),
{
    let mut s = NameSet::new();
    let mut i: usize = 0;
    while i < items.len()
        invariant
            i <= items.len(),
            s@ == Set::new(|n: Seq<char>| exists|j: int| 0 <= j < i && #[trigger] is_fn_named(items@[j], n)),
        decreases items.len() - i,
    {
        let ghost before = s@;
        match &items[i] {
            Item::Function(f) => s.insert(f.name.clone()),
            _ => {},
        }
        proof {
            assert(s@ =~= Set::new(|n: Seq<char>| exists|j: int| 0 <= j < i + 1 && #[trigger] is_fn_named(items@[j], n))) by {
                assert forall|n: Seq<char>|
                    (exists|j: int| 0 <= j < i + 1 && #[trigger] is_fn_named(items@[j], n)) implies s@.contains(n) by {
                    let j = choose|j: int| 0 <= j < i + 1 && #[trigger] is_fn_named(items@[j], n);
                    if j < i {
                        assert(before.contains(n));
                    }
                }
                assert forall|n: Seq<char>| s@.contains(n) implies (exists|j: int|
                    0 <= j < i + 1 && #[trigger] is_fn_named(items@[j], n)) by {
                    if !before.contains(n) {
                        assert(is_fn_named(items@[i as int], n));
                    }
                }
            }
        }
        i = i + 1;
    }
    proof {
        assert(s@ =~= local_fn_names(items@));
    }
    s
}

/// The local functions whose declared return type is `channel<T>`: a call to one of them
/// yields a conduit binding.
pub fn collect_channel_returning_fns(module: &Module) -> (s: NameSet)
    ensures
        s@ == channel_returning_fns(module.items@),
{
    let items = &module.items;
    let mut s = NameSet::new();
    let mut i: usize = 0;
    while i < items.len()
        invariant
            i <= items.len(),
            items == &module.items,
            s@ == Set::new(|n: Seq<char>| exists|j: int| 0 <= j < i && #[trigger] is_channel_fn_named(items@[j], n)),
        decreases items.len() - i,
    {
        let ghost before = s@;
        match &items[i] {
            Item::Function(f) => {
                if ast_type_is_channel(&f.return_type) {
                    s.insert(f.name.clone());
                }
            },
            _ => {},
        }
        proof {
            assert(s@ =~= Set::new(
                |n: Seq<char>| exists|j: int| 0 <= j < i + 1 && #[trigger] is_channel_fn_named(items@[j], n),
            )) by {
                assert forall|n: Seq<char>|
                    (exists|j: int| 0 <= j < i + 1 && #[trigger] is_channel_fn_named(items@[j], n)) implies s@.contains(
                    n,
                ) by {
                    let j = choose|j: int| 0 <= j < i + 1 && #[trigger] is_channel_fn_named(items@[j], n);
                    if j < i {
                        assert(before.contains(n));
                    }
                }
                assert forall|n: Seq<char>| s@.contains(n) implies (exists|j: int|
                    0 <= j < i + 1 && #[trigger] is_channel_fn_named(items@[j], n)) by {
                    if !before.contains(n) {
                        assert(is_channel_fn_named(items@[i as int], n));
                    }
                }
            }
        }
        i = i + 1;
    }
    proof {
        assert(s@ =~= channel_returning_fns(module.items@));
    }
    s
}

fn fn_edges_of(f: &FunctionDecl, sc: &Scopes, cf: &NameSet) -> (fe: FnEdges)
    ensures
        fe@ == fn_summary(*f, sc@, cf@),
{
    let mut fe = FnEdges { direct: NameSet::new(), calls_may_block_intrinsic: false };
    walk_stmts(&f.body.stmts, sc, &mut fe);
    proof {
        let s = sum_stmts(f.body.stmts@, sc@);
        assert(join(nothing_found(), s).callees =~= s.callees);
    }
    if !fe.calls_may_block_intrinsic && fn_contains_conduit_suspension(f, cf) {
        fe.calls_may_block_intrinsic = true;
    }
    fe
}

fn build_call_graph(module: &Module, imported: &NameSet, suspending: &NameSet) -> (g: CallGraph)
    ensures
        graph_of(g, module.items@, imported@, suspending@),
{
    let items = &module.items;
    let local = local_function_names(items);
    let cf = collect_channel_returning_fns(module);
    let sc = Scopes { local: &local, imported, suspending };
    let mut names = NameSet::new();
    let mut edges: Vec<FnEdges> = Vec::new();
    let mut i: usize = items.len();
    while i > 0
        invariant
            i <= items.len(),
            items == &module.items,
            sc@ == module_scopes(items@, imported@, suspending@),
            cf@ == channel_returning_fns(items@),
            names@ == Set::new(|n: Seq<char>| exists|j: int| i <= j < items.len() && #[trigger] is_fn_named(items@[j], n)),
            edges@.len() == names.entries().len(),
            forall|k: int|
                0 <= k < edges@.len() ==> #[trigger] edges@[k]@ == summary_of(
                    items@,
                    imported@,
                    suspending@,
                    names.entries()[k],
                ),
        decreases i,
    {
        let idx = i - 1;
        let ghost before = names@;
        let ghost before_entries = names.entries();
        match &items[idx] {
            Item::Function(f) => {
                if !names.contains(f.name.as_str()) {
                    let fe = fn_edges_of(f, &sc, &cf);
                    proof {
                        assert forall|k: int| idx < k < items@.len() implies !#[trigger] is_fn_named(items@[k], f.name@) by {
                            if is_fn_named(items@[k], f.name@) {
                                assert(before.contains(f.name@));
                            }
                        }
                        lemma_defining_decl(items@, idx as int, f.name@);
                    }
                    names.insert(f.name.clone());
                    edges.push(fe);
                    proof {
                        assert forall|k: int| 0 <= k < edges@.len() implies #[trigger] edges@[k]@ == summary_of(
                            items@,
                            imported@,
                            suspending@,
                            names.entries()[k],
                        ) by {
                            if k < before_entries.len() {
                                assert(names.entries()[k] == before_entries[k]);
                            }
                        }
                    }
                }
            },
            _ => {},
        }
        proof {
            assert(names@ =~= Set::new(
                |n: Seq<char>| exists|j: int| idx <= j < items.len() && #[trigger] is_fn_named(items@[j], n),
            )) by {
                assert forall|n: Seq<char>|
                    (exists|j: int| idx <= j < items.len() && #[trigger] is_fn_named(items@[j], n)) implies names@.contains(
                    n,
                ) by {
                    let j = choose|j: int| idx <= j < items.len() && #[trigger] is_fn_named(items@[j], n);
                    if j > idx {
                        assert(before.contains(n));
                    }
                }
                assert forall|n: Seq<char>| names@.contains(n) implies (exists|j: int|
                    idx <= j < items.len() && #[trigger] is_fn_named(items@[j], n)) by {
                    if !before.contains(n) {
                        assert(is_fn_named(items@[idx as int], n));
                    }
                }
            }
        }
        i = idx;
    }
    proof {
        assert(names@ =~= local_fn_names(items@));
    }
    CallGraph { names, edges }
}

} // verus!

verus! {

/// A call edge the analysis cannot resolve within this compilation unit.
#[derive(Debug)]
pub enum UnresolvableEdge {
    /// Callee is defined in another module.
    CrossModule {
        /// The name as written at the call site.
        callee_name: String,
        /// Import source if known, otherwise empty.
        import_src: String,
    },
    /// Call dispatched through a `dynamic Contract` vtable.
    DynamicDispatch {
        /// The receiver expression text.
        receiver_hint: String,
    },
}

/// Result of the intra-unit transitive may-block analysis.
pub struct MayBlockAnalysis {
    /// Functions (by name) that transitively reach a suspension point.
    pub suspends: NameSet,
    /// Call edges the analysis could not resolve.
    pub unresolvable: Vec<(String, UnresolvableEdge)>,
}

spec fn callee_sets(edges: Seq<FnEdges>) -> Seq<Set<Seq<char>>> {
    Seq::new(edges.len(), |k: int| edges[k].direct@)
}

/// The adjacency lists of the call graph, by position in `g.names`.
fn index_graph(g: &CallGraph) -> (adj: Vec<Vec<usize>>)
    requires
        g.edges@.len() == g.names.entries().len(),
    ensures
        indexes(g.names.entries(), callee_sets(g.edges@), adj@.map_values(|v: Vec<usize>| v@)),
{
    let n = g.names.len();
    let ghost ns = g.names.entries();
    let ghost cs = callee_sets(g.edges@);
    let mut adj: Vec<Vec<usize>> = Vec::new();
    let mut i: usize = 0;
    while i < n
        invariant
            i <= n,
            n == ns.len(),
            no_duplicates(ns),
            ns == g.names.entries(),
            cs == callee_sets(g.edges@),
            g.edges@.len() == n,
            adj@.len() == i,
            forall|a: int, k: int| 0 <= a < i && 0 <= k < adj@[a]@.len() ==> (#[trigger] adj@[a]@[k]) < n,
            forall|a: int, j: int|
                0 <= a < i && 0 <= j < n ==> (adj@[a]@.contains(j as usize) <==> #[trigger] cs[a].contains(ns[j])),
        decreases n - i,
    {
        let direct = &g.edges[i].direct;
        let dn = direct.len();
        let mut row: Vec<usize> = Vec::new();
        let mut k: usize = 0;
        while k < dn
            invariant
                k <= dn,
                dn == direct.entries().len(),
                n == ns.len(),
                no_duplicates(ns),
                ns == g.names.entries(),
                forall|q: int| 0 <= q < row@.len() ==> (#[trigger] row@[q]) < n,
                forall|j: int|
                    #![trigger ns[j]]
                    0 <= j < n ==> (row@.contains(j as usize) <==> exists|k2: int|
                        0 <= k2 < k && #[trigger] direct.entries()[k2] == ns[j]),
            decreases dn - k,
        {
            let ghost before = row@;
            let found = g.names.index_of(direct.name_at(k).as_str());
            match found {
                Some(j) => {
                    row.push(j);
                },
                None => {},
            }
            proof {
                assert(found is None ==> row@ == before);
                assert(found is Some ==> row@ == before.push(found->0));
                assert forall|j: int|
                    #![trigger ns[j]]
                    0 <= j < n implies (row@.contains(j as usize) <==> exists|k2: int|
                        0 <= k2 < k + 1 && #[trigger] direct.entries()[k2] == ns[j]) by {
                    if row@.contains(j as usize) && !before.contains(j as usize) {
                        if found is None {
                            assert(row@ == before);
                        }
                        assert(row@ == before.push(found->0));
                        let q = choose|q: int| 0 <= q < row@.len() && row@[q] == j as usize;
                        if q < before.len() {
                            assert(before[q] == j as usize);
                        }
                        assert(found->0 == j as usize);
                        assert(direct.entries()[k as int] == ns[j]);
                    }
                    if exists|k2: int| 0 <= k2 < k + 1 && #[trigger] direct.entries()[k2] == ns[j] {
                        let k2 = choose|k2: int| 0 <= k2 < k + 1 && #[trigger] direct.entries()[k2] == ns[j];
                        if k2 < k {
                            assert(before.contains(j as usize));
                            let q = choose|q: int| 0 <= q < before.len() && before[q] == j as usize;
                            assert(row@[q] == j as usize);
                        } else {
                            assert(ns.contains(ns[j]));
                            assert(g.names@.contains(direct.entries()[k as int]));
                            let jj = found->0 as int;
                            assert(ns[jj] == ns[j]);
                            assert(row@[row@.len() - 1] == j as usize);
                        }
                    }
                }
            }
            k = k + 1;
        }
        proof {
            assert forall|j: int| 0 <= j < n implies (row@.contains(j as usize) <==> cs[i as int].contains(ns[j])) by {
                if cs[i as int].contains(ns[j]) {
                    let k2 = choose|k2: int| 0 <= k2 < direct.entries().len() && direct.entries()[k2] == ns[j];
                    assert(direct.entries()[k2] == ns[j]);
                }
            }
        }
        adj.push(row);
        i = i + 1;
    }
    proof {
        let m = adj@.map_values(|v: Vec<usize>| v@);
        assert forall|a: int, k: int| 0 <= a < m.len() && 0 <= k < m[a].len() implies (#[trigger] m[a][k]) < m.len() by {
            assert(m[a] == adj@[a]@);
        }
        assert forall|a: int, j: int| 0 <= a < ns.len() && 0 <= j < ns.len() implies (m[a].contains(j as usize)
            <==> #[trigger] cs[a].contains(ns[j])) by {
            assert(m[a] == adj@[a]@);
        }
    }
    adj
}

/// The names at the marked positions.
fn collect_marked(names: &NameSet, m: &Vec<bool>) -> (r: NameSet)
    requires
        m@.len() == names.entries().len(),
    ensures
        forall|x: Seq<char>|
            r@.contains(x) <==> exists|k: int| 0 <= k < m@.len() && m@[k] && #[trigger] names.entries()[k] == x,
{
    let mut r = NameSet::new();
    let mut k: usize = 0;
    while k < m.len()
        invariant
            k <= m.len(),
            m@.len() == names.entries().len(),
            forall|x: Seq<char>|
                r@.contains(x) <==> exists|q: int| 0 <= q < k && m@[q] && #[trigger] names.entries()[q] == x,
        decreases m.len() - k,
    {
        let ghost before = r@;
        if m[k] {
            r.insert(names.name_at(k).clone());
        }
        proof {
            assert forall|x: Seq<char>|
                r@.contains(x) <==> exists|q: int| 0 <= q < k + 1 && m@[q] && #[trigger] names.entries()[q] == x by {
                if r@.contains(x) && !before.contains(x) {
                    assert(names.entries()[k as int] == x);
                }
                if exists|q: int| 0 <= q < k + 1 && m@[q] && #[trigger] names.entries()[q] == x {
                    let q = choose|q: int| 0 <= q < k + 1 && m@[q] && #[trigger] names.entries()[q] == x;
                    if q < k {
                        assert(before.contains(x));
                    }
                }
            }
        }
        k = k + 1;
    }
    r
}

/// The suspends fixpoint with extra suspension seeds beyond the direct suspension
/// sources: `base_suspends ∪ closure(extra_seeds)`, where each closure propagates to
/// every (non-`background`) caller.
pub fn suspends_with_extra_seeds(
    module: &Module,
    imported_fn_names: &NameSet,
    imported_suspending_names: &NameSet,
    extra_seeds: &NameSet,
) -> (r: NameSet)
    ensures
        forall|n: Seq<char>|
            r@.contains(n) <==> spec_suspends(
                module.items@,
                imported_fn_names@,
                imported_suspending_names@,
                extra_seeds@,
                n,
            ),
{
    let ghost items = module.items@;
    let ghost imp = imported_fn_names@;
    let ghost sus = imported_suspending_names@;
    let ghost calls = call_edges(items, imp, sus);
    let ghost target = |x: Seq<char>| summary_of(items, imp, sus, x).hit || extra_seeds@.contains(x);
    let g = build_call_graph(module, imported_fn_names, imported_suspending_names);
    let adj = index_graph(&g);
    let ghost ns = g.names.entries();
    let n = g.names.len();
    let mut seeds: Vec<bool> = Vec::new();
    let mut i: usize = 0;
    while i < n
        invariant
            i <= n,
            n == ns.len(),
            ns == g.names.entries(),
            graph_of(g, items, imp, sus),
            items == module.items@,
            seeds@.len() == i,
            forall|j: int|
                0 <= j < i ==> seeds@[j] == (summary_of(items, imp, sus, #[trigger] ns[j]).hit
                    || extra_seeds@.contains(ns[j])),
        decreases n - i,
    {
        let s = g.edges[i].calls_may_block_intrinsic || extra_seeds.contains(g.names.name_at(i).as_str());
        proof {
            assert(g.edges@[i as int]@ == summary_of(items, imp, sus, ns[i as int]));
        }
        seeds.push(s);
        i = i + 1;
    }
    let ghost gadj = adj@.map_values(|v: Vec<usize>| v@);
    proof {
        assert forall|j: int| 0 <= j < ns.len() implies seeds@[j] == target(#[trigger] ns[j]) by {
            assert(seeds@[j] == (summary_of(items, imp, sus, ns[j]).hit || extra_seeds@.contains(ns[j])));
        }
        assert forall|j: int| 0 <= j < ns.len() implies callee_sets(g.edges@)[j] == calls(#[trigger] ns[j]) by {
            assert(g.edges@[j]@ == summary_of(items, imp, sus, ns[j]));
        }
        if n > 0 {
            lemma_reaches_indexed(ns, callee_sets(g.edges@), calls, gadj, seeds@, target, 0);
        } else {
            assert(graph_wf(gadj, seeds@));
        }
    }
    let m = least_fixpoint(&adj, &seeds);
    let r = collect_marked(&g.names, &m);
    proof {
        assert forall|x: Seq<char>| r@.contains(x) <==> spec_suspends(items, imp, sus, extra_seeds@, x) by {
            if r@.contains(x) {
                let k = choose|k: int| 0 <= k < m@.len() && m@[k] && #[trigger] ns[k] == x;
                lemma_reaches_indexed(ns, callee_sets(g.edges@), calls, gadj, seeds@, target, k);
            }
            if spec_suspends(items, imp, sus, extra_seeds@, x) {
                let p = choose|p: Seq<Seq<char>>| #[trigger] crate::call_graph::is_walk(local_fn_names(items), calls, p) && p[0] == x
                    && target(p[p.len() - 1]);
                assert(local_fn_names(items).contains(p[0]));
                assert(g.names@.contains(x));
                let k = choose|k: int| 0 <= k < ns.len() && ns[k] == x;
                lemma_reaches_indexed(ns, callee_sets(g.edges@), calls, gadj, seeds@, target, k);
            }
        }
    }
    r
}

/// Run the transitive may-block fixpoint over a module: the functions from which a
/// suspension source (a may-block intrinsic, an imported suspending function, or a
/// suspending conduit-method call) is reachable along direct calls.
pub fn analyze(
    module: &Module,
    imported_fn_names: &NameSet,
    imported_suspending_names: &NameSet,
) -> (r: MayBlockAnalysis)
    ensures
        forall|n: Seq<char>|
            r.suspends@.contains(n) <==> spec_suspends(
                module.items@,
                imported_fn_names@,
                imported_suspending_names@,
                Set::empty(),
                n,
            ),
        r.unresolvable@.len() == 0,
{
    let none = NameSet::new();
    let suspends = suspends_with_extra_seeds(module, imported_fn_names, imported_suspending_names, &none);
    MayBlockAnalysis { suspends, unresolvable: Vec::new() }
}

/// The `suspends` set alone, with no imported suspending functions.
pub fn suspends_set_for_test(module: &Module, imported_fn_names: &NameSet) -> (r: NameSet)
    ensures
        forall|n: Seq<char>|
            r@.contains(n) <==> spec_suspends(module.items@, imported_fn_names@, Set::empty(), Set::empty(), n),
{
    let none = NameSet::new();
    analyze(module, imported_fn_names, &none).suspends
}

} // verus!

verus! {

/// The item declares a function named `n` whose body contains a loop.
pub open spec fn is_looping_fn_named(it: Item, n: Seq<char>) -> bool {
    match it {
        Item::Function(f) => f.name@ == n && loop_stmts(f.body.stmts@),
        _ => false,
    }
}

/// The item declares a function named `n` whose body directly calls a name in `t`.
pub open spec fn is_caller_of_named(it: Item, n: Seq<char>, t: Set<Seq<char>>) -> bool {
    match it {
        Item::Function(f) => f.name@ == n && imp_stmts(f.body.stmts@, t),
        _ => false,
    }
}

/// Why a function does real work by itself: a declaration of it contains a loop, it lies
/// on a call cycle (recursion), or a declaration of it calls an imported function known
/// to do real work.
pub open spec fn work_seed(items: Seq<Item>, imported: Set<Seq<char>>, real_work: Set<Seq<char>>, n: Seq<char>) -> bool {
    ||| exists|j: int| 0 <= j < items.len() && #[trigger] is_looping_fn_named(items[j], n)
    ||| on_cycle(local_fn_names(items), call_edges(items, imported, Set::empty()), n)
    ||| exists|j: int| 0 <= j < items.len() && #[trigger] is_caller_of_named(items[j], n, real_work)
}

/// The function `n` does real work: a work seed is reachable from it along direct calls.
pub open spec fn spec_does_real_work(
    items: Seq<Item>,
    imported: Set<Seq<char>>,
    real_work: Set<Seq<char>>,
    n: Seq<char>,
) -> bool {
    reaches(
        local_fn_names(items),
        call_edges(items, imported, Set::empty()),
        |x: Seq<char>| work_seed(items, imported, real_work, x),
        n,
    )
}

fn looping_fn_names(items: &Vec<Item>) -> (s: NameSet)
    ensures
        forall|n: Seq<char>|
            s@.contains(n) <==> exists|j: int| 0 <= j < items@.len() && #[trigger] is_looping_fn_named(items@[j], n),
{
    let mut s = NameSet::new();
    let mut i: usize = 0;
    while i < items.len()
        invariant
            i <= items.len(),
            forall|n: Seq<char>|
                s@.contains(n) <==> exists|j: int| 0 <= j < i && #[trigger] is_looping_fn_named(items@[j], n),
        decreases items.len() - i,
    {
        let ghost before = s@;
        match &items[i] {
            Item::Function(f) => {
                if block_contains_loop(&f.body.stmts) {
                    s.insert(f.name.clone());
                }
            },
            _ => {},
        }
        proof {
            assert forall|n: Seq<char>|
                s@.contains(n) <==> exists|j: int| 0 <= j < i + 1 && #[trigger] is_looping_fn_named(items@[j], n) by {
                if exists|j: int| 0 <= j < i + 1 && #[trigger] is_looping_fn_named(items@[j], n) {
                    let j = choose|j: int| 0 <= j < i + 1 && #[trigger] is_looping_fn_named(items@[j], n);
                    if j < i {
                        assert(before.contains(n));
                    }
                }
                if s@.contains(n) && !before.contains(n) {
                    assert(is_looping_fn_named(items@[i as int], n));
                }
            }
        }
        i = i + 1;
    }
    s
}

fn callers_of_names(items: &Vec<Item>, t: &NameSet) -> (s: NameSet)
    ensures
        forall|n: Seq<char>|
            s@.contains(n) <==> exists|j: int| 0 <= j < items@.len() && #[trigger] is_caller_of_named(items@[j], n, t@),
{
    let mut s = NameSet::new();
    let mut i: usize = 0;
    while i < items.len()
        invariant
            i <= items.len(),
            forall|n: Seq<char>|
                s@.contains(n) <==> exists|j: int| 0 <= j < i && #[trigger] is_caller_of_named(items@[j], n, t@),
        decreases items.len() - i,
    {
        let ghost before = s@;
        match &items[i] {
            Item::Function(f) => {
                if block_calls_imported_name(&f.body.stmts, t) {
                    s.insert(f.name.clone());
                }
            },
            _ => {},
        }
        proof {
            assert forall|n: Seq<char>|
                s@.contains(n) <==> exists|j: int| 0 <= j < i + 1 && #[trigger] is_caller_of_named(items@[j], n, t@) by {
                if exists|j: int| 0 <= j < i + 1 && #[trigger] is_caller_of_named(items@[j], n, t@) {
                    let j = choose|j: int| 0 <= j < i + 1 && #[trigger] is_caller_of_named(items@[j], n, t@);
                    if j < i {
                        assert(before.contains(n));
                    }
                }
                if s@.contains(n) && !before.contains(n) {
                    assert(is_caller_of_named(items@[i as int], n, t@));
                }
            }
        }
        i = i + 1;
    }
    s
}

/// For each position of the indexed call graph, whether its function lies on a call cycle.
pub(crate) fn cycle_flags(
    names: &NameSet,
    adj: &Vec<Vec<usize>>,
    Ghost(cs): Ghost<Seq<Set<Seq<char>>>>,
    Ghost(calls): Ghost<spec_fn(Seq<char>) -> Set<Seq<char>>>,
) -> (rec: Vec<bool>)
    requires
        indexes(names.entries(), cs, adj@.map_values(|v: Vec<usize>| v@)),
        forall|j: int| 0 <= j < names.entries().len() ==> cs[j] == calls(#[trigger] names.entries()[j]),
    ensures
        rec@.len() == names.entries().len(),
        forall|i: int| 0 <= i < rec@.len() ==> rec@[i] == on_cycle(names@, calls, #[trigger] names.entries()[i]),
{
    let n = names.len();
    let ghost ns = names.entries();
    let ghost gadj = adj@.map_values(|v: Vec<usize>| v@);
    let mut rec: Vec<bool> = Vec::new();
    let mut i: usize = 0;
    while i < n
        invariant
            i <= n,
            n == ns.len(),
            ns == names.entries(),
            no_duplicates(ns),
            gadj == adj@.map_values(|v: Vec<usize>| v@),
            indexes(ns, cs, gadj),
            forall|j: int| 0 <= j < ns.len() ==> cs[j] == calls(#[trigger] ns[j]),
            rec@.len() == i,
            forall|a: int| 0 <= a < i ==> rec@[a] == on_cycle(names@, calls, #[trigger] ns[a]),
        decreases n - i,
    {
        let ghost tgt = |x: Seq<char>| x == ns[i as int];
        let mut seeds: Vec<bool> = Vec::new();
        let mut j: usize = 0;
        while j < n
            invariant
                j <= n,
                i < n,
                n == ns.len(),
                no_duplicates(ns),
                seeds@.len() == j,
                forall|q: int| 0 <= q < j ==> seeds@[q] == (#[trigger] ns[q] == ns[i as int]),
            decreases n - j,
        {
            seeds.push(j == i);
            proof {
                if j != i {
                    assert(ns[j as int] != ns[i as int]);
                }
            }
            j = j + 1;
        }
        proof {
            assert forall|q: int| 0 <= q < ns.len() implies seeds@[q] == tgt(#[trigger] ns[q]) by {
                assert(seeds@[q] == (ns[q] == ns[i as int]));
            }
            lemma_reaches_indexed(ns, cs, calls, gadj, seeds@, tgt, i as int);
            assert(gadj[i as int] == adj@[i as int]@);
            assert forall|k: int| 0 <= k < adj@[i as int]@.len() implies (#[trigger] adj@[i as int]@[k]) < seeds@.len() by {
                assert(gadj[i as int][k] < gadj.len());
            }
        }
        let m = least_fixpoint(adj, &seeds);
        let r = any_member(&adj[i], &m);
        proof {
            let local = ns.to_set();
            assert(names@ == local);
            let on = on_cycle(local, calls, ns[i as int]);
            if r {
                let k = choose|k: int| 0 <= k < adj@[i as int]@.len() && m@[adj@[i as int]@[k] as int];
                let c = adj@[i as int]@[k] as int;
                assert(gadj[i as int][k] < gadj.len());
                lemma_reaches_indexed(ns, cs, calls, gadj, seeds@, tgt, c);
                assert(gadj[i as int].contains(c as usize));
                assert(cs[i as int].contains(ns[c]));
                assert(local.contains(ns[c]));
                assert(tgt =~= (|x: Seq<char>| x == ns[i as int]));
                assert(calls(ns[i as int]).contains(ns[c]));
                assert(on);
            }
            if on {
                let c = choose|c: Seq<char>|
                    #[trigger] calls(ns[i as int]).contains(c) && local.contains(c) && reaches(
                        local,
                        calls,
                        |x: Seq<char>| x == ns[i as int],
                        c,
                    );
                let q = choose|q: int| 0 <= q < ns.len() && ns[q] == c;
                assert(tgt =~= (|x: Seq<char>| x == ns[i as int]));
                lemma_reaches_indexed(ns, cs, calls, gadj, seeds@, tgt, q);
                assert(cs[i as int].contains(ns[q]));
                assert(gadj[i as int].contains(q as usize));
                let k = choose|k: int| 0 <= k < gadj[i as int].len() && gadj[i as int][k] == q as usize;
                assert(adj@[i as int]@[k] == q as usize);
                assert(r);
            }
        }
        rec.push(r);
        i = i + 1;
    }
    rec
}

/// Run the "does real work" fixpoint: a function does real work when, along direct calls
/// (not through `background`), it reaches a function that contains a loop, lies on a call
/// cycle, or calls an imported function in `imported_real_work_names`.
pub fn does_real_work_set(
    module: &Module,
    imported_fn_names: &NameSet,
    imported_real_work_names: &NameSet,
) -> (r: NameSet)
    ensures
        forall|n: Seq<char>|
            r@.contains(n) <==> spec_does_real_work(module.items@, imported_fn_names@, imported_real_work_names@, n),
{
    let ghost items = module.items@;
    let ghost imp = imported_fn_names@;
    let ghost rw = imported_real_work_names@;
    let ghost calls = call_edges(items, imp, Set::empty());
    let ghost target = |x: Seq<char>| work_seed(items, imp, rw, x);
    let none = NameSet::new();
    let g = build_call_graph(module, imported_fn_names, &none);
    let adj = index_graph(&g);
    let ghost ns = g.names.entries();
    let ghost cs = callee_sets(g.edges@);
    let n = g.names.len();
    proof {
        assert forall|j: int| 0 <= j < ns.len() implies cs[j] == calls(#[trigger] ns[j]) by {
            assert(g.edges@[j]@ == summary_of(items, imp, Set::empty(), ns[j]));
        }
    }
    let rec = cycle_flags(&g.names, &adj, Ghost(cs), Ghost(calls));
    let loopers = looping_fn_names(&module.items);
    let callers = callers_of_names(&module.items, imported_real_work_names);
    let mut seeds: Vec<bool> = Vec::new();
    let mut i: usize = 0;
    while i < n
        invariant
            i <= n,
            n == ns.len(),
            ns == g.names.entries(),
            rec@.len() == n,
            items == module.items@,
            calls == call_edges(items, imp, Set::empty()),
            forall|a: int| 0 <= a < n ==> rec@[a] == on_cycle(g.names@, calls, #[trigger] ns[a]),
            g.names@ == local_fn_names(items),
            forall|x: Seq<char>|
                loopers@.contains(x) <==> exists|j: int| 0 <= j < items.len() && #[trigger] is_looping_fn_named(items[j], x),
            forall|x: Seq<char>|
                callers@.contains(x) <==> exists|j: int| 0 <= j < items.len() && #[trigger] is_caller_of_named(items[j], x, rw),
            seeds@.len() == i,
            forall|j: int| 0 <= j < i ==> seeds@[j] == work_seed(items, imp, rw, #[trigger] ns[j]),
        decreases n - i,
    {
        let name = g.names.name_at(i);
        let s = loopers.contains(name.as_str()) || rec[i] || callers.contains(name.as_str());
        seeds.push(s);
        i = i + 1;
    }
    let ghost gadj = adj@.map_values(|v: Vec<usize>| v@);
    proof {
        assert forall|j: int| 0 <= j < ns.len() implies seeds@[j] == target(#[trigger] ns[j]) by {
            assert(seeds@[j] == work_seed(items, imp, rw, ns[j]));
        }
        if n > 0 {
            lemma_reaches_indexed(ns, cs, calls, gadj, seeds@, target, 0);
        } else {
            assert(graph_wf(gadj, seeds@));
        }
    }
    let m = least_fixpoint(&adj, &seeds);
    let r = collect_marked(&g.names, &m);
    proof {
        assert forall|x: Seq<char>| r@.contains(x) <==> spec_does_real_work(items, imp, rw, x) by {
            if r@.contains(x) {
                let k = choose|k: int| 0 <= k < m@.len() && m@[k] && #[trigger] ns[k] == x;
                lemma_reaches_indexed(ns, cs, calls, gadj, seeds@, target, k);
            }
            if spec_does_real_work(items, imp, rw, x) {
                let p = choose|p: Seq<Seq<char>>| #[trigger] crate::call_graph::is_walk(local_fn_names(items), calls, p) && p[0] == x
                    && target(p[p.len() - 1]);
                assert(local_fn_names(items).contains(p[0]));
                assert(g.names@.contains(x));
                let k = choose|k: int| 0 <= k < ns.len() && ns[k] == x;
                lemma_reaches_indexed(ns, cs, calls, gadj, seeds@, target, k);
            }
        }
    }
    r
}

/// The direct (not `background`) callee adjacency of the call graph: each local function
/// with the local functions it calls directly.
pub fn direct_callee_adjacency(module: &Module, imported_fn_names: &NameSet) -> (r: Vec<(String, NameSet)>)
    ensures
        forall|k: int|
            0 <= k < r@.len() ==> (#[trigger] r@[k]).1@ == call_edges(module.items@, imported_fn_names@, Set::empty())(
                r@[k].0@,
            ),
        forall|n: Seq<char>|
            local_fn_names(module.items@).contains(n) <==> exists|k: int| 0 <= k < r@.len() && #[trigger] r@[k].0@ == n,
        forall|a: int, b: int| 0 <= a < r@.len() && 0 <= b < r@.len() && a != b ==> r@[a].0@ != r@[b].0@,
{
    let none = NameSet::new();
    let g = build_call_graph(module, imported_fn_names, &none);
    let ghost ns = g.names.entries();
    let n = g.names.len();
    let CallGraph { names, mut edges } = g;
    let ghost all_edges = edges@;
    let mut r: Vec<(String, NameSet)> = Vec::new();
    let mut i: usize = n;
    while i > 0
        invariant
            i <= n,
            n == ns.len(),
            ns == names.entries(),
            no_duplicates(ns),
            names@ == local_fn_names(module.items@),
            all_edges.len() == n,
            edges@ == all_edges.subrange(0, i as int),
            forall|k: int|
                0 <= k < n ==> #[trigger] all_edges[k]@ == summary_of(
                    module.items@,
                    imported_fn_names@,
                    Set::empty(),
                    ns[k],
                ),
            r@.len() == n - i,
            forall|k: int|
                0 <= k < r@.len() ==> (#[trigger] r@[k]).0@ == ns[n - 1 - k] && r@[k].1@ == all_edges[n - 1 - k].direct@,
        decreases i,
    {
        let fe = edges.pop().unwrap();
        let idx = i - 1;
        proof {
            assert(fe == all_edges[idx as int]);
            assert(edges@ =~= all_edges.subrange(0, idx as int));
        }
        r.push((names.name_at(idx).clone(), fe.direct));
        i = idx;
    }
    proof {
        assert forall|k: int|
            0 <= k < r@.len() implies (#[trigger] r@[k]).1@ == call_edges(module.items@, imported_fn_names@, Set::empty())(
                r@[k].0@,
            ) by {
            assert(all_edges[n - 1 - k]@ == summary_of(module.items@, imported_fn_names@, Set::empty(), ns[n - 1 - k]));
        }
        assert forall|x: Seq<char>|
            local_fn_names(module.items@).contains(x) <==> exists|k: int| 0 <= k < r@.len() && #[trigger] r@[k].0@ == x by {
            if local_fn_names(module.items@).contains(x) {
                let q = choose|q: int| 0 <= q < ns.len() && ns[q] == x;
                assert(r@[n - 1 - q].0@ == x);
            }
            if exists|k: int| 0 <= k < r@.len() && #[trigger] r@[k].0@ == x {
                let k = choose|k: int| 0 <= k < r@.len() && #[trigger] r@[k].0@ == x;
                assert(ns.contains(ns[n - 1 - k]));
            }
        }
    }
    r
}

} // verus!

verus! {

/// The call graph restricted to the functions named in `keep`.
fn restrict_graph(
    g: CallGraph,
    keep: &NameSet,
    Ghost(items): Ghost<Seq<Item>>,
    Ghost(imp): Ghost<Set<Seq<char>>>,
) -> (h: CallGraph)
    requires
        graph_of(g, items, imp, Set::empty()),
    ensures
        h.edges@.len() == h.names.entries().len(),
        h.names@ == local_fn_names(items).intersect(keep@),
        forall|k: int|
            0 <= k < h.edges@.len() ==> #[trigger] h.edges@[k]@ == summary_of(
                items,
                imp,
                Set::empty(),
                h.names.entries()[k],
            ),
{
    let ghost ns = g.names.entries();
    let n = g.names.len();
    let CallGraph { names, mut edges } = g;
    let ghost all = edges@;
    let mut names2 = NameSet::new();
    let mut edges2: Vec<FnEdges> = Vec::new();
    let mut i: usize = n;
    while i > 0
        invariant
            i <= n,
            n == ns.len(),
            ns == names.entries(),
            no_duplicates(ns),
            all.len() == n,
            edges@ == all.subrange(0, i as int),
            forall|k: int| 0 <= k < n ==> #[trigger] all[k]@ == summary_of(items, imp, Set::empty(), ns[k]),
            names2@ == Set::new(|x: Seq<char>| exists|j: int| i <= j < n && #[trigger] ns[j] == x && keep@.contains(x)),
            edges2@.len() == names2.entries().len(),
            forall|k: int|
                0 <= k < edges2@.len() ==> #[trigger] edges2@[k]@ == summary_of(
                    items,
                    imp,
                    Set::empty(),
                    names2.entries()[k],
                ),
        decreases i,
    {
        let fe = edges.pop().unwrap();
        let idx = i - 1;
        proof {
            assert(fe == all[idx as int]);
            assert(edges@ =~= all.subrange(0, idx as int));
        }
        let ghost before = names2@;
        let ghost before_entries = names2.entries();
        if keep.contains(names.name_at(idx).as_str()) {
            proof {
                if before.contains(ns[idx as int]) {
                    let j = choose|j: int| idx < j < n && #[trigger] ns[j] == ns[idx as int] && keep@.contains(ns[idx as int]);
                    assert(false);
                }
            }
            names2.insert(names.name_at(idx).clone());
            edges2.push(fe);
            proof {
                assert forall|k: int| 0 <= k < edges2@.len() implies #[trigger] edges2@[k]@ == summary_of(
                    items,
                    imp,
                    Set::empty(),
                    names2.entries()[k],
                ) by {
                    if k < before_entries.len() {
                        assert(names2.entries()[k] == before_entries[k]);
                    }
                }
            }
        }
        proof {
            assert(names2@ =~= Set::new(
                |x: Seq<char>| exists|j: int| idx <= j < n && #[trigger] ns[j] == x && keep@.contains(x),
            )) by {
                assert forall|x: Seq<char>|
                    (exists|j: int| idx <= j < n && #[trigger] ns[j] == x && keep@.contains(x)) implies names2@.contains(x) by {
                    let j = choose|j: int| idx <= j < n && #[trigger] ns[j] == x && keep@.contains(x);
                    if j > idx {
                        assert(before.contains(x));
                    }
                }
                assert forall|x: Seq<char>| names2@.contains(x) implies (exists|j: int|
                    idx <= j < n && #[trigger] ns[j] == x && keep@.contains(x)) by {
                    if !before.contains(x) {
                        assert(ns[idx as int] == x);
                    }
                }
            }
        }
        i = idx;
    }
    proof {
        assert(names2@ =~= local_fn_names(items).intersect(keep@)) by {
            assert forall|x: Seq<char>| local_fn_names(items).intersect(keep@).contains(x) implies names2@.contains(x) by {
                assert(names@.contains(x));
                let j = choose|j: int| 0 <= j < ns.len() && ns[j] == x;
            }
        }
    }
    CallGraph { names: names2, edges: edges2 }
}

/// `reach[i][j]`: the function at position `i` is reachable from the one at position `j`.
fn reach_matrix(
    names: &NameSet,
    adj: &Vec<Vec<usize>>,
    Ghost(cs): Ghost<Seq<Set<Seq<char>>>>,
    Ghost(calls): Ghost<spec_fn(Seq<char>) -> Set<Seq<char>>>,
) -> (reach: Vec<Vec<bool>>)
    requires
        indexes(names.entries(), cs, adj@.map_values(|v: Vec<usize>| v@)),
        forall|j: int| 0 <= j < names.entries().len() ==> cs[j] == calls(#[trigger] names.entries()[j]),
    ensures
        reach@.len() == names.entries().len(),
        forall|i: int| 0 <= i < reach@.len() ==> (#[trigger] reach@[i])@.len() == names.entries().len(),
        forall|i: int, j: int|
            0 <= i < reach@.len() && 0 <= j < reach@.len() ==> (#[trigger] reach@[i]@[j] == reaches_name(
                names@,
                calls,
                names.entries()[j],
                names.entries()[i],
            )),
{
    let n = names.len();
    let ghost ns = names.entries();
    let ghost gadj = adj@.map_values(|v: Vec<usize>| v@);
    let mut reach: Vec<Vec<bool>> = Vec::new();
    let mut i: usize = 0;
    while i < n
        invariant
            i <= n,
            n == ns.len(),
            ns == names.entries(),
            no_duplicates(ns),
            gadj == adj@.map_values(|v: Vec<usize>| v@),
            indexes(ns, cs, gadj),
            forall|j: int| 0 <= j < ns.len() ==> cs[j] == calls(#[trigger] ns[j]),
            reach@.len() == i,
            forall|a: int| 0 <= a < i ==> (#[trigger] reach@[a])@.len() == n,
            forall|a: int, j: int|
                0 <= a < i && 0 <= j < n ==> (#[trigger] reach@[a]@[j] == reaches_name(names@, calls, ns[j], ns[a])),
        decreases n - i,
    {
        let ghost tgt = |x: Seq<char>| x == ns[i as int];
        let mut seeds: Vec<bool> = Vec::new();
        let mut j: usize = 0;
        while j < n
            invariant
                j <= n,
                i < n,
                n == ns.len(),
                no_duplicates(ns),
                seeds@.len() == j,
                forall|q: int| 0 <= q < j ==> seeds@[q] == (#[trigger] ns[q] == ns[i as int]),
            decreases n - j,
        {
            seeds.push(j == i);
            proof {
                if j != i {
                    assert(ns[j as int] != ns[i as int]);
                }
            }
            j = j + 1;
        }
        proof {
            assert forall|q: int| 0 <= q < ns.len() implies seeds@[q] == tgt(#[trigger] ns[q]) by {
                assert(seeds@[q] == (ns[q] == ns[i as int]));
            }
            lemma_reaches_indexed(ns, cs, calls, gadj, seeds@, tgt, i as int);
        }
        let m = least_fixpoint(adj, &seeds);
        proof {
            assert(names@ == ns.to_set());
            assert(tgt =~= (|x: Seq<char>| x == ns[i as int]));
            assert forall|q: int| 0 <= q < n implies (m@[q] == reaches_name(names@, calls, ns[q], ns[i as int])) by {
                lemma_reaches_indexed(ns, cs, calls, gadj, seeds@, tgt, q);
            }
        }
        reach.push(m);
        i = i + 1;
    }
    reach
}

} // verus!

verus! {

/// A mutual suspension cycle: two or more distinct suspending functions that lie in one
/// call cycle (self-recursion alone is not one).
pub struct MutualSuspensionCycle {
    /// The participating function names, sorted.
    pub members: Vec<String>,
}

/// The member names of a cycle.
pub open spec fn member_views(c: MutualSuspensionCycle) -> Seq<Seq<char>> {
    string_views(c.members@)
}

/// `cycles` lists each strongly connected component of two or more functions of the call
/// graph over `scope` exactly once, with its members sorted.
pub open spec fn lists_mutual_cycles(
    cycles: Seq<MutualSuspensionCycle>,
    scope: Set<Seq<char>>,
    calls: spec_fn(Seq<char>) -> Set<Seq<char>>,
) -> bool {
    &&& forall|c: int|
        0 <= c < cycles.len() ==> sorted_unique(#[trigger] member_views(cycles[c])) && member_views(cycles[c]).len() >= 2
    &&& forall|c: int, a: int, b: int|
        0 <= c < cycles.len() && 0 <= a < member_views(cycles[c]).len() && 0 <= b < member_views(cycles[c]).len()
            ==> mutually_reachable(
            scope,
            calls,
            #[trigger] member_views(cycles[c])[a],
            #[trigger] member_views(cycles[c])[b],
        )
    &&& forall|c: int, a: int, y: Seq<char>|
        0 <= c < cycles.len() && 0 <= a < member_views(cycles[c]).len() && #[trigger] mutually_reachable(
            scope,
            calls,
            member_views(cycles[c])[a],
            y,
        ) ==> member_views(cycles[c]).contains(y)
    &&& forall|x: Seq<char>, y: Seq<char>|
        x != y && #[trigger] mutually_reachable(scope, calls, x, y) ==> exists|c: int|
            0 <= c < cycles.len() && #[trigger] member_views(cycles[c]).contains(x)
    &&& forall|c1: int, c2: int, x: Seq<char>|
        0 <= c1 < cycles.len() && 0 <= c2 < cycles.len() && c1 != c2 && #[trigger] member_views(cycles[c1]).contains(x)
            ==> !#[trigger] member_views(cycles[c2]).contains(x)
}

proof fn lemma_two_distinct_members(s: Seq<Seq<char>>, x: Seq<char>, y: Seq<char>)
    requires
        s.contains(x),
        s.contains(y),
        x != y,
    ensures
        s.len() >= 2,
{
    let a = choose|a: int| 0 <= a < s.len() && s[a] == x;
    let b = choose|b: int| 0 <= b < s.len() && s[b] == y;
    assert(a != b);
}

/// Group the functions of `names` into strongly connected components of two or more.
#[verifier::rlimit(40)]
fn group_components(
    names: &NameSet,
    reach: &Vec<Vec<bool>>,
    Ghost(calls): Ghost<spec_fn(Seq<char>) -> Set<Seq<char>>>,
) -> (r: Vec<MutualSuspensionCycle>)
    requires
        reach@.len() == names.entries().len(),
        forall|i: int| 0 <= i < reach@.len() ==> (#[trigger] reach@[i])@.len() == names.entries().len(),
        forall|i: int, j: int|
            0 <= i < reach@.len() && 0 <= j < reach@.len() ==> (#[trigger] reach@[i]@[j] == reaches_name(
                names@,
                calls,
                names.entries()[j],
                names.entries()[i],
            )),
    ensures
        lists_mutual_cycles(r@, names@, calls),
{
    let n = names.len();
    let ghost ns = names.entries();
    let ghost sc = names@;
    let mut assigned: Vec<bool> = Vec::new();
    let mut k: usize = 0;
    while k < n
        invariant
            k <= n,
            assigned@.len() == k,
            forall|q: int| 0 <= q < k ==> !assigned@[q],
        decreases n - k,
    {
        assigned.push(false);
        k = k + 1;
    }
    let mut cycles: Vec<MutualSuspensionCycle> = Vec::new();
    let ghost mut roots: Seq<int> = Seq::empty();
    let mut i: usize = 0;
    while i < n
        invariant
            i <= n,
            n == ns.len(),
            ns == names.entries(),
            sc == names@,
            sc == ns.to_set(),
            no_duplicates(ns),
            reach@.len() == n,
            forall|a: int| 0 <= a < n ==> (#[trigger] reach@[a])@.len() == n,
            forall|a: int, j: int|
                0 <= a < n && 0 <= j < n ==> (#[trigger] reach@[a]@[j] == reaches_name(sc, calls, ns[j], ns[a])),
            assigned@.len() == n,
            forall|j: int|
                0 <= j < n ==> (#[trigger] assigned@[j] <==> exists|a: int|
                    0 <= a < i && mutually_reachable(sc, calls, #[trigger] ns[a], ns[j])),
            roots.len() == cycles@.len(),
            forall|c: int| 0 <= c < roots.len() ==> 0 <= #[trigger] roots[c] < i,
            forall|c1: int, c2: int| 0 <= c1 < c2 < roots.len() ==> #[trigger] roots[c1] < #[trigger] roots[c2],
            forall|c: int|
                0 <= c < roots.len() ==> !exists|a: int|
                    0 <= a < #[trigger] roots[c] && mutually_reachable(sc, calls, #[trigger] ns[a], ns[roots[c]]),
            forall|c: int, y: Seq<char>|
                0 <= c < roots.len() ==> (#[trigger] member_views(cycles@[c]).contains(y) <==> mutually_reachable(
                    sc,
                    calls,
                    ns[roots[c]],
                    y,
                )),
            forall|c: int|
                0 <= c < cycles@.len() ==> sorted_unique(#[trigger] member_views(cycles@[c])) && member_views(
                    cycles@[c],
                ).len() >= 2,
            forall|j: int, y: Seq<char>|
                0 <= j < n && assigned@[j] && y != ns[j] && #[trigger] mutually_reachable(sc, calls, ns[j], y)
                    ==> exists|c: int| 0 <= c < cycles@.len() && #[trigger] member_views(cycles@[c]).contains(ns[j]),
        decreases n - i,
    {
        if !assigned[i] {
            let ghost cyc0 = cycles@;
            let ghost asg0 = assigned@;
            let mut members: Vec<String> = Vec::new();
            let mut j: usize = 0;
            proof {
                assert(string_views(members@) =~= Seq::<Seq<char>>::empty());
            }
            while j < n
                invariant
                    j <= n,
                    i < n,
                    n == ns.len(),
                    ns == names.entries(),
                    sc == names@,
                    no_duplicates(ns),
                    reach@.len() == n,
                    forall|a: int| 0 <= a < n ==> (#[trigger] reach@[a])@.len() == n,
                    forall|a: int, q: int|
                        0 <= a < n && 0 <= q < n ==> (#[trigger] reach@[a]@[q] == reaches_name(sc, calls, ns[q], ns[a])),
                    sorted_unique(string_views(members@)),
                    forall|y: Seq<char>|
                        string_views(members@).contains(y) <==> exists|q: int|
                            0 <= q < j && #[trigger] ns[q] == y && mutually_reachable(sc, calls, ns[i as int], y),
                    assigned@.len() == n,
                    forall|q: int|
                        0 <= q < n ==> (#[trigger] assigned@[q] <==> ((exists|a: int|
                            0 <= a < i && mutually_reachable(sc, calls, #[trigger] ns[a], ns[q])) || (q < j
                            && mutually_reachable(sc, calls, ns[i as int], ns[q])))),
                decreases n - j,
            {
                let ghost before = string_views(members@);
                let ghost before_assigned = assigned@;
                let both = reach[i][j] && reach[j][i];
                if both {
                    assigned.set(j, true);
                    insert_sorted_unique(&mut members, names.name_at(j).clone());
                }
                proof {
                    assert(both == mutually_reachable(sc, calls, ns[i as int], ns[j as int]));
                    assert forall|y: Seq<char>|
                        string_views(members@).contains(y) <==> exists|q: int|
                            0 <= q < j + 1 && #[trigger] ns[q] == y && mutually_reachable(sc, calls, ns[i as int], y) by {
                        if both {
                            assert(string_views(members@).to_set() == before.to_set().insert(ns[j as int]));
                            assert(string_views(members@).contains(y) == string_views(members@).to_set().contains(y));
                            assert(before.contains(y) == before.to_set().contains(y));
                        }
                        if exists|q: int| 0 <= q < j + 1 && #[trigger] ns[q] == y && mutually_reachable(sc, calls, ns[i as int], y) {
                            let q = choose|q: int| 0 <= q < j + 1 && #[trigger] ns[q] == y && mutually_reachable(sc, calls, ns[i as int], y);
                            if q < j {
                                assert(before.contains(y));
                            }
                        }
                    }
                    assert forall|q: int|
                        0 <= q < n implies (#[trigger] assigned@[q] <==> ((exists|a: int|
                            0 <= a < i && mutually_reachable(sc, calls, #[trigger] ns[a], ns[q])) || (q < j + 1
                            && mutually_reachable(sc, calls, ns[i as int], ns[q])))) by {
                        if q != j {
                            assert(assigned@[q] == before_assigned[q]);
                        }
                    }
                }
                j = j + 1;
            }
            let ghost mv = string_views(members@);
            proof {
                assert forall|y: Seq<char>| mv.contains(y) <==> mutually_reachable(sc, calls, ns[i as int], y) by {
                    if mutually_reachable(sc, calls, ns[i as int], y) {
                        lemma_reaches_name_ends(sc, calls, ns[i as int], y);
                        let q = choose|q: int| 0 <= q < ns.len() && ns[q] == y;
                        assert(ns[q] == y);
                    }
                }
            }
            if members.len() >= 2 {
                let ghost old_cycles = cycles@;
                let ghost old_roots = roots;
                cycles.push(MutualSuspensionCycle { members });
                proof {
                    roots = roots.push(i as int);
                    assert(member_views(cycles@[cycles@.len() - 1]) == mv);
                    assert forall|c: int, y: Seq<char>|
                        0 <= c < roots.len() implies (#[trigger] member_views(cycles@[c]).contains(y) <==> mutually_reachable(
                            sc,
                            calls,
                            ns[roots[c]],
                            y,
                        )) by {
                        if c < old_roots.len() {
                            assert(cycles@[c] == old_cycles[c]);
                        }
                    }
                }
            }
            proof {
                assert forall|j: int, y: Seq<char>|
                    0 <= j < n && assigned@[j] && y != ns[j] && #[trigger] mutually_reachable(sc, calls, ns[j], y)
                        implies exists|c: int| 0 <= c < cycles@.len() && #[trigger] member_views(cycles@[c]).contains(ns[j]) by {
                    if !(exists|a: int| 0 <= a < i && mutually_reachable(sc, calls, #[trigger] ns[a], ns[j])) {
                        assert(mutually_reachable(sc, calls, ns[i as int], ns[j]));
                        lemma_mutually_reachable_trans(sc, calls, ns[i as int], ns[j], y);
                        lemma_two_distinct_members(mv, ns[j], y);
                        assert(member_views(cycles@[cycles@.len() - 1]).contains(ns[j]));
                    } else {
                        assert(asg0[j]);
                        let c = choose|c: int| 0 <= c < cyc0.len() && #[trigger] member_views(cyc0[c]).contains(ns[j]);
                        assert(cycles@[c] == cyc0[c]);
                    }
                }
            }
        } else {
            proof {
                let a0 = choose|a: int| 0 <= a < i && mutually_reachable(sc, calls, #[trigger] ns[a], ns[i as int]);
                assert forall|j: int|
                    0 <= j < n implies (#[trigger] assigned@[j] <==> exists|a: int|
                        0 <= a < i + 1 && mutually_reachable(sc, calls, #[trigger] ns[a], ns[j])) by {
                    if mutually_reachable(sc, calls, ns[i as int], ns[j]) {
                        lemma_mutually_reachable_trans(sc, calls, ns[a0], ns[i as int], ns[j]);
                    }
                }
            }
        }
        i = i + 1;
    }
    proof {
        let cs = cycles@;
        assert forall|c: int, a: int, b: int|
            0 <= c < cs.len() && 0 <= a < member_views(cs[c]).len() && 0 <= b < member_views(cs[c]).len()
                implies mutually_reachable(sc, calls, #[trigger] member_views(cs[c])[a], #[trigger] member_views(cs[c])[b]) by {
            let mv = member_views(cs[c]);
            assert(mv.contains(mv[a]));
            assert(mv.contains(mv[b]));
            lemma_mutually_reachable_trans(sc, calls, mv[a], ns[roots[c]], mv[b]);
        }
        assert forall|c: int, a: int, y: Seq<char>|
            0 <= c < cs.len() && 0 <= a < member_views(cs[c]).len() && #[trigger] mutually_reachable(
                sc,
                calls,
                member_views(cs[c])[a],
                y,
            ) implies member_views(cs[c]).contains(y) by {
            let mv = member_views(cs[c]);
            assert(mv.contains(mv[a]));
            lemma_mutually_reachable_trans(sc, calls, ns[roots[c]], mv[a], y);
        }
        assert forall|x: Seq<char>, y: Seq<char>|
            x != y && #[trigger] mutually_reachable(sc, calls, x, y) implies exists|c: int|
                0 <= c < cs.len() && #[trigger] member_views(cs[c]).contains(x) by {
            lemma_reaches_name_ends(sc, calls, x, y);
            let j = choose|j: int| 0 <= j < ns.len() && ns[j] == x;
            lemma_reaches_name_refl(sc, calls, x);
            assert(mutually_reachable(sc, calls, ns[j], ns[j]));
            assert(assigned@[j]);
        }
        assert forall|c1: int, c2: int, x: Seq<char>|
            0 <= c1 < cs.len() && 0 <= c2 < cs.len() && c1 != c2 && #[trigger] member_views(cs[c1]).contains(x)
                implies !#[trigger] member_views(cs[c2]).contains(x) by {
            if member_views(cs[c2]).contains(x) {
                let (lo, hi) = if c1 < c2 { (c1, c2) } else { (c2, c1) };
                assert(roots[lo] < roots[hi]);
                assert(mutually_reachable(sc, calls, ns[roots[lo]], x));
                assert(mutually_reachable(sc, calls, ns[roots[hi]], x));
                lemma_mutually_reachable_trans(sc, calls, ns[roots[lo]], x, ns[roots[hi]]);
                assert(false);
            }
        }
    }
    cycles
}

} // verus!

verus! {

/// Find the mutual suspension cycles: the strongly connected components of two or more
/// functions in the call graph restricted to the suspending functions `suspends`, each
/// once and with its members sorted.
pub fn find_mutual_suspension_cycles(
    module: &Module,
    imported_fn_names: &NameSet,
    suspends: &NameSet,
) -> (r: Vec<MutualSuspensionCycle>)
    ensures
        lists_mutual_cycles(
            r@,
            local_fn_names(module.items@).intersect(suspends@),
            call_edges(module.items@, imported_fn_names@, Set::empty()),
        ),
{
    let ghost items = module.items@;
    let ghost imp = imported_fn_names@;
    let ghost calls = call_edges(items, imp, Set::empty());
    let ghost sc = local_fn_names(items).intersect(suspends@);
    if suspends.len() < 2 {
        let r: Vec<MutualSuspensionCycle> = Vec::new();
        proof {
            assert forall|x: Seq<char>, y: Seq<char>|
                x != y && #[trigger] mutually_reachable(sc, calls, x, y) implies exists|c: int|
                    0 <= c < r@.len() && #[trigger] member_views(r@[c]).contains(x) by {
                lemma_reaches_name_ends(sc, calls, x, y);
                lemma_two_distinct_members(suspends.entries(), x, y);
            }
        }
        return r;
    }
    let none = NameSet::new();
    let g = build_call_graph(module, imported_fn_names, &none);
    let h = restrict_graph(g, suspends, Ghost(items), Ghost(imp));
    let adj = index_graph(&h);
    proof {
        assert forall|j: int| 0 <= j < h.names.entries().len() implies callee_sets(h.edges@)[j] == calls(
            #[trigger] h.names.entries()[j],
        ) by {
            assert(h.edges@[j]@ == summary_of(items, imp, Set::empty(), h.names.entries()[j]));
        }
    }
    let reach = reach_matrix(&h.names, &adj, Ghost(callee_sets(h.edges@)), Ghost(calls));
    group_components(&h.names, &reach, Ghost(calls))
}

} // verus!

verus! {

/// The candidates reachable from `start` along direct calls: `start` itself when it is a
/// candidate, and every candidate a walk of local functions leads to.
pub open spec fn reachable_candidates(
    items: Seq<Item>,
    imported: Set<Seq<char>>,
    start: Seq<char>,
    candidates: Set<Seq<char>>,
) -> Set<Seq<char>> {
    candidates.filter(
        |c: Seq<char>|
            c == start || crate::call_graph::reaches_name(local_fn_names(items), call_edges(items, imported, Set::empty()), start, c),
    )
}

spec fn seen_targets(entries: Seq<Seq<char>>, i: int, target: Set<Seq<char>>) -> Set<Seq<char>> {
    Set::new(|x: Seq<char>| (exists|k: int| 0 <= k < i && #[trigger] entries[k] == x) && target.contains(x))
}

/// The subset of `candidates` reachable from `start` through the direct (not
/// `background`) call graph, `start` included when it is a candidate.
pub fn candidates_reachable_from(
    start: &str,
    module: &Module,
    imported_fn_names: &NameSet,
    candidates: &NameSet,
) -> (r: NameSet)
    ensures
        r@ == reachable_candidates(module.items@, imported_fn_names@, start@, candidates@),
{
    let ghost items = module.items@;
    let ghost imp = imported_fn_names@;
    let ghost calls = call_edges(items, imp, Set::empty());
    let ghost local = local_fn_names(items);
    let ghost target = reachable_candidates(items, imp, start@, candidates@);
    let none = NameSet::new();
    let g = build_call_graph(module, imported_fn_names, &none);
    let adj = index_graph(&g);
    proof {
        assert forall|j: int| 0 <= j < g.names.entries().len() implies callee_sets(g.edges@)[j] == calls(
            #[trigger] g.names.entries()[j],
        ) by {
            assert(g.edges@[j]@ == summary_of(items, imp, Set::empty(), g.names.entries()[j]));
        }
    }
    let reach = reach_matrix(&g.names, &adj, Ghost(callee_sets(g.edges@)), Ghost(calls));
    let ghost ns = g.names.entries();
    let s = g.names.index_of(start);
    let mut r = NameSet::new();
    let mut i: usize = 0;
    while i < candidates.len()
        invariant
            i <= candidates.entries().len(),
            ns == g.names.entries(),
            g.names@ == local,
            local == local_fn_names(items),
            calls == call_edges(items, imp, Set::empty()),
            items == module.items@,
            target == reachable_candidates(items, imp, start@, candidates@),
            reach@.len() == ns.len(),
            forall|a: int| 0 <= a < reach@.len() ==> (#[trigger] reach@[a])@.len() == ns.len(),
            forall|a: int, b: int|
                0 <= a < reach@.len() && 0 <= b < reach@.len() ==> (#[trigger] reach@[a]@[b] == crate::call_graph::reaches_name(
                    local,
                    calls,
                    ns[b],
                    ns[a],
                )),
            s is Some <==> local.contains(start@),
            s is Some ==> s->0 < ns.len() && ns[s->0 as int] == start@,
            r@ == seen_targets(candidates.entries(), i as int, target),
        decreases candidates.entries().len() - i,
    {
        let c = candidates.name_at(i);
        let keep = if crate::text::str_eq(c.as_str(), start) {
            true
        } else {
            match (s, g.names.index_of(c.as_str())) {
                (Some(si), Some(ci)) => reach[ci][si],
                _ => false,
            }
        };
        proof {
            let cv = candidates.entries()[i as int];
            assert(c@ == cv);
            assert(candidates@.contains(cv));
            if !keep && cv != start@ {
                if crate::call_graph::reaches_name(local, calls, start@, cv) {
                    crate::call_graph::lemma_reaches_name_ends(local, calls, start@, cv);
                }
            }
            assert(keep == target.contains(cv));
        }
        let ghost old_r = r@;
        if keep {
            r.insert(c.clone());
        }
        proof {
            let cv = candidates.entries()[i as int];
            assert(keep ==> r@ == old_r.insert(cv));
            assert(!keep ==> r@ == old_r);
            assert forall|x: Seq<char>| r@.contains(x) <==> seen_targets(candidates.entries(), i + 1, target).contains(x) by {
                if x != cv {
                    if exists|k: int| 0 <= k < i + 1 && #[trigger] candidates.entries()[k] == x {
                        let k = choose|k: int| 0 <= k < i + 1 && #[trigger] candidates.entries()[k] == x;
                        assert(k != i);
                    }
                } else {
                    assert(candidates.entries()[i as int] == x);
                }
            }
            assert(r@ =~= seen_targets(candidates.entries(), i + 1, target));
        }
        i = i + 1;
    }
    proof {
        assert forall|x: Seq<char>| r@.contains(x) <==> target.contains(x) by {
            assert(r@.contains(x) <==> seen_targets(candidates.entries(), candidates.entries().len() as int, target).contains(x));
            if target.contains(x) {
                assert(candidates@.contains(x));
                let k = choose|k: int| 0 <= k < candidates.entries().len() && candidates.entries()[k] == x;
                assert(candidates.entries()[k] == x);
            }
        }
        assert(r@ =~= target);
    }
    r
}

/// A function that directly (not through `background`) calls a suspending function
/// suspends too.
pub proof fn lemma_caller_of_suspending_suspends(
    items: Seq<Item>,
    imported: Set<Seq<char>>,
    suspending: Set<Seq<char>>,
    extra: Set<Seq<char>>,
    f: Seq<char>,
    g: Seq<char>,
)
    requires
        local_fn_names(items).contains(f),
        call_edges(items, imported, suspending)(f).contains(g),
        spec_suspends(items, imported, suspending, extra, g),
    ensures
        spec_suspends(items, imported, suspending, extra, f),
{
    lemma_reaches_prepend(
        local_fn_names(items),
        call_edges(items, imported, suspending),
        |x: Seq<char>| summary_of(items, imported, suspending, x).hit || extra.contains(x),
        f,
        g,
    );
}

/// A function that calls a suspension source directly suspends.
pub proof fn lemma_direct_source_suspends(
    items: Seq<Item>,
    imported: Set<Seq<char>>,
    suspending: Set<Seq<char>>,
    extra: Set<Seq<char>>,
    f: Seq<char>,
)
    requires
        local_fn_names(items).contains(f),
        summary_of(items, imported, suspending, f).hit,
    ensures
        spec_suspends(items, imported, suspending, extra, f),
{
    let p = seq![f];
    assert(crate::call_graph::is_walk(local_fn_names(items), call_edges(items, imported, suspending), p));
}

/// Extra seeds only add: every function that suspends without them suspends with them,
/// and every local function named as an extra seed suspends.
pub proof fn lemma_extra_seeds_extend(
    items: Seq<Item>,
    imported: Set<Seq<char>>,
    suspending: Set<Seq<char>>,
    extra: Set<Seq<char>>,
    n: Seq<char>,
)
    ensures
        spec_suspends(items, imported, suspending, Set::empty(), n) ==> spec_suspends(
            items,
            imported,
            suspending,
            extra,
            n,
        ),
        local_fn_names(items).contains(n) && extra.contains(n) ==> spec_suspends(items, imported, suspending, extra, n),
{
    let local = local_fn_names(items);
    let calls = call_edges(items, imported, suspending);
    let t1 = |x: Seq<char>| summary_of(items, imported, suspending, x).hit || Set::<Seq<char>>::empty().contains(x);
    let t2 = |x: Seq<char>| summary_of(items, imported, suspending, x).hit || extra.contains(x);
    if spec_suspends(items, imported, suspending, Set::empty(), n) {
        lemma_reaches_weaken(local, calls, t1, t2, n);
    }
    if local.contains(n) && extra.contains(n) {
        let p = seq![n];
        assert(crate::call_graph::is_walk(local, calls, p));
        assert(t2(p[p.len() - 1]));
    }
}

/// A function that directly calls a function doing real work does real work too.
pub proof fn lemma_caller_of_real_work_does_real_work(
    items: Seq<Item>,
    imported: Set<Seq<char>>,
    real_work: Set<Seq<char>>,
    f: Seq<char>,
    g: Seq<char>,
)
    requires
        local_fn_names(items).contains(f),
        call_edges(items, imported, Set::empty())(f).contains(g),
        spec_does_real_work(items, imported, real_work, g),
    ensures
        spec_does_real_work(items, imported, real_work, f),
{
    lemma_reaches_prepend(
        local_fn_names(items),
        call_edges(items, imported, Set::empty()),
        |x: Seq<char>| work_seed(items, imported, real_work, x),
        f,
        g,
    );
}

} // verus!
