//! Structural return-path analysis: does every path through a block end in `return`, and
//! which statements can never run?
use vstd::prelude::*;

use crate::diagnostics::{span_views, SourceSpan, SpanView};
use crate::syntax::{Block, Expr, MatchArm, Stmt};

verus! {

/// Result of a structural return-path analysis over a block.
pub struct ReturnAnalysis {
    /// True when every possible execution path through the block ends with a `return`.
    pub all_paths_return: bool,
    /// Spans of statements that are structurally unreachable (they follow a definite return).
    pub dead_code: Vec<SourceSpan>,
}

/// The span of an expression.
pub open spec fn expr_span(e: Expr) -> SpanView {
    match e {
        Expr::Ident(_, s) | Expr::IntLit(_, s) | Expr::NumberLit(_, s) | Expr::BoolLit(_, s)
        | Expr::StringLit(_, s) | Expr::InterpolatedString(_, s) | Expr::Background(_, s)
        | Expr::Wait(_, s) | Expr::Error(s) => s@,
        Expr::SelfValue { span } | Expr::NoneLit { span } => span@,
        Expr::BinOp { span, .. } | Expr::UnaryOp { span, .. } | Expr::MethodCall { span, .. }
        | Expr::FieldAccess { span, .. } | Expr::IndexAccess { span, .. } | Expr::StructLit { span, .. }
        | Expr::ArrayLit { span, .. } | Expr::MapLit { span, .. } | Expr::Is { span, .. }
        | Expr::PostfixOp { span, .. } => span@,
        Expr::Call(c) => c.span@,
    }
}

/// The span of a statement.
pub open spec fn stmt_span(s: Stmt) -> SpanView {
    match s {
        Stmt::Expr(e) => expr_span(e),
        Stmt::Let { span, .. } | Stmt::Assign { span, .. } | Stmt::FieldAssign { span, .. }
        | Stmt::IndexAssign { span, .. } | Stmt::If { span, .. } | Stmt::While { span, .. }
        | Stmt::For { span, .. } | Stmt::Match { span, .. } | Stmt::Return { span, .. } => span@,
    }
}

/// Every path through `s` ends in a `return`; the unreachable statement spans in `s`.
///
/// Rules: `return` is a definite return, and every statement after one is dead. A match
/// with an `else` arm whose value arms and `else` arm all return is a definite return.
/// `if`, `while` and `for` never are (their bodies may not run), but dead code inside
/// their bodies is still reported.
pub open spec fn spec_analyze_stmts(s: Seq<Stmt>) -> (bool, Seq<SpanView>)
    decreases s,
{
    if s.len() == 0 {
        (false, Seq::empty())
    } else {
        let prefix = spec_analyze_stmts(s.subrange(0, s.len() - 1));
        let last = s[s.len() - 1];
        if prefix.0 {
            (true, prefix.1.push(stmt_span(last)))
        } else {
            let here = spec_analyze_stmt(last);
            (here.0, prefix.1 + here.1)
        }
    }
}

/// Whether one statement is a definite return; the dead spans inside it.
pub open spec fn spec_analyze_stmt(s: Stmt) -> (bool, Seq<SpanView>)
    decreases s,
{
    match s {
        Stmt::Return { .. } => (true, Seq::empty()),
        Stmt::Match { arms, else_arm, .. } => {
            let arm_part = spec_analyze_arms(arms@);
            match else_arm {
                Some(b) => {
                    let e = spec_analyze_stmts(b.stmts@);
                    (arm_part.0 && e.0, arm_part.1 + e.1)
                },
                None => (false, arm_part.1),
            }
        },
        Stmt::If { body, .. } | Stmt::While { body, .. } | Stmt::For { body, .. } => (
            false,
            spec_analyze_stmts(body.stmts@).1,
        ),
        _ => (false, Seq::empty()),
    }
}

/// Whether every arm's body returns on all paths; the dead spans inside the arms, in order.
pub open spec fn spec_analyze_arms(arms: Seq<MatchArm>) -> (bool, Seq<SpanView>)
    decreases arms,
{
    if arms.len() == 0 {
        (true, Seq::empty())
    } else {
        let prefix = spec_analyze_arms(arms.subrange(0, arms.len() - 1));
        let here = spec_analyze_stmts(arms[arms.len() - 1].body.stmts@);
        (prefix.0 && here.0, prefix.1 + here.1)
    }
}

/// All arms return on all paths exactly when each arm does.
proof fn lemma_arms_all_return(arms: Seq<MatchArm>)
    ensures
        spec_analyze_arms(arms).0 <==> forall|i: int| 0 <= i < arms.len() ==> #[trigger] spec_analyze_stmts(arms[i].body.stmts@).0,
    decreases arms.len(),
{
    if arms.len() > 0 {
        let pre = arms.subrange(0, arms.len() - 1);
        lemma_arms_all_return(pre);
        if spec_analyze_arms(arms).0 {
            assert forall|i: int| 0 <= i < arms.len() implies #[trigger] spec_analyze_stmts(arms[i].body.stmts@).0 by {
                if i < arms.len() - 1 {
                    assert(pre[i] == arms[i]);
                }
            }
        }
        if forall|i: int| 0 <= i < arms.len() ==> #[trigger] spec_analyze_stmts(arms[i].body.stmts@).0 {
            assert forall|i: int| 0 <= i < pre.len() implies #[trigger] spec_analyze_stmts(pre[i].body.stmts@).0 by {
                assert(pre[i] == arms[i]);
                assert(spec_analyze_stmts(arms[i].body.stmts@).0);
            }
            assert(spec_analyze_arms(pre).0);
            assert(spec_analyze_stmts(arms[arms.len() - 1].body.stmts@).0);
            assert(spec_analyze_arms(arms).0);
        }
    }
}

/// A statement list returns on all paths exactly when one of its statements is a definite
/// return.
pub proof fn lemma_block_returns_iff_some_stmt(s: Seq<Stmt>)
    ensures
        spec_analyze_stmts(s).0 <==> exists|i: int| 0 <= i < s.len() && #[trigger] spec_analyze_stmt(s[i]).0,
    decreases s.len(),
{
    if s.len() > 0 {
        let pre = s.subrange(0, s.len() - 1);
        lemma_block_returns_iff_some_stmt(pre);
        if exists|i: int| 0 <= i < pre.len() && #[trigger] spec_analyze_stmt(pre[i]).0 {
            let i = choose|i: int| 0 <= i < pre.len() && #[trigger] spec_analyze_stmt(pre[i]).0;
            assert(pre[i] == s[i]);
            assert(spec_analyze_stmt(s[i]).0);
        }
        if exists|i: int| 0 <= i < s.len() && #[trigger] spec_analyze_stmt(s[i]).0 {
            let i = choose|i: int| 0 <= i < s.len() && #[trigger] spec_analyze_stmt(s[i]).0;
            if i < s.len() - 1 {
                assert(pre[i] == s[i]);
                assert(spec_analyze_stmt(pre[i]).0);
                assert(spec_analyze_stmts(pre).0);
            }
            assert(spec_analyze_stmts(s).0);
        }
        if spec_analyze_stmts(s).0 {
            if !spec_analyze_stmts(pre).0 {
                assert(spec_analyze_stmt(s[s.len() - 1]).0);
            }
        }
    }
}

/// When every path returns: a `return` always does; a `match` does exactly when it has an
/// `else` arm and the `else` arm and every value arm return on all paths; an `if`, a
/// `while` or a `for` never does (its body may not run), nor does any other statement.
pub proof fn lemma_definite_return(st: Stmt)
    ensures
        st is Return ==> spec_analyze_stmt(st).0,
        st matches Stmt::Match { arms, else_arm, .. } ==> (spec_analyze_stmt(st).0 <==> (else_arm matches Some(b)
            && spec_analyze_stmts(b.stmts@).0 && forall|i: int|
            0 <= i < arms@.len() ==> #[trigger] spec_analyze_stmts(arms@[i].body.stmts@).0)),
        !(st is Return) && !(st is Match) ==> !spec_analyze_stmt(st).0,
{
    match st {
        Stmt::Match { arms, else_arm, .. } => {
            lemma_arms_all_return(arms@);
        },
        _ => {},
    }
}

/// Analyze whether every path through `block` ends with a `return`.
pub fn analyze_return_paths(block: &Block) -> (r: ReturnAnalysis)
    ensures
        r.all_paths_return == spec_analyze_stmts(block.stmts@).0,
        span_views(r.dead_code@) == spec_analyze_stmts(block.stmts@).1,
{
    let (all_paths_return, dead_code) = analyze_stmts(&block.stmts);
    ReturnAnalysis { all_paths_return, dead_code }
}

pub(crate) fn expr_span_of(e: &Expr) -> (s: SourceSpan)
    ensures
        s@ == expr_span(*e),
{
    match e {
        Expr::Ident(_, s) | Expr::IntLit(_, s) | Expr::NumberLit(_, s) | Expr::BoolLit(_, s)
        | Expr::StringLit(_, s) | Expr::InterpolatedString(_, s) | Expr::Background(_, s)
        | Expr::Wait(_, s) | Expr::Error(s) => s.duplicate(),
        Expr::SelfValue { span } | Expr::NoneLit { span } => span.duplicate(),
        Expr::BinOp { span, .. } | Expr::UnaryOp { span, .. } | Expr::MethodCall { span, .. }
        | Expr::FieldAccess { span, .. } | Expr::IndexAccess { span, .. } | Expr::StructLit { span, .. }
        | Expr::ArrayLit { span, .. } | Expr::MapLit { span, .. } | Expr::Is { span, .. }
        | Expr::PostfixOp { span, .. } => span.duplicate(),
        Expr::Call(c) => c.span.duplicate(),
    }
}

fn stmt_span_of(s: &Stmt) -> (r: SourceSpan)
    ensures
        r@ == stmt_span(*s),
{
    match s {
        Stmt::Expr(e) => expr_span_of(e),
        Stmt::Let { span, .. } | Stmt::Assign { span, .. } | Stmt::FieldAssign { span, .. }
        | Stmt::IndexAssign { span, .. } | Stmt::If { span, .. } | Stmt::While { span, .. }
        | Stmt::For { span, .. } | Stmt::Match { span, .. } | Stmt::Return { span, .. } => span.duplicate(),
    }
}

fn append_spans(out: &mut Vec<SourceSpan>, more: Vec<SourceSpan>)
    ensures
        span_views(final(out)@) == span_views(old(out)@) + span_views(more@),
{
    let ghost start = span_views(out@);
    let n = more.len();
    let mut i: usize = 0;
    let ghost mv = span_views(more@);
    while i < n
        invariant
            i <= n,
            n == more@.len(),
            mv == span_views(more@),
            span_views(out@) == start + mv.subrange(0, i as int),
        decreases n - i,
    {
        let sp = more[i].duplicate();
        let ghost before = span_views(out@);
        out.push(sp);
        proof {
            assert(span_views(out@) =~= before.push(mv[i as int]));
            assert(mv.subrange(0, i + 1) =~= mv.subrange(0, i as int).push(mv[i as int]));
            assert(start + mv.subrange(0, i + 1) =~= (start + mv.subrange(0, i as int)).push(mv[i as int]));
        }
        i = i + 1;
    }
    proof {
        assert(mv.subrange(0, n as int) =~= mv);
    }
}

fn analyze_stmts(stmts: &Vec<Stmt>) -> (r: (bool, Vec<SourceSpan>))
    ensures
        r.0 == spec_analyze_stmts(stmts@).0,
        span_views(r.1@) == spec_analyze_stmts(stmts@).1,
    decreases stmts, 0nat,
{
    let mut dead: Vec<SourceSpan> = Vec::new();
    let mut definite_return = false;
    let mut i: usize = 0;
    proof {
        assert(stmts@.subrange(0, 0) =~= Seq::<Stmt>::empty());
        assert(span_views(dead@) =~= Seq::<SpanView>::empty());
    }
    while i < stmts.len()
        invariant
            i <= stmts.len(),
            definite_return == spec_analyze_stmts(stmts@.subrange(0, i as int)).0,
            span_views(dead@) == spec_analyze_stmts(stmts@.subrange(0, i as int)).1,
        decreases stmts.len() - i,
    {
        let stmt = &stmts[i];
        proof {
            let pre = stmts@.subrange(0, i + 1);
            assert(pre.subrange(0, i as int) =~= stmts@.subrange(0, i as int));
            assert(pre[i as int] == stmts@[i as int]);
        }
        if definite_return {
            let ghost before = span_views(dead@);
            dead.push(stmt_span_of(stmt));
            proof {
                assert(span_views(dead@) =~= before.push(stmt_span(stmts@[i as int])));
            }
        } else {
            let (here, inner) = analyze_stmt(stmt);
            append_spans(&mut dead, inner);
            definite_return = here;
        }
        i = i + 1;
    }
    proof {
        assert(stmts@.subrange(0, stmts.len() as int) =~= stmts@);
    }
    (definite_return, dead)
}

fn analyze_stmt(stmt: &Stmt) -> (r: (bool, Vec<SourceSpan>))
    ensures
        r.0 == spec_analyze_stmt(*stmt).0,
        span_views(r.1@) == spec_analyze_stmt(*stmt).1,
    decreases stmt, 0nat,
{
    match stmt {
        Stmt::Return { .. } => {
            let v: Vec<SourceSpan> = Vec::new();
            proof {
                assert(span_views(v@) =~= Seq::<SpanView>::empty());
            }
            (true, v)
        },
        Stmt::Match { arms, else_arm, .. } => {
            let (arms_return, mut dead) = analyze_arms(arms);
            match else_arm {
                Some(b) => {
                    let (else_returns, inner) = analyze_stmts(&b.stmts);
                    append_spans(&mut dead, inner);
                    (arms_return && else_returns, dead)
                },
                None => (false, dead),
            }
        },
        Stmt::If { body, .. } | Stmt::While { body, .. } | Stmt::For { body, .. } => {
            let (_, inner) = analyze_stmts(&body.stmts);
            (false, inner)
        },
        _ => {
            let v: Vec<SourceSpan> = Vec::new();
            proof {
                assert(span_views(v@) =~= Seq::<SpanView>::empty());
            }
            (false, v)
        },
    }
}

fn analyze_arms(arms: &Vec<MatchArm>) -> (r: (bool, Vec<SourceSpan>))
    ensures
        r.0 == spec_analyze_arms(arms@).0,
        span_views(r.1@) == spec_analyze_arms(arms@).1,
    decreases arms, 0nat,
{
    let mut all_return = true;
    let mut dead: Vec<SourceSpan> = Vec::new();
    let mut i: usize = 0;
    proof {
        assert(arms@.subrange(0, 0) =~= Seq::<MatchArm>::empty());
        assert(span_views(dead@) =~= Seq::<SpanView>::empty());
    }
    while i < arms.len()
        invariant
            i <= arms.len(),
            all_return == spec_analyze_arms(arms@.subrange(0, i as int)).0,
            span_views(dead@) == spec_analyze_arms(arms@.subrange(0, i as int)).1,
        decreases arms.len() - i,
    {
        proof {
            let pre = arms@.subrange(0, i + 1);
            assert(pre.subrange(0, i as int) =~= arms@.subrange(0, i as int));
            assert(pre[i as int] == arms@[i as int]);
        }
        let (ret, inner) = analyze_stmts(&arms[i].body.stmts);
        append_spans(&mut dead, inner);
        all_return = all_return && ret;
        i = i + 1;
    }
    proof {
        assert(arms@.subrange(0, arms.len() as int) =~= arms@);
    }
    (all_return, dead)
}

} // verus!
