use ynz_typeck::diagnostics::SourceSpan;
use ynz_typeck::return_paths::analyze_return_paths;
use ynz_typeck::syntax::{Block, Expr, MatchArm, MatchPattern, MatchPatternKind, Stmt};

fn span() -> SourceSpan {
    SourceSpan::new("test.ynz", 0, 1)
}

fn err_expr() -> Expr {
    Expr::Error(span())
}

fn empty_block() -> Block {
    Block { stmts: vec![], span: span() }
}

fn return_block() -> Block {
    Block {
        stmts: vec![Stmt::Return { value: None, span: span() }],
        span: span(),
    }
}

#[test]
fn empty_block_does_not_return() {
    let result = analyze_return_paths(&empty_block());
    assert!(!result.all_paths_return);
    assert!(result.dead_code.is_empty());
}

#[test]
fn single_return_stmt_returns_on_all_paths() {
    let block = Block {
        stmts: vec![Stmt::Return { value: None, span: span() }],
        span: span(),
    };
    let result = analyze_return_paths(&block);
    assert!(result.all_paths_return);
}

#[test]
fn dead_code_after_return_is_detected() {
    let block = Block {
        stmts: vec![
            Stmt::Return { value: None, span: span() },
            Stmt::Expr(err_expr()),
        ],
        span: span(),
    };
    let result = analyze_return_paths(&block);
    assert!(result.all_paths_return);
    assert_eq!(result.dead_code.len(), 1, "dead-code span expected for stmt after return");
}

#[test]
fn simple_if_body_return_does_not_cover_all_paths() {
    let block = Block {
        stmts: vec![Stmt::If {
            cond: err_expr(),
            body: return_block(),
            span: span(),
        }],
        span: span(),
    };
    let result = analyze_return_paths(&block);
    assert!(!result.all_paths_return, "simple if does NOT guarantee return");
}

#[test]
fn match_with_else_all_arms_return_covers_all_paths() {
    let arm = MatchArm {
        pattern: MatchPattern { kind: MatchPatternKind::Value(err_expr()), span: span() },
        body: return_block(),
        arrow_span: span(),
    };
    let block = Block {
        stmts: vec![Stmt::Match {
            scrutinee: err_expr(),
            arms: vec![arm],
            else_arm: Some(return_block()),
            span: span(),
        }],
        span: span(),
    };
    let result = analyze_return_paths(&block);
    assert!(result.all_paths_return, "match with else + all-returning arms covers all paths");
}

#[test]
fn match_without_else_does_not_cover_all_paths() {
    let arm = MatchArm {
        pattern: MatchPattern { kind: MatchPatternKind::Value(err_expr()), span: span() },
        body: return_block(),
        arrow_span: span(),
    };
    let block = Block {
        stmts: vec![Stmt::Match {
            scrutinee: err_expr(),
            arms: vec![arm],
            else_arm: None,
            span: span(),
        }],
        span: span(),
    };
    let result = analyze_return_paths(&block);
    assert!(!result.all_paths_return, "match without else has a fall-through path");
}

#[test]
fn while_loop_body_return_does_not_cover_all_paths() {
    let block = Block {
        stmts: vec![Stmt::While {
            cond: err_expr(),
            body: return_block(),
            span: span(),
        }],
        span: span(),
    };
    let result = analyze_return_paths(&block);
    assert!(!result.all_paths_return, "while loop does NOT guarantee return");
}

#[test]
fn for_loop_body_return_does_not_cover_all_paths() {
    let block = Block {
        stmts: vec![Stmt::For {
            var: "i".into(),
            var_span: span(),
            iter: err_expr(),
            body: return_block(),
            span: span(),
        }],
        span: span(),
    };
    let result = analyze_return_paths(&block);
    assert!(!result.all_paths_return, "for loop does NOT guarantee return");
}

#[test]
fn dead_code_inside_match_arm_is_reported() {
    let arm_with_dead = {
        let body = Block {
            stmts: vec![
                Stmt::Return { value: None, span: span() },
                Stmt::Expr(err_expr()),
            ],
            span: span(),
        };
        MatchArm {
            pattern: MatchPattern { kind: MatchPatternKind::Value(err_expr()), span: span() },
            body,
            arrow_span: span(),
        }
    };
    let block = Block {
        stmts: vec![Stmt::Match {
            scrutinee: err_expr(),
            arms: vec![arm_with_dead],
            else_arm: Some(return_block()),
            span: span(),
        }],
        span: span(),
    };
    let result = analyze_return_paths(&block);
    assert!(result.all_paths_return);
    assert_eq!(result.dead_code.len(), 1, "dead code inside arm body must be reported");
}

#[test]
fn every_statement_after_a_return_is_dead_with_its_own_span() {
    let block = Block {
        stmts: vec![
            Stmt::Expr(Expr::Error(SourceSpan::new("t.ynz", 0, 1))),
            Stmt::Return { value: None, span: SourceSpan::new("t.ynz", 2, 3) },
            Stmt::Expr(Expr::Error(SourceSpan::new("t.ynz", 4, 5))),
            Stmt::Return { value: None, span: SourceSpan::new("t.ynz", 6, 7) },
        ],
        span: span(),
    };
    let result = analyze_return_paths(&block);
    assert!(result.all_paths_return);
    assert_eq!(
        result.dead_code,
        vec![SourceSpan::new("t.ynz", 4, 5), SourceSpan::new("t.ynz", 6, 7)]
    );
}
