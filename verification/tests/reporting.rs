use ynz_typeck::aliasing::AliasingCallViolation;
use ynz_typeck::check_report::{
    aliasing_violation_diagnostics, assemble_check_report, imported_declared_writes, merge_imported_sigs, mutual_cycle_diagnostics,
    unused_import_warnings,
};
use ynz_typeck::diagnostics::{Diagnostic, Severity, SourceSpan};
use ynz_typeck::effective_ownership::AliasArgKind;
use ynz_typeck::intrinsics::{registry_is_well_formed, RegistryEntry};
use ynz_typeck::may_block::MutualSuspensionCycle;
use ynz_typeck::names::NameSet;
use ynz_typeck::scope::{ConsumedBy, Origin, Scope, ScopeEntry};
use ynz_typeck::signatures::{FunctionSig, SignatureTable};
use ynz_typeck::syntax::{
    AstType, Block, FunctionDecl, ImportDecl, ImportItem, ImportKind, Item, Module, OwnershipModifier,
};
use ynz_typeck::types::Type;

fn at(start: usize) -> SourceSpan {
    SourceSpan { file: "main.ynz".to_string(), start, end: start + 1 }
}

fn sig(span: usize, ownerships: Vec<Option<OwnershipModifier>>, suspends: bool) -> FunctionSig {
    FunctionSig {
        params: ownerships.iter().enumerate().map(|(i, _)| (format!("p{i}"), Type::Int)).collect(),
        param_ownerships: ownerships,
        ret: Type::Nothing,
        decl_span: at(span),
        contains_wait: false,
        suspends,
        does_real_work: false,
        original_name: None,
    }
}

fn func(name: &str, span: usize) -> Item {
    Item::Function(FunctionDecl {
        name: name.to_string(),
        name_span: at(span + 1),
        generics: Vec::new(),
        params: Vec::new(),
        return_type: AstType::Nothing,
        body: Block { stmts: Vec::new(), span: at(span) },
        is_exported: false,
        errors_capable: false,
        span: at(span),
    })
}

#[test]
fn merge_keeps_local_and_adds_imported() {
    let local = SignatureTable { fns: vec![("f".to_string(), sig(1, vec![], false))] };
    let imported = vec![("f".to_string(), sig(2, vec![], true)), ("g".to_string(), sig(3, vec![], false))];
    let mut sus = NameSet::new();
    sus.insert("g".to_string());
    let rw = NameSet::new();
    let merged = merge_imported_sigs(&local, &imported, &sus, &rw);
    assert_eq!(merged.fns.len(), 2);
    assert_eq!(merged.fns[0].0, "f");
    assert_eq!(merged.fns[0].1.decl_span.start, 1);
    assert!(!merged.fns[0].1.suspends);
    assert_eq!(merged.fns[1].0, "g");
    assert!(merged.fns[1].1.suspends);
}

#[test]
fn imported_writes_list_lend_and_give_positions() {
    let declared = vec![("f".to_string(), vec![0usize])];
    let imported = vec![
        ("f".to_string(), sig(2, vec![Some(OwnershipModifier::Lend)], false)),
        (
            "g".to_string(),
            sig(3, vec![None, Some(OwnershipModifier::Give), Some(OwnershipModifier::Share), Some(OwnershipModifier::Lend)], false),
        ),
    ];
    let r = imported_declared_writes(&declared, &imported);
    assert_eq!(r.len(), 2);
    assert_eq!(r[0], ("f".to_string(), vec![0usize]));
    assert_eq!(r[1], ("g".to_string(), vec![1usize, 3]));
}

#[test]
fn cycle_members_each_get_a_diagnostic() {
    let m = Module { items: vec![func("ping", 10), func("pong", 20)], span: at(0) };
    let cycles = vec![MutualSuspensionCycle { members: vec!["ping".to_string(), "pong".to_string()] }];
    let d = mutual_cycle_diagnostics(&m, &cycles);
    assert_eq!(d.len(), 2);
    assert_eq!(d[0].span.start, 11);
    assert_eq!(d[0].what, "`ping` is part of a mutually-recursive suspending cycle with `ping`, `pong`.");
    assert_eq!(d[1].span.start, 21);
}

#[test]
fn aliasing_diagnostic_wording() {
    let same = AliasingCallViolation {
        first_path: "h".to_string(),
        second_path: "h".to_string(),
        callee_name: "relay".to_string(),
        first_kind: AliasArgKind::DeclaredShare,
        second_kind: AliasArgKind::DeclaredLend,
        span: at(5),
    };
    let part = AliasingCallViolation {
        first_path: "player".to_string(),
        second_path: "player.pet".to_string(),
        callee_name: "feed".to_string(),
        first_kind: AliasArgKind::InferredRead,
        second_kind: AliasArgKind::InferredWrite,
        span: at(6),
    };
    let d = aliasing_violation_diagnostics(&vec![same, part]);
    assert_eq!(
        d[0].what,
        "`h` is passed to `relay` twice in the same call \u{2014} once as `share` (a read-only view) and once as `lend` (the function modifies it)."
    );
    assert_eq!(
        d[1].what,
        "`player.pet` is part of `player`, and both are passed to `feed` in the same call \u{2014} one as a read-only parameter, the other as a parameter the function modifies."
    );
    assert_eq!(
        d[1].what_instead,
        "Give one of the two arguments its own copy \u{2014} call `.copy()` on it \u{2014} or restructure so `player` reaches `feed` only once."
    );
}

#[test]
fn unused_named_imports_warn() {
    let item = |n: &str| ImportItem {
        exported_name: n.to_string(),
        exported_name_span: at(1),
        local_name: n.to_string(),
        local_name_span: at(2),
    };
    let imports = vec![
        ImportDecl { source: "lib".to_string(), source_span: at(0), kind: ImportKind::Named(vec![item("a"), item("b")]) },
        ImportDecl {
            source: "ns".to_string(),
            source_span: at(0),
            kind: ImportKind::Namespace { local_name: "n".to_string(), local_name_span: at(3) },
        },
    ];
    let mut referenced = NameSet::new();
    referenced.insert("a".to_string());
    let w = unused_import_warnings(&imports, &referenced);
    assert_eq!(w.len(), 1);
    assert_eq!(w[0].severity, Severity::Warning);
    assert_eq!(w[0].what, "`b` is imported but never used.");
}

fn entry(class: u64) -> ScopeEntry {
    ScopeEntry {
        ty: Type::Int,
        is_const: false,
        is_param: false,
        param_ownership: None,
        is_loop_var: false,
        consumed: None,
        origin: Origin::Owned,
        alias_class: class,
        defined_at: at(0),
    }
}

#[test]
fn scope_members_and_consumed_classes() {
    let mut s = Scope::new();
    s.insert("b".to_string(), entry(1));
    s.insert("a".to_string(), entry(1));
    s.insert("c".to_string(), entry(2));
    s.push();
    s.insert("a".to_string(), entry(3));
    assert_eq!(s.visible_members_of(1), vec!["b".to_string()]);
    assert_eq!(s.visible_members_of(3), vec!["a".to_string()]);
    assert_eq!(s.all_names(), vec!["b".to_string(), "a".to_string(), "c".to_string(), "a".to_string()]);
    assert!(s.consumed_classes().is_empty());
    s.consume("c", ConsumedBy::Given { callee: "eat".to_string(), given: "c".to_string() });
    assert_eq!(s.consumed_classes(), vec![2u64]);
    s.lookup_mut("a").unwrap().alias_class = 9;
    assert_eq!(s.class_of("a"), Some(9));
    s.pop();
    assert_eq!(s.class_of("a"), Some(1));
    assert!(s.lookup_mut("zzz").is_none());
}

#[test]
fn registry_well_formedness_is_checked() {
    let good = RegistryEntry {
        name: "abs".to_string(),
        kind: "free_fn".to_string(),
        since: "M1".to_string(),
        receiver_type: None,
        param_types: vec!["int".to_string()],
        return_type: "int".to_string(),
    };
    let bad_m6 = RegistryEntry {
        name: "weird".to_string(),
        kind: "free_fn".to_string(),
        since: "M6".to_string(),
        receiver_type: None,
        param_types: vec!["no_such_type".to_string()],
        return_type: "int".to_string(),
    };
    let regs = vec![good, bad_m6];
    assert!(registry_is_well_formed(&regs, false));
    assert!(!registry_is_well_formed(&regs, true));
}

fn diag(what: &str) -> Diagnostic {
    Diagnostic::error(at(0), what.to_string(), String::new(), String::new())
}

#[test]
fn check_report_orders_stages() {
    let mut sus = NameSet::new();
    sus.insert("f".to_string());
    let r = assemble_check_report(
        vec![diag("parse")],
        vec![],
        vec![diag("cycle")],
        vec![diag("body1"), diag("body2")],
        vec![diag("unused")],
        vec![diag("share")],
        vec![diag("alias")],
        sus,
        NameSet::new(),
    );
    let whats: Vec<&str> = r.diagnostics.iter().map(|d| d.what.as_str()).collect();
    assert_eq!(whats, vec!["parse", "cycle", "body1", "body2", "unused", "share", "alias"]);
    assert!(r.suspends_set.contains("f"));
    assert!(r.does_real_work_set.is_empty());
}
