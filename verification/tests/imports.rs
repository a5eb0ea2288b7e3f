use ynz_typeck::diagnostics::{Diagnostic, SourceSpan};
use ynz_typeck::exports::ExportTable;
use ynz_typeck::options_table::OptionsEntry;
use ynz_typeck::resolve_import::{
    apply_import_lookup, bind_named_import, import_path_is_anchored, module_path_has_traversal_segments,
    ImportLookup, ImportState,
};
use ynz_typeck::shapes::ShapeDef;
use ynz_typeck::syntax::{ImportDecl, ImportItem, ImportKind};

fn sp() -> SourceSpan {
    SourceSpan { file: "main.ynz".to_string(), start: 0, end: 0 }
}

fn shape(name: &str) -> ShapeDef {
    ShapeDef {
        name: name.to_string(),
        is_base: false,
        extends: None,
        follows: vec![],
        fields: vec![],
        contract_sigs: vec![],
        defined_at: sp(),
    }
}

fn table() -> ExportTable {
    let mut t = ExportTable::empty();
    t.shapes.push(("User".to_string(), shape("User")));
    t.options.push((
        "Color".to_string(),
        OptionsEntry { variants: vec!["red".to_string(), "blue".to_string()], decl_span: sp() },
    ));
    t
}

fn item(exported: &str, local: &str) -> ImportItem {
    ImportItem { exported_name: exported.to_string(), exported_name_span: sp(), local_name: local.to_string(), local_name_span: sp() }
}

fn decl(source: &str, kind: ImportKind) -> ImportDecl {
    ImportDecl { source: source.to_string(), source_span: sp(), kind }
}

#[test]
fn traversal_segments_are_exact() {
    assert!(module_path_has_traversal_segments("../x"));
    assert!(module_path_has_traversal_segments("a/./b"));
    assert!(module_path_has_traversal_segments("foo/../../etc/passwd"));
    assert!(!module_path_has_traversal_segments("dir.v2/mod"));
    assert!(!module_path_has_traversal_segments("dir..weird/mod"));
    assert!(!module_path_has_traversal_segments("services/users"));
}

#[test]
fn traversal_import_is_reported() {
    let mut diags: Vec<Diagnostic> = Vec::new();
    let d = decl("../secret", ImportKind::Named(vec![]));
    assert!(!import_path_is_anchored(&d, &mut diags));
    assert_eq!(diags.len(), 1);
    assert_eq!(diags[0].what, "Import path \"../secret\" contains `..` or `.` segments.");
    let ok = decl("services/users", ImportKind::Named(vec![]));
    assert!(import_path_is_anchored(&ok, &mut diags));
    assert_eq!(diags.len(), 1);
}

#[test]
fn named_import_binds_local_name() {
    let mut st = ImportState::new();
    let mut diags: Vec<Diagnostic> = Vec::new();
    let t = table();
    bind_named_import(&item("User", "Person"), &t, "models", &mut st, &mut diags);
    assert!(diags.is_empty());
    assert_eq!(st.result.shapes.len(), 1);
    assert_eq!(st.result.shapes[0].0, "Person");
    assert_eq!(st.result.shapes[0].1.name, "User");
    assert!(st.bound.contains("Person"));
}

#[test]
fn missing_export_lists_sorted_names() {
    let mut st = ImportState::new();
    let mut diags: Vec<Diagnostic> = Vec::new();
    let t = table();
    bind_named_import(&item("Missing", "Missing"), &t, "models", &mut st, &mut diags);
    assert_eq!(diags.len(), 1);
    assert_eq!(diags[0].what, "`Missing` is not exported from \"models\".");
    assert_eq!(
        diags[0].what_instead,
        "Check the name and add `export` before the declaration in models.ynz. Exported names: Color, User."
    );
    assert!(st.result.shapes.is_empty());
}

#[test]
fn duplicate_local_name_is_reported() {
    let mut st = ImportState::new();
    let mut diags: Vec<Diagnostic> = Vec::new();
    let t = table();
    bind_named_import(&item("User", "X"), &t, "models", &mut st, &mut diags);
    bind_named_import(&item("Color", "X"), &t, "models", &mut st, &mut diags);
    assert_eq!(diags.len(), 1);
    assert_eq!(diags[0].what, "Import name `X` is already bound by a previous import.");
    assert!(st.result.options.is_empty());
}

#[test]
fn namespace_import_prefixes_names() {
    let mut st = ImportState::new();
    let mut diags: Vec<Diagnostic> = Vec::new();
    let d = decl("models", ImportKind::Namespace { local_name: "m".to_string(), local_name_span: sp() });
    apply_import_lookup(&d, &ImportLookup::Loaded(table()), &mut st, &mut diags);
    assert!(diags.is_empty());
    assert_eq!(st.result.shapes[0].0, "m.User");
    assert_eq!(st.result.options[0].0, "m.Color");
    apply_import_lookup(&d, &ImportLookup::Loaded(table()), &mut st, &mut diags);
    assert_eq!(diags.len(), 1);
    assert_eq!(st.result.shapes.len(), 1);
}

#[test]
fn lookup_failures_are_reported() {
    let mut st = ImportState::new();
    let mut diags: Vec<Diagnostic> = Vec::new();
    let d = decl("lib/util", ImportKind::Named(vec![item("f", "f")]));
    apply_import_lookup(&d, &ImportLookup::NotFound { has_project_root: false }, &mut st, &mut diags);
    assert_eq!(diags[0].what, "Module \"lib/util\" not found \u{2014} no `yinz.toml` in any parent directory.");
    apply_import_lookup(&d, &ImportLookup::NotFound { has_project_root: true }, &mut st, &mut diags);
    assert_eq!(diags[1].what, "Module \"lib/util\" not found.");
    apply_import_lookup(&d, &ImportLookup::SelfImport, &mut st, &mut diags);
    assert_eq!(diags[2].what, "A file cannot import from itself.");
    apply_import_lookup(&d, &ImportLookup::Circular, &mut st, &mut diags);
    assert_eq!(diags[3].what, "Circular import detected: \"lib/util\" is already being imported in this chain.");
    assert_eq!(diags.len(), 4);
    apply_import_lookup(&d, &ImportLookup::ParseErrors, &mut st, &mut diags);
    assert_eq!(diags.len(), 6);
    assert_eq!(diags[4].what, "Module \"lib/util\" has parse errors \u{2014} fix those first.");
    assert_eq!(
        diags[5].what_instead,
        "Check the name and add `export` before the declaration in lib/util.ynz. nothing is exported from this module."
    );
}
