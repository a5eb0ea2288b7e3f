use ynz_typeck::diagnostics::{Diagnostic, SourceSpan};
use ynz_typeck::generic_collection::{collect_generic_shapes, collect_generic_signatures};
use ynz_typeck::options_table::OptionsEntry;
use ynz_typeck::shape_passes::collect_shapes;
use ynz_typeck::shapes::{ShapeDef, ShapeTable};
use ynz_typeck::signature_collection::collect_signatures;
use ynz_typeck::syntax::{
    AstType, Block, FieldDecl, FunctionDecl, GenericParam, Item, Module, Param, ShapeDecl, Stmt,
};
use ynz_typeck::types::{render_type, Type};

fn sp() -> SourceSpan {
    SourceSpan { file: "test.ynz".to_string(), start: 0, end: 0 }
}

fn at(start: usize) -> SourceSpan {
    SourceSpan { file: "test.ynz".to_string(), start, end: start + 1 }
}

fn named(n: &str) -> AstType {
    AstType::Named(n.to_string(), sp())
}

fn fd(name: &str, ty: AstType) -> FieldDecl {
    FieldDecl { name: name.to_string(), name_span: sp(), ty, is_hidden: false, default: None }
}

fn shape_decl(name: &str, extends: Option<&str>, fields: Vec<FieldDecl>) -> ShapeDecl {
    ShapeDecl {
        name: name.to_string(),
        name_span: sp(),
        is_base: false,
        generics: Vec::new(),
        extends: extends.map(|p| (p.to_string(), sp())),
        follows: Vec::new(),
        fields,
        contract_sigs: Vec::new(),
        alias_ty: None,
        is_exported: false,
        span: sp(),
    }
}

fn shape(name: &str, extends: Option<&str>, fields: Vec<FieldDecl>) -> Item {
    Item::ShapeDecl(shape_decl(name, extends, fields))
}

fn func_at(name: &str, params: Vec<Param>, ret: AstType, span: SourceSpan) -> FunctionDecl {
    FunctionDecl {
        name: name.to_string(),
        name_span: span.clone(),
        generics: Vec::new(),
        params,
        return_type: ret,
        body: Block { stmts: Vec::<Stmt>::new(), span: sp() },
        is_exported: false,
        errors_capable: false,
        span,
    }
}

fn param(name: &str, ty: AstType) -> Param {
    Param { name: name.to_string(), ty, ownership: None }
}

fn module(items: Vec<Item>) -> Module {
    Module { items, span: at(99) }
}

fn shapes_of(m: &Module) -> (ShapeTable, Vec<Diagnostic>) {
    let imported: Vec<(String, ShapeDef)> = Vec::new();
    let opts: Vec<(String, OptionsEntry)> = Vec::new();
    let mut diags = Vec::new();
    let t = collect_shapes(m, &imported, &opts, &mut diags);
    (t, diags)
}

fn field_summary(t: &ShapeTable, shape: &str) -> Vec<(String, String, bool)> {
    t.get(shape)
        .expect("shape present")
        .fields
        .iter()
        .map(|f| (f.name.clone(), render_type(&f.ty), f.is_inherited))
        .collect()
}

#[test]
fn shape_fields_resolve_in_order() {
    let m = module(vec![shape("Point", None, vec![fd("x", AstType::Int), fd("label", named("string"))])]);
    let (t, diags) = shapes_of(&m);
    assert!(diags.is_empty());
    assert_eq!(
        field_summary(&t, "Point"),
        vec![("x".to_string(), "int".to_string(), false), ("label".to_string(), "string".to_string(), false)]
    );
}

#[test]
fn inherited_fields_come_before_own_fields() {
    let m = module(vec![
        shape("Child", Some("Base"), vec![fd("name", named("string"))]),
        shape("Base", None, vec![fd("id", AstType::Int), fd("name", AstType::Int)]),
    ]);
    let (t, diags) = shapes_of(&m);
    assert!(diags.is_empty());
    assert_eq!(
        field_summary(&t, "Child"),
        vec![("id".to_string(), "int".to_string(), true), ("name".to_string(), "string".to_string(), false)]
    );
}

#[test]
fn two_level_inheritance_flattens_through_the_middle() {
    let m = module(vec![
        shape("C", Some("B"), vec![fd("c", AstType::Int)]),
        shape("B", Some("A"), vec![fd("b", AstType::Int)]),
        shape("A", None, vec![fd("a", AstType::Int)]),
    ]);
    let (t, _) = shapes_of(&m);
    let names: Vec<String> = field_summary(&t, "C").into_iter().map(|f| f.0).collect();
    assert_eq!(names, vec!["a", "b", "c"]);
}

#[test]
fn forward_reference_to_later_shape_resolves() {
    let m = module(vec![shape("Owner", None, vec![fd("pet", named("Pet"))]), shape("Pet", None, vec![])]);
    let (t, diags) = shapes_of(&m);
    assert!(diags.is_empty());
    let pet = &t.get("Owner").unwrap().fields[0].ty;
    assert!(matches!(pet, Type::Shape { name } if name == "Pet"));
}

#[test]
fn unknown_parent_is_reported() {
    let m = module(vec![shape("Child", Some("Missing"), vec![])]);
    let (_, diags) = shapes_of(&m);
    assert_eq!(diags.len(), 1);
    assert_eq!(diags[0].what, "`Missing` is not defined \u{2014} cannot extend it.");
}

#[test]
fn duplicate_shape_name_is_reported() {
    let m = module(vec![shape("Dup", None, vec![]), shape("Dup", None, vec![])]);
    let (_, diags) = shapes_of(&m);
    assert!(diags.iter().any(|d| d.what == "A shape named `Dup` is already defined in this file."));
}

#[test]
fn cyclic_extends_chain_is_reported_for_each_member() {
    let m = module(vec![shape("A", Some("B"), vec![]), shape("B", Some("A"), vec![])]);
    let (_, diags) = shapes_of(&m);
    let cyc: Vec<&String> = diags.iter().map(|d| &d.what).filter(|w| w.contains("cyclic `extends` chain")).collect();
    assert_eq!(cyc.len(), 2);
    assert_eq!(cyc[0], "`A` has a cyclic `extends` chain: A \u{2192} B \u{2192} A");
    assert_eq!(cyc[1], "`B` has a cyclic `extends` chain: B \u{2192} A \u{2192} B");
}

#[test]
fn self_containing_shape_is_a_field_cycle() {
    let m = module(vec![shape("Node", None, vec![fd("next", named("Node"))])]);
    let (_, diags) = shapes_of(&m);
    assert_eq!(diags.len(), 1);
    assert_eq!(diags[0].what, "`Node` contains a direct field cycle.");
}

#[test]
fn mutually_containing_shapes_are_both_field_cycles() {
    let m = module(vec![
        shape("Left", None, vec![fd("right", named("Right"))]),
        shape("Right", None, vec![fd("left", named("Left"))]),
    ]);
    let (_, diags) = shapes_of(&m);
    let whats: Vec<&str> = diags.iter().map(|d| d.what.as_str()).collect();
    assert_eq!(whats, vec!["`Left` contains a direct field cycle.", "`Right` contains a direct field cycle."]);
}

#[test]
fn union_alias_is_collected() {
    let mut alias = shape_decl("Either", None, vec![]);
    alias.alias_ty = Some(AstType::Union { variants: vec![named("Circle"), named("Square")] });
    let m = module(vec![shape("Circle", None, vec![]), shape("Square", None, vec![]), Item::ShapeDecl(alias)]);
    let (t, diags) = shapes_of(&m);
    assert!(diags.is_empty());
    assert_eq!(t.union_aliases.len(), 1);
    assert_eq!(t.union_aliases[0].0, "Either");
    assert_eq!(render_type(&t.union_aliases[0].1), "Circle | Square");
    assert!(t.get("Either").is_none());
}

#[test]
fn inline_anonymous_shape_becomes_synthetic_shape() {
    let anon = AstType::AnonShape { fields: vec![fd("bid", named("number")), fd("ask", named("number"))], span: sp() };
    let m = module(vec![shape("Quote", None, vec![fd("price", anon)])]);
    let (t, _) = shapes_of(&m);
    let synthetic = "__anon__ask_number__bid_number";
    assert!(t.get(synthetic).is_some());
    let price = &t.get("Quote").unwrap().fields[0].ty;
    assert!(matches!(price, Type::Shape { name } if name == synthetic));
}

#[test]
fn imported_shape_is_visible_and_kept() {
    let base = ShapeDef {
        name: "Remote".to_string(),
        is_base: false,
        extends: None,
        follows: Vec::new(),
        fields: Vec::new(),
        contract_sigs: Vec::new(),
        defined_at: sp(),
    };
    let imported = vec![("Remote".to_string(), base)];
    let opts: Vec<(String, OptionsEntry)> = Vec::new();
    let m = module(vec![shape("Local", None, vec![fd("n", AstType::Int)])]);
    let mut diags = Vec::new();
    let t = collect_shapes(&m, &imported, &opts, &mut diags);
    assert!(diags.is_empty());
    assert!(t.get("Remote").is_some());
    assert!(t.get("Local").is_some());
    assert_eq!(t.shapes[0].0, "Remote");
    assert_eq!(t.shapes[1].0, "Local");
}

#[test]
fn generic_shape_fields_keep_type_parameters() {
    let mut pair = shape_decl("Pair", None, vec![fd("first", named("A")), fd("second", named("string")), fd("n", AstType::Int)]);
    pair.generics = vec!["A".to_string()];
    let m = module(vec![Item::ShapeDecl(pair)]);
    let mut diags = Vec::new();
    let t = collect_generic_shapes(&m, &mut diags);
    assert!(diags.is_empty());
    let def = t.get("Pair").expect("generic shape");
    assert!(matches!(&def.fields[0].ty, Type::TypeParam { name } if name == "A"));
    assert!(matches!(def.fields[1].ty, Type::String));
    assert!(matches!(def.fields[2].ty, Type::Int));
}

#[test]
fn duplicate_generic_shape_is_reported() {
    let mut a = shape_decl("Box", None, vec![]);
    a.generics = vec!["T".to_string()];
    let mut b = shape_decl("Box", None, vec![]);
    b.generics = vec!["T".to_string()];
    let m = module(vec![Item::ShapeDecl(a), Item::ShapeDecl(b)]);
    let mut diags = Vec::new();
    let t = collect_generic_shapes(&m, &mut diags);
    assert_eq!(t.shapes.len(), 1);
    assert_eq!(diags.len(), 1);
    assert_eq!(diags[0].what, "A generic shape named `Box` is already defined in this file.");
}

#[test]
fn missing_main_is_reported_at_module_span() {
    let m = module(vec![Item::Function(func_at("helper", vec![], AstType::Nothing, sp()))]);
    let mut diags = Vec::new();
    let t = collect_signatures(&m, &mut diags, &ShapeTable::empty());
    assert_eq!(t.fns.len(), 1);
    assert_eq!(diags.len(), 1);
    assert_eq!(diags[0].what, "This file has no `main` function.");
    assert_eq!(diags[0].span, at(99));
}

#[test]
fn duplicate_function_points_at_first_definition() {
    let m = module(vec![
        Item::Function(func_at("main", vec![], AstType::Nothing, at(1))),
        Item::Function(func_at("main", vec![], AstType::Nothing, at(5))),
    ]);
    let mut diags = Vec::new();
    let t = collect_signatures(&m, &mut diags, &ShapeTable::empty());
    assert_eq!(t.fns.len(), 1);
    assert_eq!(diags.len(), 1);
    assert_eq!(diags[0].what, "A function named `main` is already defined in this file.");
    assert_eq!(diags[0].span, at(5));
    assert_eq!(diags[0].related, vec![(at(1), "first definition here".to_string())]);
}

#[test]
fn main_with_params_and_return_value_is_reported() {
    let m = module(vec![Item::Function(func_at("main", vec![param("x", AstType::Int)], AstType::Int, sp()))]);
    let mut diags = Vec::new();
    let t = collect_signatures(&m, &mut diags, &ShapeTable::empty());
    let whats: Vec<&str> = diags.iter().map(|d| d.what.as_str()).collect();
    assert_eq!(whats, vec!["`main` must have no parameters.", "`main` must return `nothing`, but this declares it returns `int`."]);
    let sig = t.get("main").unwrap();
    assert_eq!(sig.params.len(), 1);
    assert!(matches!(sig.ret, Type::Int));
}

#[test]
fn generic_function_signatures_use_type_params() {
    let mut f = func_at("identity", vec![param("x", named("T"))], named("T"), sp());
    f.generics = vec![GenericParam { name: "T".to_string(), constraints: vec![("Show".to_string(), sp())] }];
    let m = module(vec![Item::Function(f), Item::Function(func_at("main", vec![], AstType::Nothing, sp()))]);
    let mut diags = Vec::new();
    let g = collect_generic_signatures(&m, &mut diags, &ShapeTable::empty());
    assert!(diags.is_empty());
    assert_eq!(g.fns.len(), 1);
    let sig = &g.fns[0].1;
    assert_eq!(sig.type_params, vec!["T".to_string()]);
    assert_eq!(sig.constraints, vec![("T".to_string(), vec!["Show".to_string()])]);
    assert!(matches!(&sig.params[0].1, Type::TypeParam { name } if name == "T"));
    assert!(matches!(&sig.ret, Type::TypeParam { name } if name == "T"));
    let mut sdiags = Vec::new();
    let s = collect_signatures(&m, &mut sdiags, &ShapeTable::empty());
    assert_eq!(s.fns.len(), 1);
    assert!(sdiags.is_empty());
}
