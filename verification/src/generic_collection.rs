//! Collecting a module's generic functions and generic shapes, whose types may name the
//! declaration's own type parameters.
use vstd::prelude::*;

use crate::diagnostics::{diag_views, error_view, Diagnostic, DiagnosticView, SourceSpan, SpanView};
use crate::generics::{GenericFnSig, GenericFnTable, GenericShapeDef, GenericShapeTable};
use crate::shape_collection::push_diag;
use crate::shape_passes::{row_index, row_position, row_views};
use crate::shapes::{field_views, spec_resolve_ast_type, FieldDef, FieldView, ShapeTable};
use crate::signature_collection::sig_ast_type_to_type;
use crate::syntax::{AstType, FieldDecl, FunctionDecl, GenericParam, Item, Module, OwnershipModifier, Param, ShapeDecl};
use crate::text::{lit, str_eq, string_views};
use crate::types::{view_types, Type, TypeView};

verus! {

/// The list holds the name `n`.
pub open spec fn names_contain(tps: Seq<Seq<char>>, n: Seq<char>) -> bool {
    exists|i: int| 0 <= i < tps.len() && #[trigger] tps[i] == n
}

fn contains_name(v: &Vec<String>, n: &str) -> (b: bool)
    ensures
        b == names_contain(string_views(v@), n@),
{
    let mut i: usize = 0;
    while i < v.len()
        invariant
            i <= v@.len(),
            forall|j: int| 0 <= j < i ==> v@[j]@ != n@,
        decreases v@.len() - i,
    {
        if str_eq(v[i].as_str(), n) {
            proof {
                assert(string_views(v@)[i as int] == n@);
            }
            return true;
        }
        i = i + 1;
    }
    proof {
        if names_contain(string_views(v@), n@) {
            let k = choose|k: int| 0 <= k < string_views(v@).len() && #[trigger] string_views(v@)[k] == n@;
            assert(v@[k]@ != n@);
        }
    }
    false
}

/// A type in a generic function's signature: a name among the type parameters is that
/// parameter; a generic application keeps its name with each argument resolved the same
/// way; anything else resolves against the shape table.
pub open spec fn resolve_with_params(a: AstType, tps: Seq<Seq<char>>, t: ShapeTable) -> TypeView
    decreases a,
{
    match a {
        AstType::Named(n, _) => if names_contain(tps, n@) {
            TypeView::TypeParam { name: n@ }
        } else {
            spec_resolve_ast_type(t, a)
        },
        AstType::Generic { name, args, .. } => TypeView::Generic { name: name@, args: resolve_all_with_params(args@, tps, t) },
        _ => spec_resolve_ast_type(t, a),
    }
}

pub open spec fn resolve_all_with_params(s: Seq<AstType>, tps: Seq<Seq<char>>, t: ShapeTable) -> Seq<TypeView>
    decreases s,
{
    if s.len() == 0 {
        Seq::empty()
    } else {
        resolve_all_with_params(s.subrange(0, s.len() - 1), tps, t).push(resolve_with_params(s[s.len() - 1], tps, t))
    }
}

/// Resolve a type in a generic function's signature (see [`resolve_with_params`]).
pub fn resolve_sig_type_with_params(ast_ty: &AstType, type_params: &Vec<String>, shape_table: &ShapeTable) -> (r: Type)
    ensures
        r@ == resolve_with_params(*ast_ty, string_views(type_params@), *shape_table),
    decreases ast_ty,
{
    match ast_ty {
        AstType::Named(n, _) => {
            if contains_name(type_params, n.as_str()) {
                Type::TypeParam { name: n.clone() }
            } else {
                shape_table.resolve_ast_type(ast_ty)
            }
        },
        AstType::Generic { name, args, .. } => {
            Type::Generic { name: name.clone(), args: resolve_all_sig_types(args, type_params, shape_table) }
        },
        _ => shape_table.resolve_ast_type(ast_ty),
    }
}

fn resolve_all_sig_types(args: &Vec<AstType>, type_params: &Vec<String>, shape_table: &ShapeTable) -> (out: Vec<Type>)
    ensures
        view_types(out@) == resolve_all_with_params(args@, string_views(type_params@), *shape_table),
    decreases args,
{
    let mut out: Vec<Type> = Vec::new();
    let mut i: usize = 0;
    proof {
        assert(args@.subrange(0, 0) =~= Seq::<AstType>::empty());
        assert(view_types(out@) =~= Seq::<TypeView>::empty());
    }
    while i < args.len()
        invariant
            i <= args@.len(),
            out@.len() == i,
            view_types(out@) == resolve_all_with_params(args@.subrange(0, i as int), string_views(type_params@), *shape_table),
        decreases args@.len() - i,
    {
        proof {
            let pre = args@.subrange(0, i + 1);
            assert(pre.subrange(0, i as int) =~= args@.subrange(0, i as int));
            assert(pre[i as int] == args@[i as int]);
        }
        let t = resolve_sig_type_with_params(&args[i], type_params, shape_table);
        let ghost before = out@;
        out.push(t);
        proof {
            crate::types::lemma_view_types(before);
            crate::types::lemma_view_types(out@);
            assert(out@[i as int] == t);
            assert(view_types(out@) =~= view_types(before).push(t@));
        }
        i = i + 1;
    }
    proof {
        assert(args@.subrange(0, args@.len() as int) =~= args@);
    }
    out
}

/// The model of a [`GenericFnSig`].
pub struct GenericFnSigView {
    pub type_params: Seq<Seq<char>>,
    pub constraints: Seq<(Seq<char>, Seq<Seq<char>>)>,
    pub params: Seq<(Seq<char>, TypeView)>,
    pub param_ownerships: Seq<Option<OwnershipModifier>>,
    pub ret: TypeView,
    pub decl_span: SpanView,
}

impl View for GenericFnSig {
    type V = GenericFnSigView;

    open spec fn view(&self) -> GenericFnSigView {
        GenericFnSigView {
            type_params: string_views(self.type_params@),
            constraints: self.constraints@.map_values(|c: (String, Vec<String>)| (c.0@, string_views(c.1@))),
            params: self.params@.map_values(|p: (String, Type)| (p.0@, p.1@)),
            param_ownerships: self.param_ownerships@,
            ret: self.ret@,
            decl_span: self.decl_span@,
        }
    }
}

/// The type parameters that carry contracts, each with its contract names, in order.
pub open spec fn constraint_rows(gs: Seq<GenericParam>) -> Seq<(Seq<char>, Seq<Seq<char>>)>
    decreases gs.len(),
{
    if gs.len() == 0 {
        Seq::empty()
    } else {
        let r = constraint_rows(gs.drop_last());
        let g = gs.last();
        if g.constraints@.len() > 0 {
            r.push((g.name@, g.constraints@.map_values(|c: (String, SourceSpan)| c.0@)))
        } else {
            r
        }
    }
}

/// The type parameter names of a generic function.
pub open spec fn type_param_names(gs: Seq<GenericParam>) -> Seq<Seq<char>> {
    gs.map_values(|g: GenericParam| g.name@)
}

/// The signature a generic function declaration gets.
pub open spec fn generic_sig_view(f: FunctionDecl, t: ShapeTable) -> GenericFnSigView {
    let tps = type_param_names(f.generics@);
    GenericFnSigView {
        type_params: tps,
        constraints: constraint_rows(f.generics@),
        params: f.params@.map_values(|p: Param| (p.name@, resolve_with_params(p.ty, tps, t))),
        param_ownerships: f.params@.map_values(|p: Param| p.ownership),
        ret: resolve_with_params(f.return_type, tps, t),
        decl_span: f.span@,
    }
}

pub open spec fn duplicate_generic_fn_diag(f: FunctionDecl) -> DiagnosticView {
    error_view(
        f.span@,
        "A generic function named `"@ + f.name@ + "` is already defined."@,
        "Rename one of the two functions."@,
        "Yinz does not allow two functions with the same name in the same file."@,
    )
}

/// The generic signature rows and diagnostics after the first items.
pub open spec fn generic_sig_fold(items: Seq<Item>, t: ShapeTable) -> (Seq<(Seq<char>, GenericFnSigView)>, Seq<DiagnosticView>)
    decreases items.len(),
{
    if items.len() == 0 {
        (Seq::empty(), Seq::empty())
    } else {
        let (rows, ds) = generic_sig_fold(items.drop_last(), t);
        match items.last() {
            Item::Function(f) => if f.generics@.len() == 0 {
                (rows, ds)
            } else if row_index(rows, f.name@) >= 0 {
                (rows, ds.push(duplicate_generic_fn_diag(f)))
            } else {
                (rows.push((f.name@, generic_sig_view(f, t))), ds)
            },
            _ => (rows, ds),
        }
    }
}

fn generic_sig_of(f: &FunctionDecl, shape_table: &ShapeTable) -> (r: GenericFnSig)
    ensures
        r@ == generic_sig_view(*f, *shape_table),
{
    let ghost t = *shape_table;
    let gs = &f.generics;
    let mut tps: Vec<String> = Vec::new();
    let mut cons: Vec<(String, Vec<String>)> = Vec::new();
    let mut i: usize = 0;
    proof {
        assert(gs@.take(0) =~= Seq::<GenericParam>::empty());
        assert(cons@.map_values(|c: (String, Vec<String>)| (c.0@, string_views(c.1@))) =~= constraint_rows(gs@.take(0)));
    }
    while i < gs.len()
        invariant
            i <= gs@.len(),
            tps@.len() == i,
            forall|j: int| 0 <= j < i ==> (#[trigger] tps@[j])@ == gs@[j].name@,
            cons@.map_values(|c: (String, Vec<String>)| (c.0@, string_views(c.1@))) == constraint_rows(gs@.take(i as int)),
        decreases gs@.len() - i,
    {
        proof {
            assert(gs@.take(i + 1).drop_last() =~= gs@.take(i as int));
            assert(gs@.take(i + 1).last() == gs@[i as int]);
        }
        let g = &gs[i];
        tps.push(g.name.clone());
        if g.constraints.len() > 0 {
            let mut names: Vec<String> = Vec::new();
            let mut k: usize = 0;
            while k < g.constraints.len()
                invariant
                    k <= g.constraints@.len(),
                    names@.len() == k,
                    forall|j: int| 0 <= j < k ==> (#[trigger] names@[j])@ == g.constraints@[j].0@,
                decreases g.constraints@.len() - k,
            {
                names.push(g.constraints[k].0.clone());
                k = k + 1;
            }
            let ghost before = cons@.map_values(|c: (String, Vec<String>)| (c.0@, string_views(c.1@)));
            let ghost nv = string_views(names@);
            proof {
                assert(nv =~= g.constraints@.map_values(|c: (String, SourceSpan)| c.0@));
            }
            cons.push((g.name.clone(), names));
            proof {
                assert(cons@.map_values(|c: (String, Vec<String>)| (c.0@, string_views(c.1@))) =~= before.push((g.name@, nv)));
            }
        }
        i = i + 1;
    }
    proof {
        assert(gs@.take(gs@.len() as int) =~= gs@);
        assert(string_views(tps@) =~= type_param_names(gs@));
    }
    let mut params: Vec<(String, Type)> = Vec::new();
    let mut owns: Vec<Option<OwnershipModifier>> = Vec::new();
    let mut j: usize = 0;
    while j < f.params.len()
        invariant
            j <= f.params@.len(),
            string_views(tps@) == type_param_names(gs@),
            gs == &f.generics,
            params@.len() == j,
            owns@.len() == j,
            forall|q: int|
                0 <= q < j ==> (#[trigger] params@[q]).0@ == f.params@[q].name@ && params@[q].1@ == resolve_with_params(
                    f.params@[q].ty,
                    type_param_names(f.generics@),
                    *shape_table,
                ),
            forall|q: int| 0 <= q < j ==> #[trigger] owns@[q] == f.params@[q].ownership,
        decreases f.params@.len() - j,
    {
        params.push((f.params[j].name.clone(), resolve_sig_type_with_params(&f.params[j].ty, &tps, shape_table)));
        owns.push(f.params[j].ownership);
        j = j + 1;
    }
    let ret = resolve_sig_type_with_params(&f.return_type, &tps, shape_table);
    let r = GenericFnSig { type_params: tps, constraints: cons, params, param_ownerships: owns, ret, decl_span: f.span.duplicate() };
    proof {
        assert(r@.params =~= generic_sig_view(*f, t).params);
        assert(r@.param_ownerships =~= generic_sig_view(*f, t).param_ownerships);
    }
    r
}

/// Collect every generic function declaration into the generic function table; a second
/// generic function with a name already taken is reported and skipped.
pub fn collect_generic_signatures(module: &Module, diags: &mut Vec<Diagnostic>, shape_table: &ShapeTable) -> (table: GenericFnTable)
    ensures
        ({
            let (rows, ds) = generic_sig_fold(module.items@, *shape_table);
            &&& row_views(table.fns@) == rows
            &&& diag_views(final(diags)@) == diag_views(old(diags)@) + ds
        }),
{
    let ghost items = module.items@;
    let ghost t = *shape_table;
    let ghost d0 = diag_views(diags@);
    let mut fns: Vec<(String, GenericFnSig)> = Vec::new();
    let mut i: usize = 0;
    proof {
        assert(items.take(0) =~= Seq::<Item>::empty());
        assert(row_views(fns@) =~= Seq::<(Seq<char>, GenericFnSigView)>::empty());
        assert(diag_views(diags@) =~= d0 + generic_sig_fold(items.take(0), t).1);
    }
    while i < module.items.len()
        invariant
            i <= items.len(),
            items == module.items@,
            t == *shape_table,
            row_views(fns@) == generic_sig_fold(items.take(i as int), t).0,
            diag_views(diags@) == d0 + generic_sig_fold(items.take(i as int), t).1,
        decreases items.len() - i,
    {
        proof {
            assert(items.take(i + 1).drop_last() =~= items.take(i as int));
            assert(items.take(i + 1).last() == items[i as int]);
        }
        match &module.items[i] {
            Item::Function(f) => {
                if f.generics.len() > 0 {
                    let ghost before = diag_views(diags@);
                    match row_position(&fns, f.name.as_str()) {
                        Some(_) => {
                            let mut w = lit("A generic function named `");
                            w.append(f.name.as_str());
                            w.append("` is already defined.");
                            push_diag(
                                diags,
                                &f.span,
                                w,
                                lit("Rename one of the two functions."),
                                lit("Yinz does not allow two functions with the same name in the same file."),
                            );
                            proof {
                                reveal_strlit("A generic function named `");
                                assert(diag_views(diags@) =~= before.push(duplicate_generic_fn_diag(*f)));
                            }
                        },
                        None => {
                            let sig = generic_sig_of(f, shape_table);
                            let ghost rv = row_views(fns@);
                            let ghost sv = sig@;
                            fns.push((f.name.clone(), sig));
                            proof {
                                assert(row_views(fns@) =~= rv.push((f.name@, sv)));
                            }
                        },
                    }
                }
            },
            _ => {},
        }
        i = i + 1;
    }
    proof {
        assert(items.take(items.len() as int) =~= items);
    }
    GenericFnTable { fns }
}

/// A field type inside a generic shape body: the primitives, `string`, the shape's own
/// type parameters and generic applications of them; every other type is an error.
pub open spec fn resolve_in_generic_shape(a: AstType, tps: Seq<Seq<char>>) -> TypeView
    decreases a,
{
    match a {
        AstType::Nothing => TypeView::Nothing,
        AstType::Int => TypeView::Int,
        AstType::Float => TypeView::Float,
        AstType::Number { .. } => TypeView::Number { precision: 34 },
        AstType::Bool => TypeView::Bool,
        AstType::Named(n, _) => if n@ == "string"@ {
            TypeView::String
        } else if names_contain(tps, n@) {
            TypeView::TypeParam { name: n@ }
        } else {
            TypeView::Error
        },
        AstType::Generic { name, args, .. } => TypeView::Generic { name: name@, args: resolve_all_in_generic_shape(args@, tps) },
        _ => TypeView::Error,
    }
}

pub open spec fn resolve_all_in_generic_shape(s: Seq<AstType>, tps: Seq<Seq<char>>) -> Seq<TypeView>
    decreases s,
{
    if s.len() == 0 {
        Seq::empty()
    } else {
        resolve_all_in_generic_shape(s.subrange(0, s.len() - 1), tps).push(resolve_in_generic_shape(s[s.len() - 1], tps))
    }
}

/// Resolve a field type inside a generic shape body (see [`resolve_in_generic_shape`]).
pub fn resolve_field_type_in_generic_shape(ast_ty: &AstType, type_params: &Vec<String>) -> (r: Type)
    ensures
        r@ == resolve_in_generic_shape(*ast_ty, string_views(type_params@)),
    decreases ast_ty,
{
    match ast_ty {
        AstType::Nothing => Type::Nothing,
        AstType::Int => Type::Int,
        AstType::Float => Type::Float,
        AstType::Number { .. } => Type::Number { precision: 34 },
        AstType::Bool => Type::Bool,
        AstType::Named(n, _) => {
            if str_eq(n.as_str(), "string") {
                proof {
                    reveal_strlit("string");
                }
                Type::String
            } else if contains_name(type_params, n.as_str()) {
                proof {
                    reveal_strlit("string");
                }
                Type::TypeParam { name: n.clone() }
            } else {
                proof {
                    reveal_strlit("string");
                }
                Type::Error
            }
        },
        AstType::Generic { name, args, .. } => Type::Generic {
            name: name.clone(),
            args: resolve_all_field_types_in_generic_shape(args, type_params),
        },
        _ => Type::Error,
    }
}

fn resolve_all_field_types_in_generic_shape(args: &Vec<AstType>, type_params: &Vec<String>) -> (out: Vec<Type>)
    ensures
        view_types(out@) == resolve_all_in_generic_shape(args@, string_views(type_params@)),
    decreases args,
{
    let mut out: Vec<Type> = Vec::new();
    let mut i: usize = 0;
    proof {
        assert(args@.subrange(0, 0) =~= Seq::<AstType>::empty());
        assert(view_types(out@) =~= Seq::<TypeView>::empty());
    }
    while i < args.len()
        invariant
            i <= args@.len(),
            out@.len() == i,
            view_types(out@) == resolve_all_in_generic_shape(args@.subrange(0, i as int), string_views(type_params@)),
        decreases args@.len() - i,
    {
        proof {
            let pre = args@.subrange(0, i + 1);
            assert(pre.subrange(0, i as int) =~= args@.subrange(0, i as int));
            assert(pre[i as int] == args@[i as int]);
        }
        let t = resolve_field_type_in_generic_shape(&args[i], type_params);
        let ghost before = out@;
        out.push(t);
        proof {
            crate::types::lemma_view_types(before);
            crate::types::lemma_view_types(out@);
            assert(out@[i as int] == t);
            assert(view_types(out@) =~= view_types(before).push(t@));
        }
        i = i + 1;
    }
    proof {
        assert(args@.subrange(0, args@.len() as int) =~= args@);
    }
    out
}

/// The model of a [`GenericShapeDef`].
pub struct GenericShapeView {
    pub name: Seq<char>,
    pub type_params: Seq<Seq<char>>,
    pub fields: Seq<FieldView>,
    pub follows: Seq<Seq<char>>,
    pub defined_at: SpanView,
}

impl View for GenericShapeDef {
    type V = GenericShapeView;

    open spec fn view(&self) -> GenericShapeView {
        GenericShapeView {
            name: self.name@,
            type_params: string_views(self.type_params@),
            fields: field_views(self.fields@),
            follows: string_views(self.follows@),
            defined_at: self.defined_at@,
        }
    }
}

/// The definition a generic shape declaration gets: its fields resolved against its own
/// type parameters.
pub open spec fn generic_shape_view(s: ShapeDecl) -> GenericShapeView {
    let tps = string_views(s.generics@);
    GenericShapeView {
        name: s.name@,
        type_params: tps,
        fields: s.fields@.map_values(
            |f: FieldDecl|
                FieldView {
                    name: f.name@,
                    ty: resolve_in_generic_shape(f.ty, tps),
                    is_hidden: f.is_hidden,
                    is_inherited: false,
                    defined_at: f.name_span@,
                },
        ),
        follows: s.follows@.map_values(|f: (String, SourceSpan)| f.0@),
        defined_at: s.name_span@,
    }
}

pub open spec fn duplicate_generic_shape_diag(s: ShapeDecl) -> DiagnosticView {
    error_view(
        s.name_span@,
        "A generic shape named `"@ + s.name@ + "` is already defined in this file."@,
        "Rename one of the two shapes."@,
        "Yinz does not allow two shapes with the same name in the same file."@,
    )
}

/// The generic shape rows and diagnostics after the first items.
pub open spec fn generic_shape_fold(items: Seq<Item>) -> (Seq<(Seq<char>, GenericShapeView)>, Seq<DiagnosticView>)
    decreases items.len(),
{
    if items.len() == 0 {
        (Seq::empty(), Seq::empty())
    } else {
        let (rows, ds) = generic_shape_fold(items.drop_last());
        match items.last() {
            Item::ShapeDecl(s) => if s.generics@.len() == 0 {
                (rows, ds)
            } else if row_index(rows, s.name@) >= 0 {
                (rows, ds.push(duplicate_generic_shape_diag(s)))
            } else {
                (rows.push((s.name@, generic_shape_view(s))), ds)
            },
            _ => (rows, ds),
        }
    }
}

fn generic_shape_of(s: &ShapeDecl) -> (r: GenericShapeDef)
    ensures
        r@ == generic_shape_view(*s),
{
    let tps = crate::shapes::copy_strings(&s.generics);
    let mut fields: Vec<FieldDef> = Vec::new();
    let mut i: usize = 0;
    while i < s.fields.len()
        invariant
            i <= s.fields@.len(),
            string_views(tps@) == string_views(s.generics@),
            fields@.len() == i,
            forall|j: int|
                0 <= j < i ==> (#[trigger] fields@[j])@ == (FieldView {
                    name: s.fields@[j].name@,
                    ty: resolve_in_generic_shape(s.fields@[j].ty, string_views(s.generics@)),
                    is_hidden: s.fields@[j].is_hidden,
                    is_inherited: false,
                    defined_at: s.fields@[j].name_span@,
                }),
        decreases s.fields@.len() - i,
    {
        let fd = &s.fields[i];
        fields.push(
            FieldDef {
                name: fd.name.clone(),
                ty: resolve_field_type_in_generic_shape(&fd.ty, &tps),
                is_hidden: fd.is_hidden,
                is_inherited: false,
                defined_at: fd.name_span.duplicate(),
            },
        );
        i = i + 1;
    }
    let mut follows: Vec<String> = Vec::new();
    let mut k: usize = 0;
    while k < s.follows.len()
        invariant
            k <= s.follows@.len(),
            follows@.len() == k,
            forall|j: int| 0 <= j < k ==> (#[trigger] follows@[j])@ == s.follows@[j].0@,
        decreases s.follows@.len() - k,
    {
        follows.push(s.follows[k].0.clone());
        k = k + 1;
    }
    let r = GenericShapeDef { name: s.name.clone(), type_params: tps, fields, follows, defined_at: s.name_span.duplicate() };
    proof {
        assert(r@.fields =~= generic_shape_view(*s).fields);
        assert(r@.follows =~= generic_shape_view(*s).follows);
    }
    r
}

/// Collect every generic shape declaration into the generic shape table; a second
/// generic shape with a name already taken is reported and skipped.
pub fn collect_generic_shapes(module: &Module, diags: &mut Vec<Diagnostic>) -> (table: GenericShapeTable)
    ensures
        ({
            let (rows, ds) = generic_shape_fold(module.items@);
            &&& row_views(table.shapes@) == rows
            &&& diag_views(final(diags)@) == diag_views(old(diags)@) + ds
        }),
{
    let ghost items = module.items@;
    let ghost d0 = diag_views(diags@);
    let mut shapes: Vec<(String, GenericShapeDef)> = Vec::new();
    let mut i: usize = 0;
    proof {
        assert(items.take(0) =~= Seq::<Item>::empty());
        assert(row_views(shapes@) =~= Seq::<(Seq<char>, GenericShapeView)>::empty());
        assert(diag_views(diags@) =~= d0 + generic_shape_fold(items.take(0)).1);
    }
    while i < module.items.len()
        invariant
            i <= items.len(),
            items == module.items@,
            row_views(shapes@) == generic_shape_fold(items.take(i as int)).0,
            diag_views(diags@) == d0 + generic_shape_fold(items.take(i as int)).1,
        decreases items.len() - i,
    {
        proof {
            assert(items.take(i + 1).drop_last() =~= items.take(i as int));
            assert(items.take(i + 1).last() == items[i as int]);
        }
        match &module.items[i] {
            Item::ShapeDecl(s) => {
                if s.generics.len() > 0 {
                    let ghost before = diag_views(diags@);
                    match row_position(&shapes, s.name.as_str()) {
                        Some(_) => {
                            let mut w = lit("A generic shape named `");
                            w.append(s.name.as_str());
                            w.append("` is already defined in this file.");
                            push_diag(
                                diags,
                                &s.name_span,
                                w,
                                lit("Rename one of the two shapes."),
                                lit("Yinz does not allow two shapes with the same name in the same file."),
                            );
                            proof {
                                reveal_strlit("A generic shape named `");
                                assert(diag_views(diags@) =~= before.push(duplicate_generic_shape_diag(*s)));
                            }
                        },
                        None => {
                            let d = generic_shape_of(s);
                            let ghost rv = row_views(shapes@);
                            let ghost dv = d@;
                            shapes.push((s.name.clone(), d));
                            proof {
                                assert(row_views(shapes@) =~= rv.push((s.name@, dv)));
                            }
                        },
                    }
                }
            },
            _ => {},
        }
        i = i + 1;
    }
    proof {
        assert(items.take(items.len() as int) =~= items);
    }
    GenericShapeTable { shapes }
}

} // verus!
