//! Collecting the signatures of a module's functions: the non-generic ones into the
//! signature table (with the checks on `main`), the generic ones into the generic table.
use vstd::prelude::*;

use crate::diagnostics::{diag_views, error_view, Diagnostic, DiagnosticView, SourceSpan, SpanView};
use crate::generics::{GenericFnSig, GenericFnTable};
use crate::shape_collection::push_diag;
use crate::shape_passes::{row_index, row_position, row_views};
use crate::shapes::{spec_resolve_ast_type, ShapeTable};
use crate::signatures::{FunctionSig, SignatureTable};
use crate::syntax::{AstType, FunctionDecl, GenericParam, Item, Module, OwnershipModifier, Param};
use crate::text::{lit, str_eq, string_views};
use crate::types::{spec_render_type, render_type, view_types, Type, TypeView};

verus! {

/// The model of a [`FunctionSig`].
pub struct FunctionSigView {
    pub params: Seq<(Seq<char>, TypeView)>,
    pub param_ownerships: Seq<Option<OwnershipModifier>>,
    pub ret: TypeView,
    pub decl_span: SpanView,
    pub contains_wait: bool,
    pub suspends: bool,
    pub does_real_work: bool,
    pub original_name: Option<Seq<char>>,
}

impl View for FunctionSig {
    type V = FunctionSigView;

    open spec fn view(&self) -> FunctionSigView {
        FunctionSigView {
            params: self.params@.map_values(|p: (String, Type)| (p.0@, p.1@)),
            param_ownerships: self.param_ownerships@,
            ret: self.ret@,
            decl_span: self.decl_span@,
            contains_wait: self.contains_wait,
            suspends: self.suspends,
            does_real_work: self.does_real_work,
            original_name: match self.original_name {
                Some(n) => Some(n@),
                None => None,
            },
        }
    }
}

impl FunctionSig {
    /// An identical copy.
    pub fn duplicate(&self) -> (r: FunctionSig)
        ensures
            r@ == self@,
    {
        let mut params: Vec<(String, Type)> = Vec::new();
        let mut i: usize = 0;
        while i < self.params.len()
            invariant
                i <= self.params@.len(),
                params@.len() == i,
                forall|j: int| 0 <= j < i ==> (#[trigger] params@[j]).0@ == self.params@[j].0@ && params@[j].1@ == self.params@[j].1@,
            decreases self.params@.len() - i,
        {
            params.push((self.params[i].0.clone(), self.params[i].1.duplicate()));
            i = i + 1;
        }
        let mut owns: Vec<Option<OwnershipModifier>> = Vec::new();
        let mut k: usize = 0;
        while k < self.param_ownerships.len()
            invariant
                k <= self.param_ownerships@.len(),
                owns@ == self.param_ownerships@.take(k as int),
            decreases self.param_ownerships@.len() - k,
        {
            owns.push(self.param_ownerships[k]);
            proof {
                assert(self.param_ownerships@.take(k + 1) =~= self.param_ownerships@.take(k as int).push(self.param_ownerships@[k as int]));
            }
            k = k + 1;
        }
        proof {
            assert(self.param_ownerships@.take(self.param_ownerships@.len() as int) =~= self.param_ownerships@);
        }
        let r = FunctionSig {
            params,
            param_ownerships: owns,
            ret: self.ret.duplicate(),
            decl_span: self.decl_span.duplicate(),
            contains_wait: self.contains_wait,
            suspends: self.suspends,
            does_real_work: self.does_real_work,
            original_name: match &self.original_name {
                Some(n) => Some(n.clone()),
                None => None,
            },
        };
        proof {
            assert(r@.params =~= self@.params);
        }
        r
    }
}

/// A type as written in a signature, resolved against the shape table.
pub fn sig_ast_type_to_type(ast_ty: &AstType, shape_table: &ShapeTable) -> (r: Type)
    ensures
        r@ == spec_resolve_ast_type(*shape_table, *ast_ty),
{
    shape_table.resolve_ast_type(ast_ty)
}

/// The signature a non-generic declaration gets: its parameters and return type resolved,
/// its declared modifiers, and nothing yet known of waiting, suspending or real work.
pub open spec fn decl_sig_view(f: FunctionDecl, t: ShapeTable) -> FunctionSigView {
    FunctionSigView {
        params: f.params@.map_values(|p: Param| (p.name@, spec_resolve_ast_type(t, p.ty))),
        param_ownerships: f.params@.map_values(|p: Param| p.ownership),
        ret: spec_resolve_ast_type(t, f.return_type),
        decl_span: f.span@,
        contains_wait: false,
        suspends: false,
        does_real_work: false,
        original_name: None,
    }
}

/// The diagnostic for a second function with a name already taken.
pub open spec fn duplicate_fn_diag(f: FunctionDecl, first: SpanView) -> DiagnosticView {
    DiagnosticView {
        related: seq![(first, "first definition here"@)],
        ..error_view(
            f.span@,
            "A function named `"@ + f.name@ + "` is already defined in this file."@,
            "Rename one of the two functions \u{2014} each function in a file must have a unique name."@,
            "Yinz does not allow two functions with the same name in the same file."@,
        )
    }
}

pub open spec fn main_params_diag(f: FunctionDecl) -> DiagnosticView {
    error_view(
        f.span@,
        "`main` must have no parameters."@,
        "Change the declaration to `function main() -> nothing { ... }`"@,
        "`main` is the entry point. The program starts here with no arguments \u{2014} use `process.args` to read command-line inputs (arriving in v0.8)."@,
    )
}

pub open spec fn main_ret_diag(f: FunctionDecl, ret: TypeView) -> DiagnosticView {
    error_view(
        f.span@,
        "`main` must return `nothing`, but this declares it returns `"@ + spec_render_type(ret) + "`."@,
        "Change the return type to `nothing`: `function main() -> nothing`"@,
        "`main` is the program entry point. It runs and exits \u{2014} it does not return a value to a caller."@,
    )
}

/// The checks on a function named `main`: no parameters, and a `nothing` return (an
/// unresolvable return type is not reported again).
pub open spec fn main_diags(f: FunctionDecl, ret: TypeView) -> Seq<DiagnosticView> {
    if f.name@ == "main"@ {
        (if f.params@.len() > 0 {
            seq![main_params_diag(f)]
        } else {
            Seq::empty()
        }) + (if !(ret is Nothing || ret is Error) {
            seq![main_ret_diag(f, ret)]
        } else {
            Seq::empty()
        })
    } else {
        Seq::empty()
    }
}

pub open spec fn no_main_diag(span: SpanView) -> DiagnosticView {
    error_view(
        span,
        "This file has no `main` function."@,
        "Add a main function:\n  function main() -> nothing {\n    ...\n  }"@,
        "Every Yinz program needs a `main` function \u{2014} that is where execution starts."@,
    )
}

/// The signature rows and diagnostics after the first items: each non-generic function
/// whose name is free gets a row (and `main` its checks); a taken name is reported
/// against the first definition.
pub open spec fn sig_fold(items: Seq<Item>, t: ShapeTable) -> (Seq<(Seq<char>, FunctionSigView)>, Seq<DiagnosticView>)
    decreases items.len(),
{
    if items.len() == 0 {
        (Seq::empty(), Seq::empty())
    } else {
        let (rows, ds) = sig_fold(items.drop_last(), t);
        match items.last() {
            Item::Function(f) => if f.generics@.len() > 0 {
                (rows, ds)
            } else {
                let k = row_index(rows, f.name@);
                if k >= 0 {
                    (rows, ds.push(duplicate_fn_diag(f, rows[k].1.decl_span)))
                } else {
                    let sv = decl_sig_view(f, t);
                    (rows.push((f.name@, sv)), ds + main_diags(f, sv.ret))
                }
            },
            _ => (rows, ds),
        }
    }
}

fn resolve_params(ps: &Vec<Param>, shape_table: &ShapeTable) -> (r: (Vec<(String, Type)>, Vec<Option<OwnershipModifier>>))
    ensures
        r.0@.map_values(|p: (String, Type)| (p.0@, p.1@)) == ps@.map_values(
            |p: Param| (p.name@, spec_resolve_ast_type(*shape_table, p.ty)),
        ),
        r.1@ == ps@.map_values(|p: Param| p.ownership),
{
    let mut params: Vec<(String, Type)> = Vec::new();
    let mut owns: Vec<Option<OwnershipModifier>> = Vec::new();
    let mut i: usize = 0;
    while i < ps.len()
        invariant
            i <= ps@.len(),
            params@.len() == i,
            owns@.len() == i,
            forall|j: int|
                0 <= j < i ==> (#[trigger] params@[j]).0@ == ps@[j].name@ && params@[j].1@ == spec_resolve_ast_type(
                    *shape_table,
                    ps@[j].ty,
                ),
            forall|j: int| 0 <= j < i ==> #[trigger] owns@[j] == ps@[j].ownership,
        decreases ps@.len() - i,
    {
        params.push((ps[i].name.clone(), sig_ast_type_to_type(&ps[i].ty, shape_table)));
        owns.push(ps[i].ownership);
        i = i + 1;
    }
    proof {
        assert(params@.map_values(|p: (String, Type)| (p.0@, p.1@)) =~= ps@.map_values(
            |p: Param| (p.name@, spec_resolve_ast_type(*shape_table, p.ty)),
        ));
        assert(owns@ =~= ps@.map_values(|p: Param| p.ownership));
    }
    (params, owns)
}

fn check_main(f: &FunctionDecl, ret: &Type, diags: &mut Vec<Diagnostic>)
    ensures
        diag_views(final(diags)@) == diag_views(old(diags)@) + main_diags(*f, ret@),
{
    let ghost d0 = diag_views(diags@);
    if str_eq(f.name.as_str(), "main") {
        if f.params.len() > 0 {
            push_diag(
                diags,
                &f.span,
                lit("`main` must have no parameters."),
                lit("Change the declaration to `function main() -> nothing { ... }`"),
                lit(
                    "`main` is the entry point. The program starts here with no arguments \u{2014} use `process.args` to read command-line inputs (arriving in v0.8).",
                ),
            );
        }
        let ghost d1 = diag_views(diags@);
        if !matches!(ret, Type::Nothing | Type::Error) {
            let mut what = lit("`main` must return `nothing`, but this declares it returns `");
            let rn = render_type(ret);
            what.append(rn.as_str());
            what.append("`.");
            push_diag(
                diags,
                &f.span,
                what,
                lit("Change the return type to `nothing`: `function main() -> nothing`"),
                lit(
                    "`main` is the program entry point. It runs and exits \u{2014} it does not return a value to a caller.",
                ),
            );
        }
        proof {
            assert(diag_views(diags@) =~= d0 + main_diags(*f, ret@));
        }
    } else {
        proof {
            assert(diag_views(diags@) =~= d0 + main_diags(*f, ret@));
        }
    }
}

/// Collect the signature of every non-generic function of the module and check `main`.
///
/// Reports a function whose name is already taken (pointing at the first definition), a
/// `main` with parameters or a return type other than `nothing`, and a module without
/// `main`.
pub fn collect_signatures(module: &Module, diags: &mut Vec<Diagnostic>, shape_table: &ShapeTable) -> (table: SignatureTable)
    ensures
        ({
            let (rows, ds) = sig_fold(module.items@, *shape_table);
            &&& row_views(table.fns@) == rows
            &&& diag_views(final(diags)@) == diag_views(old(diags)@) + ds + if row_index(rows, "main"@) < 0 {
                seq![no_main_diag(module.span@)]
            } else {
                Seq::empty()
            }
        }),
{
    let ghost items = module.items@;
    let ghost t = *shape_table;
    let ghost d0 = diag_views(diags@);
    let mut fns: Vec<(String, FunctionSig)> = Vec::new();
    let mut i: usize = 0;
    proof {
        assert(items.take(0) =~= Seq::<Item>::empty());
        assert(row_views(fns@) =~= Seq::<(Seq<char>, FunctionSigView)>::empty());
        assert(diag_views(diags@) =~= d0 + sig_fold(items.take(0), t).1);
    }
    while i < module.items.len()
        invariant
            i <= items.len(),
            items == module.items@,
            t == *shape_table,
            row_views(fns@) == sig_fold(items.take(i as int), t).0,
            diag_views(diags@) == d0 + sig_fold(items.take(i as int), t).1,
        decreases items.len() - i,
    {
        proof {
            assert(items.take(i + 1).drop_last() =~= items.take(i as int));
            assert(items.take(i + 1).last() == items[i as int]);
        }
        match &module.items[i] {
            Item::Function(f) => {
                if f.generics.len() == 0 {
                    let ghost before = diag_views(diags@);
                    match row_position(&fns, f.name.as_str()) {
                        Some(k) => {
                            let mut w = lit("A function named `");
                            w.append(f.name.as_str());
                            w.append("` is already defined in this file.");
                            let d = Diagnostic::error(
                                f.span.duplicate(),
                                w,
                                lit("Rename one of the two functions \u{2014} each function in a file must have a unique name."),
                                lit("Yinz does not allow two functions with the same name in the same file."),
                            ).with_related(fns[k].1.decl_span.duplicate(), lit("first definition here"));
                            let ghost dv = d@;
                            diags.push(d);
                            proof {
                                reveal_strlit("A function named `");
                                assert(dv == duplicate_fn_diag(*f, row_views(fns@)[k as int].1.decl_span));
                                assert(diag_views(diags@) =~= before.push(dv));
                            }
                        },
                        None => {
                            let (params, param_ownerships) = resolve_params(&f.params, shape_table);
                            let ret = sig_ast_type_to_type(&f.return_type, shape_table);
                            check_main(f, &ret, diags);
                            let sig = FunctionSig {
                                params,
                                param_ownerships,
                                ret,
                                decl_span: f.span.duplicate(),
                                contains_wait: false,
                                suspends: false,
                                does_real_work: false,
                                original_name: None,
                            };
                            let ghost sv = sig@;
                            proof {
                                assert(sv == decl_sig_view(*f, t));
                            }
                            let ghost rv = row_views(fns@);
                            fns.push((f.name.clone(), sig));
                            proof {
                                assert(row_views(fns@) =~= rv.push((f.name@, sv)));
                            }
                        },
                    }
                }
            },
            _ => {},
        }
        i = i + 1;
    }
    proof {
        assert(items.take(items.len() as int) =~= items);
    }
    let ghost rows = row_views(fns@);
    let ghost d1 = diag_views(diags@);
    match row_position(&fns, "main") {
        None => {
            push_diag(
                diags,
                &module.span,
                lit("This file has no `main` function."),
                lit("Add a main function:\n  function main() -> nothing {\n    ...\n  }"),
                lit("Every Yinz program needs a `main` function \u{2014} that is where execution starts."),
            );
            proof {
                reveal_strlit("main");
                assert(diag_views(diags@) =~= d1 + seq![no_main_diag(module.span@)]);
            }
        },
        Some(_) => {
            proof {
                reveal_strlit("main");
                assert(diag_views(diags@) =~= d1 + Seq::<DiagnosticView>::empty());
            }
        },
    }
    SignatureTable { fns }
}

} // verus!
