//! Collecting a module's shape declarations into a shape table: inline anonymous shapes
//! hoisted to synthetic named shapes, field types resolved against every shape name of
//! the file (forward references allowed), inherited fields prepended, and the errors a
//! declaration can carry reported.
use vstd::prelude::*;

use crate::diagnostics::{diag_views, error_view, Diagnostic, DiagnosticView, SourceSpan, SpanView};
use crate::names::NameSet;
use crate::shapes::{
    canonical_anon_name, field_views, sig_views, spec_canonical_anon_name, spec_resolve_in, ContractSigView, FieldDef,
    FieldView, ResolveCtx, ShapeDef, ShapeTable, ShapeView,
};
use crate::options_table::OptionsEntry;
use crate::shapes::ContractSigDef;
use crate::syntax::{ContractSig, OwnershipModifier, ShapeDecl};
use crate::types::Type;
use crate::types::{spec_render_type, TypeView};
use crate::syntax::{AstType, FieldDecl, Item, MatchArm, Param, Stmt};
use crate::text::{lit, str_eq};

verus! {

/// A synthetic shape hoisted from an inline anonymous shape: its canonical name, its
/// fields, and the span of the inline type.
pub type AnonView = (Seq<char>, Seq<FieldDecl>, SpanView);

/// The inline anonymous shapes in a type as written, outermost first, each followed by
/// the ones nested in its own fields.
pub open spec fn anon_in_type(t: AstType) -> Seq<AnonView>
    decreases t,
{
    match t {
        AstType::AnonShape { fields, span } => seq![(spec_canonical_anon_name(fields@), fields@, span@)] + anon_in_fields(
            fields@,
        ),
        AstType::Union { variants } => anon_in_types(variants@),
        AstType::Maybe { inner } => anon_in_type(*inner),
        AstType::Generic { args, .. } => anon_in_types(args@),
        AstType::ErrorCapable { inner } => anon_in_type(*inner),
        AstType::Sensitive(inner) => anon_in_type(*inner),
        _ => Seq::empty(),
    }
}

pub open spec fn anon_in_types(s: Seq<AstType>) -> Seq<AnonView>
    decreases s,
{
    if s.len() == 0 {
        Seq::empty()
    } else {
        anon_in_types(s.subrange(0, s.len() - 1)) + anon_in_type(s[s.len() - 1])
    }
}

pub open spec fn anon_in_fields(s: Seq<FieldDecl>) -> Seq<AnonView>
    decreases s,
{
    if s.len() == 0 {
        Seq::empty()
    } else {
        anon_in_fields(s.subrange(0, s.len() - 1)) + anon_in_type(s[s.len() - 1].ty)
    }
}

pub open spec fn anon_in_params(s: Seq<Param>) -> Seq<AnonView>
    decreases s,
{
    if s.len() == 0 {
        Seq::empty()
    } else {
        anon_in_params(s.subrange(0, s.len() - 1)) + anon_in_type(s[s.len() - 1].ty)
    }
}

/// The inline anonymous shapes of the `let` annotations of a statement list, nested
/// blocks included.
pub open spec fn anon_in_stmts(s: Seq<Stmt>) -> Seq<AnonView>
    decreases s,
{
    if s.len() == 0 {
        Seq::empty()
    } else {
        anon_in_stmts(s.subrange(0, s.len() - 1)) + anon_in_stmt(s[s.len() - 1])
    }
}

pub open spec fn anon_in_stmt(st: Stmt) -> Seq<AnonView>
    decreases st,
{
    match st {
        Stmt::Let { ty, .. } => match ty {
            Some(t) => anon_in_type(t),
            None => Seq::empty(),
        },
        Stmt::If { body, .. } => anon_in_stmts(body.stmts@),
        Stmt::While { body, .. } => anon_in_stmts(body.stmts@),
        Stmt::For { body, .. } => anon_in_stmts(body.stmts@),
        Stmt::Match { arms, else_arm, .. } => anon_in_arms(arms@) + match else_arm {
            Some(b) => anon_in_stmts(b.stmts@),
            None => Seq::empty(),
        },
        _ => Seq::empty(),
    }
}

pub open spec fn anon_in_arms(s: Seq<MatchArm>) -> Seq<AnonView>
    decreases s,
{
    if s.len() == 0 {
        Seq::empty()
    } else {
        anon_in_arms(s.subrange(0, s.len() - 1)) + anon_in_stmts(s[s.len() - 1].body.stmts@)
    }
}

/// The inline anonymous shapes of an item: the field types of a shape (not of a union
/// alias); the parameter types, return type and `let` annotations of a function.
pub open spec fn anon_in_item(it: Item) -> Seq<AnonView> {
    match it {
        Item::ShapeDecl(s) => if s.alias_ty is None {
            anon_in_fields(s.fields@)
        } else {
            Seq::empty()
        },
        Item::Function(f) => anon_in_params(f.params@) + anon_in_type(f.return_type) + anon_in_stmts(f.body.stmts@),
        _ => Seq::empty(),
    }
}

pub open spec fn anon_in_items(s: Seq<Item>) -> Seq<AnonView>
    decreases s.len(),
{
    if s.len() == 0 {
        Seq::empty()
    } else {
        anon_in_items(s.drop_last()) + anon_in_item(s.last())
    }
}

/// The first occurrence of each synthetic name, in order.
pub open spec fn dedup_anon(s: Seq<AnonView>) -> Seq<AnonView>
    decreases s.len(),
{
    if s.len() == 0 {
        s
    } else {
        let d = dedup_anon(s.drop_last());
        if exists|k: int| 0 <= k < d.len() && #[trigger] d[k].0 == s.last().0 {
            d
        } else {
            d.push(s.last())
        }
    }
}

/// The synthetic shapes of a module.
pub open spec fn synthetic_shapes(items: Seq<Item>) -> Seq<AnonView> {
    dedup_anon(anon_in_items(items))
}

/// An exec synthetic shape: name, fields (borrowed from the module), span.
pub type Anon<'a> = (String, &'a Vec<FieldDecl>, SourceSpan);

pub open spec fn anon_views<'a>(v: Seq<Anon<'a>>) -> Seq<AnonView> {
    v.map_values(|e: Anon<'a>| (e.0@, e.1@, e.2@))
}

proof fn lemma_push_views<'a>(v: Seq<Anon<'a>>, e: Anon<'a>)
    ensures
        anon_views(v.push(e)) == anon_views(v).push((e.0@, e.1@, e.2@)),
{
    assert(anon_views(v.push(e)) =~= anon_views(v).push((e.0@, e.1@, e.2@)));
}

fn anon_in_type_exec<'a>(t: &'a AstType, out: &mut Vec<Anon<'a>>)
    ensures
        anon_views(final(out)@) == anon_views(old(out)@) + anon_in_type(*t),
    decreases t,
{
    match t {
        AstType::AnonShape { fields, span } => {
            let name = canonical_anon_name(fields);
            let ghost e = (name@, fields@, span@);
            let ghost before = anon_views(out@);
            out.push((name, fields, span.duplicate()));
            proof {
                assert(anon_views(out@) =~= before.push(e));
            }
            let ghost mid = anon_views(out@);
            anon_in_fields_exec(fields, out);
            proof {
                assert(anon_views(out@) =~= before + (seq![e] + anon_in_fields(fields@)));
            }
        },
        AstType::Union { variants } => anon_in_types_exec(variants, out),
        AstType::Maybe { inner } => anon_in_type_exec(inner, out),
        AstType::Generic { args, .. } => anon_in_types_exec(args, out),
        AstType::ErrorCapable { inner } => anon_in_type_exec(inner, out),
        AstType::Sensitive(inner) => anon_in_type_exec(inner, out),
        _ => {
            proof {
                assert(anon_views(out@) =~= anon_views(old(out)@) + Seq::<AnonView>::empty());
            }
        },
    }
}

fn anon_in_types_exec<'a>(v: &'a Vec<AstType>, out: &mut Vec<Anon<'a>>)
    ensures
        anon_views(final(out)@) == anon_views(old(out)@) + anon_in_types(v@),
    decreases v,
{
    let ghost o0 = anon_views(out@);
    let mut i: usize = 0;
    proof {
        assert(v@.subrange(0, 0) =~= Seq::<AstType>::empty());
        assert(anon_views(out@) =~= o0 + anon_in_types(v@.subrange(0, 0)));
    }
    while i < v.len()
        invariant
            i <= v@.len(),
            anon_views(out@) == o0 + anon_in_types(v@.subrange(0, i as int)),
        decreases v@.len() - i,
    {
        proof {
            let pre = v@.subrange(0, i + 1);
            assert(pre.subrange(0, i as int) =~= v@.subrange(0, i as int));
            assert(pre[i as int] == v@[i as int]);
        }
        anon_in_type_exec(&v[i], out);
        proof {
            assert(anon_views(out@) =~= o0 + anon_in_types(v@.subrange(0, i + 1)));
        }
        i = i + 1;
    }
    proof {
        assert(v@.subrange(0, v@.len() as int) =~= v@);
    }
}

fn anon_in_fields_exec<'a>(v: &'a Vec<FieldDecl>, out: &mut Vec<Anon<'a>>)
    ensures
        anon_views(final(out)@) == anon_views(old(out)@) + anon_in_fields(v@),
    decreases v,
{
    let ghost o0 = anon_views(out@);
    let mut i: usize = 0;
    proof {
        assert(v@.subrange(0, 0) =~= Seq::<FieldDecl>::empty());
        assert(anon_views(out@) =~= o0 + anon_in_fields(v@.subrange(0, 0)));
    }
    while i < v.len()
        invariant
            i <= v@.len(),
            anon_views(out@) == o0 + anon_in_fields(v@.subrange(0, i as int)),
        decreases v@.len() - i,
    {
        proof {
            let pre = v@.subrange(0, i + 1);
            assert(pre.subrange(0, i as int) =~= v@.subrange(0, i as int));
            assert(pre[i as int] == v@[i as int]);
        }
        anon_in_type_exec(&v[i].ty, out);
        proof {
            assert(anon_views(out@) =~= o0 + anon_in_fields(v@.subrange(0, i + 1)));
        }
        i = i + 1;
    }
    proof {
        assert(v@.subrange(0, v@.len() as int) =~= v@);
    }
}

fn anon_in_params_exec<'a>(v: &'a Vec<Param>, out: &mut Vec<Anon<'a>>)
    ensures
        anon_views(final(out)@) == anon_views(old(out)@) + anon_in_params(v@),
{
    let ghost o0 = anon_views(out@);
    let mut i: usize = 0;
    proof {
        assert(v@.subrange(0, 0) =~= Seq::<Param>::empty());
        assert(anon_views(out@) =~= o0 + anon_in_params(v@.subrange(0, 0)));
    }
    while i < v.len()
        invariant
            i <= v@.len(),
            anon_views(out@) == o0 + anon_in_params(v@.subrange(0, i as int)),
        decreases v@.len() - i,
    {
        proof {
            let pre = v@.subrange(0, i + 1);
            assert(pre.subrange(0, i as int) =~= v@.subrange(0, i as int));
            assert(pre[i as int] == v@[i as int]);
        }
        anon_in_type_exec(&v[i].ty, out);
        proof {
            assert(anon_views(out@) =~= o0 + anon_in_params(v@.subrange(0, i + 1)));
        }
        i = i + 1;
    }
    proof {
        assert(v@.subrange(0, v@.len() as int) =~= v@);
    }
}

fn anon_in_stmts_exec<'a>(v: &'a Vec<Stmt>, out: &mut Vec<Anon<'a>>)
    ensures
        anon_views(final(out)@) == anon_views(old(out)@) + anon_in_stmts(v@),
    decreases v,
{
    let ghost o0 = anon_views(out@);
    let mut i: usize = 0;
    proof {
        assert(v@.subrange(0, 0) =~= Seq::<Stmt>::empty());
        assert(anon_views(out@) =~= o0 + anon_in_stmts(v@.subrange(0, 0)));
    }
    while i < v.len()
        invariant
            i <= v@.len(),
            anon_views(out@) == o0 + anon_in_stmts(v@.subrange(0, i as int)),
        decreases v@.len() - i,
    {
        proof {
            let pre = v@.subrange(0, i + 1);
            assert(pre.subrange(0, i as int) =~= v@.subrange(0, i as int));
            assert(pre[i as int] == v@[i as int]);
        }
        anon_in_stmt_exec(&v[i], out);
        proof {
            assert(anon_views(out@) =~= o0 + anon_in_stmts(v@.subrange(0, i + 1)));
        }
        i = i + 1;
    }
    proof {
        assert(v@.subrange(0, v@.len() as int) =~= v@);
    }
}

fn anon_in_stmt_exec<'a>(st: &'a Stmt, out: &mut Vec<Anon<'a>>)
    ensures
        anon_views(final(out)@) == anon_views(old(out)@) + anon_in_stmt(*st),
    decreases st,
{
    match st {
        Stmt::Let { ty, .. } => match ty {
            Some(t) => anon_in_type_exec(t, out),
            None => {
                proof {
                    assert(anon_views(out@) =~= anon_views(old(out)@) + Seq::<AnonView>::empty());
                }
            },
        },
        Stmt::If { body, .. } => anon_in_stmts_exec(&body.stmts, out),
        Stmt::While { body, .. } => anon_in_stmts_exec(&body.stmts, out),
        Stmt::For { body, .. } => anon_in_stmts_exec(&body.stmts, out),
        Stmt::Match { arms, else_arm, .. } => {
            anon_in_arms_exec(arms, out);
            let ghost mid = anon_views(out@);
            match else_arm {
                Some(b) => anon_in_stmts_exec(&b.stmts, out),
                None => {
                    proof {
                        assert(anon_views(out@) =~= mid + Seq::<AnonView>::empty());
                    }
                },
            }
            proof {
                assert(anon_views(out@) =~= anon_views(old(out)@) + anon_in_stmt(*st));
            }
        },
        _ => {
            proof {
                assert(anon_views(out@) =~= anon_views(old(out)@) + Seq::<AnonView>::empty());
            }
        },
    }
}

fn anon_in_arms_exec<'a>(v: &'a Vec<MatchArm>, out: &mut Vec<Anon<'a>>)
    ensures
        anon_views(final(out)@) == anon_views(old(out)@) + anon_in_arms(v@),
    decreases v,
{
    let ghost o0 = anon_views(out@);
    let mut i: usize = 0;
    proof {
        assert(v@.subrange(0, 0) =~= Seq::<MatchArm>::empty());
        assert(anon_views(out@) =~= o0 + anon_in_arms(v@.subrange(0, 0)));
    }
    while i < v.len()
        invariant
            i <= v@.len(),
            anon_views(out@) == o0 + anon_in_arms(v@.subrange(0, i as int)),
        decreases v@.len() - i,
    {
        proof {
            let pre = v@.subrange(0, i + 1);
            assert(pre.subrange(0, i as int) =~= v@.subrange(0, i as int));
            assert(pre[i as int] == v@[i as int]);
        }
        anon_in_stmts_exec(&v[i].body.stmts, out);
        proof {
            assert(anon_views(out@) =~= o0 + anon_in_arms(v@.subrange(0, i + 1)));
        }
        i = i + 1;
    }
    proof {
        assert(v@.subrange(0, v@.len() as int) =~= v@);
    }
}

/// The synthetic shapes of a module: each inline anonymous shape of its shapes' fields
/// and its functions' signatures and `let` annotations, hoisted under its canonical
/// name, once per name (the first occurrence kept).
pub fn collect_synthetic_shapes<'a>(items: &'a Vec<Item>) -> (r: Vec<Anon<'a>>)
    ensures
        anon_views(r@) == synthetic_shapes(items@),
{
    let mut all: Vec<Anon<'a>> = Vec::new();
    let mut i: usize = 0;
    proof {
        assert(items@.take(0) =~= Seq::<Item>::empty());
        assert(anon_views(all@) =~= anon_in_items(items@.take(0)));
    }
    while i < items.len()
        invariant
            i <= items@.len(),
            anon_views(all@) == anon_in_items(items@.take(i as int)),
        decreases items@.len() - i,
    {
        proof {
            assert(items@.take(i + 1).drop_last() =~= items@.take(i as int));
            assert(items@.take(i + 1).last() == items@[i as int]);
        }
        let ghost before = anon_views(all@);
        match &items[i] {
            Item::ShapeDecl(s) => {
                if s.alias_ty.is_none() {
                    anon_in_fields_exec(&s.fields, &mut all);
                } else {
                    proof {
                        assert(anon_views(all@) =~= before + Seq::<AnonView>::empty());
                    }
                }
            },
            Item::Function(f) => {
                anon_in_params_exec(&f.params, &mut all);
                anon_in_type_exec(&f.return_type, &mut all);
                anon_in_stmts_exec(&f.body.stmts, &mut all);
                proof {
                    assert(anon_views(all@) =~= before + anon_in_item(items@[i as int]));
                }
            },
            _ => {
                proof {
                    assert(anon_views(all@) =~= before + Seq::<AnonView>::empty());
                }
            },
        }
        proof {
            assert(anon_views(all@) =~= anon_in_items(items@.take(i + 1)));
        }
        i = i + 1;
    }
    proof {
        assert(items@.take(items@.len() as int) =~= items@);
    }
    let ghost av = anon_views(all@);
    let mut out: Vec<Anon<'a>> = Vec::new();
    let mut k: usize = 0;
    proof {
        assert(av.take(0) =~= Seq::<AnonView>::empty());
        assert(anon_views(out@) =~= dedup_anon(av.take(0)));
    }
    while k < all.len()
        invariant
            k <= all@.len(),
            av == anon_views(all@),
            anon_views(out@) == dedup_anon(av.take(k as int)),
        decreases all@.len() - k,
    {
        proof {
            assert(av.take(k + 1).drop_last() =~= av.take(k as int));
            assert(av.take(k + 1).last() == av[k as int]);
        }
        let ghost d = anon_views(out@);
        let mut seen = false;
        let mut j: usize = 0;
        while j < out.len()
            invariant
                j <= out@.len(),
                d == anon_views(out@),
                k < all@.len(),
                seen == exists|q: int| 0 <= q < j && #[trigger] d[q].0 == all@[k as int].0@,
            decreases out@.len() - j,
        {
            proof {
                assert(d[j as int].0 == out@[j as int].0@);
            }
            if str_eq(out[j].0.as_str(), all[k].0.as_str()) {
                seen = true;
            }
            j = j + 1;
        }
        if !seen {
            let e = (all[k].0.clone(), all[k].1, all[k].2.duplicate());
            proof {
                lemma_push_views(out@, e);
            }
            out.push(e);
        }
        k = k + 1;
    }
    proof {
        assert(av.take(all@.len() as int) =~= av);
    }
    out
}

/// The type names every field may use without declaring them.
pub open spec fn builtin_type_name(n: Seq<char>) -> bool {
    n == "int"@ || n == "float"@ || n == "number"@ || n == "boolean"@ || n == "string"@ || n == "nothing"@ || n
        == "none"@ || n == "range"@ || n == "Frame"@ || n == "SourceLoc"@
}

/// A name a field type may use: a built-in, a shape, a union alias, an options type, or
/// one of the declaring shape's type parameters.
pub open spec fn known_type_name(c: ResolveCtx, n: Seq<char>, type_params: Seq<Seq<char>>) -> bool {
    builtin_type_name(n) || c.shapes.contains(n) || c.aliases.contains_key(n) || c.options.contains(n)
        || type_params.contains(n)
}

/// The diagnostic for an unknown type name in a field's type.
pub open spec fn unknown_type_diag(n: Seq<char>, span: SpanView, field: Seq<char>, shape: Seq<char>) -> DiagnosticView {
    error_view(
        span,
        "`"@ + n + "` is not a known type."@,
        "Field `"@ + field + "` on `"@ + shape + "` cannot use `"@ + n
            + "`. Use a built-in or a `shape` name defined in this file."@,
        "Built-ins: `int`, `float`, `number`, `boolean`, `string`. Collections: `array<T>`, `fixed<T>`, `map<K, V>`. Optionals: `maybe<T>`."@,
    )
}

/// A diagnostic for every unknown name in a field's type, looking through unions,
/// `maybe` and generic arguments.
pub open spec fn unknown_type_diags(
    t: AstType,
    field: Seq<char>,
    shape: Seq<char>,
    c: ResolveCtx,
    tps: Seq<Seq<char>>,
) -> Seq<DiagnosticView>
    decreases t,
{
    match t {
        AstType::Named(n, span) => if known_type_name(c, n@, tps) {
            Seq::empty()
        } else {
            seq![unknown_type_diag(n@, span@, field, shape)]
        },
        AstType::Union { variants } => unknown_types_diags(variants@, field, shape, c, tps),
        AstType::Maybe { inner } => unknown_type_diags(*inner, field, shape, c, tps),
        AstType::Generic { args, .. } => unknown_types_diags(args@, field, shape, c, tps),
        _ => Seq::empty(),
    }
}

pub open spec fn unknown_types_diags(
    s: Seq<AstType>,
    field: Seq<char>,
    shape: Seq<char>,
    c: ResolveCtx,
    tps: Seq<Seq<char>>,
) -> Seq<DiagnosticView>
    decreases s,
{
    if s.len() == 0 {
        Seq::empty()
    } else {
        unknown_types_diags(s.subrange(0, s.len() - 1), field, shape, c, tps) + unknown_type_diags(
            s[s.len() - 1],
            field,
            shape,
            c,
            tps,
        )
    }
}

fn is_builtin_type_name(n: &str) -> (b: bool)
    ensures
        b == builtin_type_name(n@),
{
    str_eq(n, "int") || str_eq(n, "float") || str_eq(n, "number") || str_eq(n, "boolean") || str_eq(n, "string")
        || str_eq(n, "nothing") || str_eq(n, "none") || str_eq(n, "range") || str_eq(n, "Frame") || str_eq(
        n,
        "SourceLoc",
    )
}

pub(crate) fn contains_string(v: &Vec<String>, n: &str) -> (b: bool)
    ensures
        b == crate::text::string_views(v@).contains(n@),
{
    let ghost sv = crate::text::string_views(v@);
    let mut i: usize = 0;
    while i < v.len()
        invariant
            i <= v@.len(),
            sv == crate::text::string_views(v@),
            forall|j: int| 0 <= j < i ==> sv[j] != n@,
        decreases v@.len() - i,
    {
        if str_eq(v[i].as_str(), n) {
            proof {
                assert(sv[i as int] == n@);
            }
            return true;
        }
        i = i + 1;
    }
    false
}

pub(crate) fn push_diag(diags: &mut Vec<Diagnostic>, span: &SourceSpan, what: String, instead: String, why: String)
    ensures
        diag_views(final(diags)@) == diag_views(old(diags)@).push(error_view(span@, what@, instead@, why@)),
{
    diags.push(Diagnostic::error(span.duplicate(), what, instead, why));
    proof {
        assert(diag_views(diags@) =~= diag_views(old(diags)@).push(error_view(span@, what@, instead@, why@)));
    }
}

fn report_unknown_types(
    t: &AstType,
    field: &str,
    shape: &str,
    name_table: &ShapeTable,
    tps: &Vec<String>,
    diags: &mut Vec<Diagnostic>,
)
    ensures
        diag_views(final(diags)@) == diag_views(old(diags)@) + unknown_type_diags(
            *t,
            field@,
            shape@,
            crate::shapes::table_ctx(*name_table),
            crate::text::string_views(tps@),
        ),
    decreases t,
{
    let ghost c = crate::shapes::table_ctx(*name_table);
    match t {
        AstType::Named(n, span) => {
            let known = is_builtin_type_name(n.as_str()) || name_table.contains(n.as_str())
                || crate::names::find_row(&name_table.union_aliases, n.as_str()).is_some()
                || name_table.options_names.contains(n.as_str()) || contains_string(tps, n.as_str());
            if !known {
                let mut what = lit("`");
                what.append(n.as_str());
                what.append("` is not a known type.");
                let mut instead = lit("Field `");
                instead.append(field);
                instead.append("` on `");
                instead.append(shape);
                instead.append("` cannot use `");
                instead.append(n.as_str());
                instead.append("`. Use a built-in or a `shape` name defined in this file.");
                push_diag(
                    diags,
                    span,
                    what,
                    instead,
                    lit(
                        "Built-ins: `int`, `float`, `number`, `boolean`, `string`. Collections: `array<T>`, `fixed<T>`, `map<K, V>`. Optionals: `maybe<T>`.",
                    ),
                );
            } else {
                proof {
                    assert(diag_views(diags@) =~= diag_views(old(diags)@) + Seq::<DiagnosticView>::empty());
                }
            }
        },
        AstType::Union { variants } => report_unknown_in(variants, field, shape, name_table, tps, diags),
        AstType::Maybe { inner } => report_unknown_types(inner, field, shape, name_table, tps, diags),
        AstType::Generic { args, .. } => report_unknown_in(args, field, shape, name_table, tps, diags),
        _ => {
            proof {
                assert(diag_views(diags@) =~= diag_views(old(diags)@) + Seq::<DiagnosticView>::empty());
            }
        },
    }
}

fn report_unknown_in(
    v: &Vec<AstType>,
    field: &str,
    shape: &str,
    name_table: &ShapeTable,
    tps: &Vec<String>,
    diags: &mut Vec<Diagnostic>,
)
    ensures
        diag_views(final(diags)@) == diag_views(old(diags)@) + unknown_types_diags(
            v@,
            field@,
            shape@,
            crate::shapes::table_ctx(*name_table),
            crate::text::string_views(tps@),
        ),
    decreases v,
{
    let ghost c = crate::shapes::table_ctx(*name_table);
    let ghost tv = crate::text::string_views(tps@);
    let ghost d0 = diag_views(diags@);
    let mut i: usize = 0;
    proof {
        assert(v@.subrange(0, 0) =~= Seq::<AstType>::empty());
        assert(diag_views(diags@) =~= d0 + unknown_types_diags(v@.subrange(0, 0), field@, shape@, c, tv));
    }
    while i < v.len()
        invariant
            i <= v@.len(),
            c == crate::shapes::table_ctx(*name_table),
            tv == crate::text::string_views(tps@),
            diag_views(diags@) == d0 + unknown_types_diags(v@.subrange(0, i as int), field@, shape@, c, tv),
        decreases v@.len() - i,
    {
        proof {
            let pre = v@.subrange(0, i + 1);
            assert(pre.subrange(0, i as int) =~= v@.subrange(0, i as int));
            assert(pre[i as int] == v@[i as int]);
        }
        report_unknown_types(&v[i], field, shape, name_table, tps, diags);
        proof {
            assert(diag_views(diags@) =~= d0 + unknown_types_diags(v@.subrange(0, i + 1), field@, shape@, c, tv));
        }
        i = i + 1;
    }
    proof {
        assert(v@.subrange(0, v@.len() as int) =~= v@);
    }
}

/// A field as declared, resolved: not inherited.
pub open spec fn resolved_field(f: FieldDecl, c: ResolveCtx) -> FieldView {
    FieldView { name: f.name@, ty: spec_resolve_in(c, f.ty), is_hidden: f.is_hidden, is_inherited: false, defined_at: f.name_span@ }
}

/// The shape a synthetic (hoisted) shape defines.
pub open spec fn synthetic_view(a: AnonView, c: ResolveCtx) -> ShapeView {
    ShapeView {
        name: a.0,
        is_base: false,
        extends: None,
        follows: Seq::empty(),
        fields: a.1.map_values(|f: FieldDecl| resolved_field(f, c)),
        contract_sigs: Seq::empty(),
        defined_at: a.2,
    }
}

/// The unknown-type diagnostics of a synthetic shape's fields.
pub open spec fn synthetic_diags(fs: Seq<FieldDecl>, c: ResolveCtx) -> Seq<DiagnosticView>
    decreases fs.len(),
{
    if fs.len() == 0 {
        Seq::empty()
    } else {
        synthetic_diags(fs.drop_last(), c) + unknown_type_diags(
            fs.last().ty,
            fs.last().name@,
            "inline type"@,
            c,
            Seq::empty(),
        )
    }
}

fn resolve_field(f: &FieldDecl, name_table: &ShapeTable) -> (r: FieldDef)
    ensures
        r@ == resolved_field(*f, crate::shapes::table_ctx(*name_table)),
{
    FieldDef {
        name: f.name.clone(),
        ty: name_table.resolve_ast_type(&f.ty),
        is_hidden: f.is_hidden,
        is_inherited: false,
        defined_at: f.name_span.duplicate(),
    }
}

/// Resolve a synthetic shape, reporting unknown types in its fields.
pub(crate) fn resolve_synthetic_shape(a: &Anon, name_table: &ShapeTable, diags: &mut Vec<Diagnostic>) -> (r: ShapeDef)
    ensures
        r@ == synthetic_view((a.0@, a.1@, a.2@), crate::shapes::table_ctx(*name_table)),
        diag_views(final(diags)@) == diag_views(old(diags)@) + synthetic_diags(a.1@, crate::shapes::table_ctx(*name_table)),
{
    let ghost c = crate::shapes::table_ctx(*name_table);
    let fs = a.1;
    let ghost d0 = diag_views(diags@);
    let no_params: Vec<String> = Vec::new();
    let mut fields: Vec<FieldDef> = Vec::new();
    let mut i: usize = 0;
    proof {
        assert(fs@.take(0) =~= Seq::<FieldDecl>::empty());
        assert(diag_views(diags@) =~= d0 + synthetic_diags(fs@.take(0), c));
    }
    while i < fs.len()
        invariant
            i <= fs@.len(),
            c == crate::shapes::table_ctx(*name_table),
            no_params@.len() == 0,
            fields@.len() == i,
            forall|j: int| 0 <= j < i ==> (#[trigger] fields@[j])@ == resolved_field(fs@[j], c),
            diag_views(diags@) == d0 + synthetic_diags(fs@.take(i as int), c),
        decreases fs@.len() - i,
    {
        proof {
            assert(fs@.take(i + 1).drop_last() =~= fs@.take(i as int));
            assert(fs@.take(i + 1).last() == fs@[i as int]);
            assert(crate::text::string_views(no_params@) =~= Seq::<Seq<char>>::empty());
        }
        report_unknown_types(&fs[i].ty, fs[i].name.as_str(), "inline type", name_table, &no_params, diags);
        fields.push(resolve_field(&fs[i], name_table));
        proof {
            assert(diag_views(diags@) =~= d0 + synthetic_diags(fs@.take(i + 1), c));
        }
        i = i + 1;
    }
    proof {
        assert(fs@.take(fs@.len() as int) =~= fs@);
    }
    let r = ShapeDef {
        name: a.0.clone(),
        is_base: false,
        extends: None,
        follows: Vec::new(),
        fields,
        contract_sigs: Vec::new(),
        defined_at: a.2.duplicate(),
    };
    proof {
        assert(field_views(r.fields@) =~= fs@.map_values(|f: FieldDecl| resolved_field(f, c)));
        assert(crate::text::string_views(r.follows@) =~= Seq::<Seq<char>>::empty());
        assert(sig_views(r.contract_sigs@) =~= Seq::<ContractSigView>::empty());
    }
    r
}

/// The diagnostic for a hidden field without a default: the fix names `none` when the
/// type is a `maybe`, and otherwise a value or a switch to `maybe`.
pub open spec fn hidden_field_diag(name: Seq<char>, span: SpanView, ty: TypeView) -> DiagnosticView {
    let tn = spec_render_type(ty);
    let what = "Hidden field `"@ + name + "` has no default value."@;
    match ty {
        TypeView::Maybe { .. } => error_view(
            span,
            what,
            "Default to `none` since the type allows absence \u{2014} `hidden "@ + name + ": "@ + tn + " = none`."@,
            "Hidden fields can't be set by code in other files. Without a default, external construction would leave the field in an undefined state. Your field's type is `maybe ...`, so `none` is the natural default."@,
        ),
        _ => error_view(
            span,
            what,
            "Provide one \u{2014} `hidden "@ + name + ": "@ + tn + " = <value>`."@,
            "Hidden fields can't be set by code in other files. Without a default, external construction would leave the field in an undefined state. If no sensible default applies here, change the type to `maybe "@
                + tn + "` and default to `none`: `hidden "@ + name + ": maybe "@ + tn
                + " = none`. The type then says `sometimes absent` and same-file code reads it through `.exists()` guards."@,
        ),
    }
}

/// The diagnostic for a field name declared twice on a shape.
pub open spec fn duplicate_field_diag(f: FieldDecl, shape: Seq<char>) -> DiagnosticView {
    error_view(
        f.name_span@,
        "Field `"@ + f.name@ + "` is already declared on `"@ + shape + "`."@,
        "Each field in a shape must have a unique name."@,
        "Two fields with the same name would make it impossible to tell them apart."@,
    )
}

/// The own fields of a declared shape, in order, the first of each name kept, with their
/// diagnostics.
pub struct FieldAcc {
    pub seen: Set<Seq<char>>,
    pub fields: Seq<FieldView>,
    pub diags: Seq<DiagnosticView>,
}

/// The first `k` fields of `s`: a repeated name is reported and dropped; any other field
/// is resolved, with its unknown-type diagnostics and, when hidden without a default, the
/// hidden-field diagnostic.
pub open spec fn own_fields_fold(s: ShapeDecl, c: ResolveCtx, k: int) -> FieldAcc
    decreases k,
{
    if k <= 0 {
        FieldAcc { seen: Set::empty(), fields: Seq::empty(), diags: Seq::empty() }
    } else {
        let acc = own_fields_fold(s, c, k - 1);
        let f = s.fields@[k - 1];
        if acc.seen.contains(f.name@) {
            FieldAcc { seen: acc.seen, fields: acc.fields, diags: acc.diags.push(duplicate_field_diag(f, s.name@)) }
        } else {
            let fv = resolved_field(f, c);
            let hidden = if f.is_hidden && f.default is None {
                seq![hidden_field_diag(f.name@, f.name_span@, fv.ty)]
            } else {
                Seq::empty()
            };
            FieldAcc {
                seen: acc.seen.insert(f.name@),
                fields: acc.fields.push(fv),
                diags: acc.diags + unknown_type_diags(f.ty, f.name@, s.name@, c, crate::text::string_views(s.generics@))
                    + hidden,
            }
        }
    }
}

/// The diagnostic for an `extends` parent that is not a shape of the file.
pub open spec fn extends_diags(s: ShapeDecl, names: Set<Seq<char>>) -> Seq<DiagnosticView> {
    match s.extends {
        Some(p) => if names.contains(p.0@) {
            Seq::empty()
        } else {
            seq![
                error_view(
                    p.1@,
                    "`"@ + p.0@ + "` is not defined \u{2014} cannot extend it."@,
                    "Declare `shape "@ + p.0@ + " { ... }` in this file before extending it."@,
                    "`extends` is data-only inheritance \u{2014} the parent shape must be declared in the same file."@,
                ),
            ]
        },
        None => Seq::empty(),
    }
}

/// The diagnostics for `follows` contracts that are not shapes of the file, in order.
pub open spec fn follows_diags(fs: Seq<(String, SourceSpan)>, names: Set<Seq<char>>) -> Seq<DiagnosticView>
    decreases fs.len(),
{
    if fs.len() == 0 {
        Seq::empty()
    } else {
        let (cn, sp) = fs.last();
        follows_diags(fs.drop_last(), names) + if names.contains(cn@) {
            Seq::empty()
        } else {
            seq![
                error_view(
                    sp@,
                    "`"@ + cn@ + "` is not defined \u{2014} cannot follow it."@,
                    "Declare `shape "@ + cn@ + " { ... }` with bare method signatures in this file."@,
                    "`follows` names a contract shape \u{2014} a shape whose body contains only bare method signature declarations."@,
                ),
            ]
        }
    }
}

/// A contract method signature, resolved.
pub open spec fn sig_view_of(sig: ContractSig, c: ResolveCtx) -> ContractSigView {
    ContractSigView {
        name: sig.name@,
        param_tys: sig.params@.map_values(|p: Param| spec_resolve_in(c, p.ty)),
        param_names: sig.params@.map_values(|p: Param| p.name@),
        param_ownerships: sig.params@.map_values(|p: Param| p.ownership),
        receiver: sig.receiver,
        ret_ty: spec_resolve_in(c, sig.return_type),
    }
}

/// The shape a declaration defines before inherited fields are added.
pub open spec fn declared_view(s: ShapeDecl, c: ResolveCtx) -> ShapeView {
    ShapeView {
        name: s.name@,
        is_base: s.is_base,
        extends: match s.extends {
            Some(p) => Some(p.0@),
            None => None,
        },
        follows: s.follows@.map_values(|f: (String, SourceSpan)| f.0@),
        fields: own_fields_fold(s, c, s.fields@.len() as int).fields,
        contract_sigs: s.contract_sigs@.map_values(|sig: ContractSig| sig_view_of(sig, c)),
        defined_at: s.name_span@,
    }
}

/// The diagnostics of a declaration: its `extends`, its `follows`, then its fields.
pub open spec fn declared_diags(s: ShapeDecl, names: Set<Seq<char>>, c: ResolveCtx) -> Seq<DiagnosticView> {
    extends_diags(s, names) + follows_diags(s.follows@, names) + own_fields_fold(s, c, s.fields@.len() as int).diags
}

fn resolve_sig(sig: &ContractSig, name_table: &ShapeTable) -> (r: ContractSigDef)
    ensures
        r@ == sig_view_of(*sig, crate::shapes::table_ctx(*name_table)),
{
    let ghost c = crate::shapes::table_ctx(*name_table);
    let mut tys: Vec<Type> = Vec::new();
    let mut names: Vec<String> = Vec::new();
    let mut ows: Vec<Option<OwnershipModifier>> = Vec::new();
    let mut i: usize = 0;
    while i < sig.params.len()
        invariant
            i <= sig.params@.len(),
            c == crate::shapes::table_ctx(*name_table),
            tys@.len() == i,
            names@.len() == i,
            ows@.len() == i,
            forall|j: int| 0 <= j < i ==> (#[trigger] tys@[j])@ == spec_resolve_in(c, sig.params@[j].ty),
            forall|j: int| 0 <= j < i ==> (#[trigger] names@[j])@ == sig.params@[j].name@,
            forall|j: int| 0 <= j < i ==> #[trigger] ows@[j] == sig.params@[j].ownership,
        decreases sig.params@.len() - i,
    {
        tys.push(name_table.resolve_ast_type(&sig.params[i].ty));
        names.push(sig.params[i].name.clone());
        ows.push(sig.params[i].ownership);
        i = i + 1;
    }
    let r = ContractSigDef {
        name: sig.name.clone(),
        param_tys: tys,
        param_names: names,
        param_ownerships: ows,
        receiver: sig.receiver,
        ret_ty: name_table.resolve_ast_type(&sig.return_type),
    };
    proof {
        crate::types::lemma_view_types(r.param_tys@);
        assert(crate::types::view_types(r.param_tys@) =~= sig.params@.map_values(|p: Param| spec_resolve_in(c, p.ty)));
        assert(crate::text::string_views(r.param_names@) =~= sig.params@.map_values(|p: Param| p.name@));
        assert(r.param_ownerships@ =~= sig.params@.map_values(|p: Param| p.ownership));
    }
    r
}

fn report_hidden_field(f: &FieldDecl, ty: &Type, diags: &mut Vec<Diagnostic>)
    ensures
        diag_views(final(diags)@) == diag_views(old(diags)@) + if f.is_hidden && f.default is None {
            seq![hidden_field_diag(f.name@, f.name_span@, ty@)]
        } else {
            Seq::empty()
        },
{
    let ghost d3 = diag_views(diags@);
    if f.is_hidden && f.default.is_none() {
        let tn = crate::types::render_type(ty);
        let mut what = lit("Hidden field `");
        what.append(f.name.as_str());
        what.append("` has no default value.");
        let is_maybe = match ty {
            Type::Maybe { .. } => true,
            _ => false,
        };
        if is_maybe {
            let mut instead = lit("Default to `none` since the type allows absence \u{2014} `hidden ");
            instead.append(f.name.as_str());
            instead.append(": ");
            instead.append(tn.as_str());
            instead.append(" = none`.");
            push_diag(
                diags,
                &f.name_span,
                what,
                instead,
                lit(
                    "Hidden fields can't be set by code in other files. Without a default, external construction would leave the field in an undefined state. Your field's type is `maybe ...`, so `none` is the natural default.",
                ),
            );
        } else {
            let mut instead = lit("Provide one \u{2014} `hidden ");
            instead.append(f.name.as_str());
            instead.append(": ");
            instead.append(tn.as_str());
            instead.append(" = <value>`.");
            let mut why = lit(
                "Hidden fields can't be set by code in other files. Without a default, external construction would leave the field in an undefined state. If no sensible default applies here, change the type to `maybe ",
            );
            why.append(tn.as_str());
            why.append("` and default to `none`: `hidden ");
            why.append(f.name.as_str());
            why.append(": maybe ");
            why.append(tn.as_str());
            why.append(
                " = none`. The type then says `sometimes absent` and same-file code reads it through `.exists()` guards.",
            );
            push_diag(diags, &f.name_span, what, instead, why);
        }
    } else {
        proof {
            assert(diag_views(diags@) =~= d3 + Seq::<DiagnosticView>::empty());
        }
    }
}

#[verifier::rlimit(50)]
#[verifier::spinoff_prover]
fn resolve_own_fields(s: &ShapeDecl, name_table: &ShapeTable, diags: &mut Vec<Diagnostic>) -> (fields: Vec<FieldDef>)
    ensures
        field_views(fields@) == own_fields_fold(*s, crate::shapes::table_ctx(*name_table), s.fields@.len() as int).fields,
        diag_views(final(diags)@) == diag_views(old(diags)@) + own_fields_fold(
            *s,
            crate::shapes::table_ctx(*name_table),
            s.fields@.len() as int,
        ).diags,
{
    let ghost c = crate::shapes::table_ctx(*name_table);
    let ghost d2 = diag_views(diags@);
    let mut seen = NameSet::new();
    let mut fields: Vec<FieldDef> = Vec::new();
    let mut k: usize = 0;
    proof {
        assert(seen@ =~= own_fields_fold(*s, c, 0).seen);
        assert(diag_views(diags@) =~= d2 + own_fields_fold(*s, c, 0).diags);
    }
    while k < s.fields.len()
        invariant
            k <= s.fields@.len(),
            c == crate::shapes::table_ctx(*name_table),
            seen@ == own_fields_fold(*s, c, k as int).seen,
            field_views(fields@) == own_fields_fold(*s, c, k as int).fields,
            diag_views(diags@) == d2 + own_fields_fold(*s, c, k as int).diags,
        decreases s.fields@.len() - k,
    {
        let f = &s.fields[k];
        if seen.contains(f.name.as_str()) {
            let mut what = lit("Field `");
            what.append(f.name.as_str());
            what.append("` is already declared on `");
            what.append(s.name.as_str());
            what.append("`.");
            push_diag(
                diags,
                &f.name_span,
                what,
                lit("Each field in a shape must have a unique name."),
                lit("Two fields with the same name would make it impossible to tell them apart."),
            );
        } else {
            seen.insert(f.name.clone());
            report_unknown_types(&f.ty, f.name.as_str(), s.name.as_str(), name_table, &s.generics, diags);
            let fd = resolve_field(f, name_table);
            let ghost d3 = diag_views(diags@);
            report_hidden_field(f, &fd.ty, diags);
            fields.push(fd);
        }
        proof {
            assert(seen@ =~= own_fields_fold(*s, c, k + 1).seen);
            assert(field_views(fields@) =~= own_fields_fold(*s, c, k + 1).fields);
            assert(diag_views(diags@) =~= d2 + own_fields_fold(*s, c, k + 1).diags);
        }
        k = k + 1;
    }
    fields
}

/// Resolve a declared shape against the file's shape names, reporting its errors.
pub(crate) fn resolve_declared_shape(
    s: &ShapeDecl,
    all_names: &NameSet,
    name_table: &ShapeTable,
    diags: &mut Vec<Diagnostic>,
) -> (r: ShapeDef)
    ensures
        r@ == declared_view(*s, crate::shapes::table_ctx(*name_table)),
        diag_views(final(diags)@) == diag_views(old(diags)@) + declared_diags(
            *s,
            all_names@,
            crate::shapes::table_ctx(*name_table),
        ),
{
    let ghost c = crate::shapes::table_ctx(*name_table);
    let ghost d0 = diag_views(diags@);
    let extends = match &s.extends {
        Some(p) => {
            if !all_names.contains(p.0.as_str()) {
                let mut what = lit("`");
                what.append(p.0.as_str());
                what.append("` is not defined \u{2014} cannot extend it.");
                let mut instead = lit("Declare `shape ");
                instead.append(p.0.as_str());
                instead.append(" { ... }` in this file before extending it.");
                push_diag(
                    diags,
                    &p.1,
                    what,
                    instead,
                    lit("`extends` is data-only inheritance \u{2014} the parent shape must be declared in the same file."),
                );
            } else {
                proof {
                    assert(diag_views(diags@) =~= d0 + Seq::<DiagnosticView>::empty());
                }
            }
            Some(p.0.clone())
        },
        None => {
            proof {
                assert(diag_views(diags@) =~= d0 + Seq::<DiagnosticView>::empty());
            }
            None
        },
    };
    let ghost d1 = diag_views(diags@);
    let mut follows: Vec<String> = Vec::new();
    let mut i: usize = 0;
    proof {
        assert(s.follows@.take(0) =~= Seq::<(String, SourceSpan)>::empty());
        assert(diag_views(diags@) =~= d1 + follows_diags(s.follows@.take(0), all_names@));
    }
    while i < s.follows.len()
        invariant
            i <= s.follows@.len(),
            follows@.len() == i,
            forall|j: int| 0 <= j < i ==> (#[trigger] follows@[j])@ == s.follows@[j].0@,
            diag_views(diags@) == d1 + follows_diags(s.follows@.take(i as int), all_names@),
        decreases s.follows@.len() - i,
    {
        proof {
            assert(s.follows@.take(i + 1).drop_last() =~= s.follows@.take(i as int));
            assert(s.follows@.take(i + 1).last() == s.follows@[i as int]);
        }
        let cn = &s.follows[i].0;
        if !all_names.contains(cn.as_str()) {
            let mut what = lit("`");
            what.append(cn.as_str());
            what.append("` is not defined \u{2014} cannot follow it.");
            let mut instead = lit("Declare `shape ");
            instead.append(cn.as_str());
            instead.append(" { ... }` with bare method signatures in this file.");
            push_diag(
                diags,
                &s.follows[i].1,
                what,
                instead,
                lit("`follows` names a contract shape \u{2014} a shape whose body contains only bare method signature declarations."),
            );
        }
        follows.push(cn.clone());
        proof {
            assert(diag_views(diags@) =~= d1 + follows_diags(s.follows@.take(i + 1), all_names@));
        }
        i = i + 1;
    }
    proof {
        assert(s.follows@.take(s.follows@.len() as int) =~= s.follows@);
    }
    let fields = resolve_own_fields(s, name_table, diags);
    let mut sigs: Vec<ContractSigDef> = Vec::new();
    let mut q: usize = 0;
    while q < s.contract_sigs.len()
        invariant
            q <= s.contract_sigs@.len(),
            c == crate::shapes::table_ctx(*name_table),
            sigs@.len() == q,
            forall|j: int| 0 <= j < q ==> (#[trigger] sigs@[j])@ == sig_view_of(s.contract_sigs@[j], c),
        decreases s.contract_sigs@.len() - q,
    {
        sigs.push(resolve_sig(&s.contract_sigs[q], name_table));
        q = q + 1;
    }
    let r = ShapeDef {
        name: s.name.clone(),
        is_base: s.is_base,
        extends,
        follows,
        fields,
        contract_sigs: sigs,
        defined_at: s.name_span.duplicate(),
    };
    proof {
        assert(crate::text::string_views(r.follows@) =~= s.follows@.map_values(|f: (String, SourceSpan)| f.0@));
        assert(sig_views(r.contract_sigs@) =~= s.contract_sigs@.map_values(|sig: ContractSig| sig_view_of(sig, c)));
        assert(diag_views(diags@) =~= d0 + declared_diags(*s, all_names@, c));
    }
    r
}

/// The names of the synthetic shapes.
pub open spec fn anon_names(av: Seq<AnonView>) -> Set<Seq<char>> {
    Set::new(|n: Seq<char>| exists|k: int| 0 <= k < av.len() && #[trigger] av[k].0 == n)
}

/// The diagnostic for a shape name declared twice.
pub open spec fn duplicate_shape_diag(s: ShapeDecl) -> DiagnosticView {
    error_view(
        s.name_span@,
        "A shape named `"@ + s.name@ + "` is already defined in this file."@,
        "Rename one of the two shapes \u{2014} each shape in a file must have a unique name."@,
        "Yinz does not allow two shapes with the same name in the same file."@,
    )
}

/// The shape names of the file, from the synthetic names `syn` on, with a diagnostic for
/// each non-alias declaration whose name is already taken.
pub open spec fn shape_names_fold(items: Seq<Item>, syn: Set<Seq<char>>) -> (Set<Seq<char>>, Seq<DiagnosticView>)
    decreases items.len(),
{
    if items.len() == 0 {
        (syn, Seq::empty())
    } else {
        let (names, ds) = shape_names_fold(items.drop_last(), syn);
        match items.last() {
            Item::ShapeDecl(s) => if s.alias_ty is None {
                if names.contains(s.name@) {
                    (names, ds.push(duplicate_shape_diag(s)))
                } else {
                    (names.insert(s.name@), ds)
                }
            } else {
                (names, ds)
            },
            _ => (names, ds),
        }
    }
}

pub(crate) fn shape_names_pass(items: &Vec<Item>, syn: &Vec<Anon>, diags: &mut Vec<Diagnostic>) -> (names: NameSet)
    ensures
        (names@, diag_views(final(diags)@)) == ({
            let (n, d) = shape_names_fold(items@, anon_names(anon_views(syn@)));
            (n, diag_views(old(diags)@) + d)
        }),
{
    let ghost av = anon_views(syn@);
    let mut names = NameSet::new();
    let mut k: usize = 0;
    while k < syn.len()
        invariant
            k <= syn@.len(),
            av == anon_views(syn@),
            names@ == Set::new(|n: Seq<char>| exists|q: int| 0 <= q < k && #[trigger] av[q].0 == n),
        decreases syn@.len() - k,
    {
        let ghost before = names@;
        names.insert(syn[k].0.clone());
        proof {
            assert(av[k as int].0 == syn@[k as int].0@);
            let next = Set::new(|n: Seq<char>| exists|q: int| 0 <= q < k + 1 && #[trigger] av[q].0 == n);
            assert forall|n: Seq<char>| names@.contains(n) <==> next.contains(n) by {
                if n == av[k as int].0 {
                    assert(av[k as int].0 == n);
                }
                if next.contains(n) {
                    let q = choose|q: int| 0 <= q < k + 1 && #[trigger] av[q].0 == n;
                    if q < k {
                        assert(before.contains(n));
                    }
                }
            }
            assert(names@ =~= next);
        }
        k = k + 1;
    }
    proof {
        assert(names@ =~= anon_names(av));
    }
    let ghost d0 = diag_views(diags@);
    let mut i: usize = 0;
    proof {
        assert(items@.take(0) =~= Seq::<Item>::empty());
        assert(diag_views(diags@) =~= d0 + shape_names_fold(items@.take(0), anon_names(av)).1);
    }
    while i < items.len()
        invariant
            i <= items@.len(),
            names@ == shape_names_fold(items@.take(i as int), anon_names(av)).0,
            diag_views(diags@) == d0 + shape_names_fold(items@.take(i as int), anon_names(av)).1,
        decreases items@.len() - i,
    {
        proof {
            assert(items@.take(i + 1).drop_last() =~= items@.take(i as int));
            assert(items@.take(i + 1).last() == items@[i as int]);
        }
        match &items[i] {
            Item::ShapeDecl(s) => {
                if s.alias_ty.is_none() {
                    if names.contains(s.name.as_str()) {
                        let mut what = lit("A shape named `");
                        what.append(s.name.as_str());
                        what.append("` is already defined in this file.");
                        push_diag(
                            diags,
                            &s.name_span,
                            what,
                            lit("Rename one of the two shapes \u{2014} each shape in a file must have a unique name."),
                            lit("Yinz does not allow two shapes with the same name in the same file."),
                        );
                    } else {
                        names.insert(s.name.clone());
                    }
                }
            },
            _ => {},
        }
        proof {
            assert(diag_views(diags@) =~= d0 + shape_names_fold(items@.take(i + 1), anon_names(av)).1);
        }
        i = i + 1;
    }
    proof {
        assert(items@.take(items@.len() as int) =~= items@);
    }
    names
}

/// The options type names field resolution may use: the module's own and the imported
/// ones.
pub open spec fn options_names_of(items: Seq<Item>, imported: Seq<(String, OptionsEntry)>) -> Set<Seq<char>> {
    Set::new(
        |n: Seq<char>|
            (exists|j: int| 0 <= j < items.len() && #[trigger] options_decl_named(items[j], n)) || exists|k: int|
                0 <= k < imported.len() && #[trigger] imported[k].0@ == n,
    )
}

/// The item is an options declaration named `n`.
pub open spec fn options_decl_named(it: Item, n: Seq<char>) -> bool {
    match it {
        Item::OptionsDecl(o) => o.name@ == n,
        _ => false,
    }
}

pub(crate) fn collect_options_names(items: &Vec<Item>, imported: &Vec<(String, OptionsEntry)>) -> (r: NameSet)
    ensures
        r@ == options_names_of(items@, imported@),
{
    let mut r = NameSet::new();
    let mut i: usize = 0;
    while i < items.len()
        invariant
            i <= items@.len(),
            r@ == Set::new(|n: Seq<char>| exists|j: int| 0 <= j < i && #[trigger] options_decl_named(items@[j], n)),
        decreases items@.len() - i,
    {
        let ghost before = r@;
        match &items[i] {
            Item::OptionsDecl(o) => {
                r.insert(o.name.clone());
            },
            _ => {},
        }
        proof {
            let next = Set::new(|n: Seq<char>| exists|j: int| 0 <= j < i + 1 && #[trigger] options_decl_named(items@[j], n));
            assert forall|n: Seq<char>| r@.contains(n) <==> next.contains(n) by {
                if options_decl_named(items@[i as int], n) {
                    assert(next.contains(n));
                }
                if next.contains(n) {
                    let j = choose|j: int| 0 <= j < i + 1 && #[trigger] options_decl_named(items@[j], n);
                    if j < i {
                        assert(before.contains(n));
                    }
                }
            }
            assert(r@ =~= next);
        }
        i = i + 1;
    }
    let ghost mid = r@;
    let mut k: usize = 0;
    while k < imported.len()
        invariant
            k <= imported@.len(),
            r@ == mid.union(Set::new(|n: Seq<char>| exists|q: int| 0 <= q < k && #[trigger] imported@[q].0@ == n)),
        decreases imported@.len() - k,
    {
        let ghost before = r@;
        r.insert(imported[k].0.clone());
        proof {
            let next = mid.union(Set::new(|n: Seq<char>| exists|q: int| 0 <= q < k + 1 && #[trigger] imported@[q].0@ == n));
            assert forall|n: Seq<char>| r@.contains(n) <==> next.contains(n) by {
                if n == imported@[k as int].0@ {
                    assert(imported@[k as int].0@ == n);
                }
                if exists|q: int| 0 <= q < k + 1 && #[trigger] imported@[q].0@ == n {
                    let q = choose|q: int| 0 <= q < k + 1 && #[trigger] imported@[q].0@ == n;
                    if q < k {
                        assert(before.contains(n));
                    }
                }
            }
            assert(r@ =~= next);
        }
        k = k + 1;
    }
    proof {
        assert(r@ =~= options_names_of(items@, imported@));
    }
    r
}

/// A shape definition that only carries a name: the table that resolves field types sees
/// nothing else.
fn placeholder_shape(name: &String) -> (r: ShapeDef)
    ensures
        r.name@ == name@,
{
    ShapeDef {
        name: name.clone(),
        is_base: false,
        extends: None,
        follows: Vec::new(),
        fields: Vec::new(),
        contract_sigs: Vec::new(),
        defined_at: SourceSpan::new("", 0, 0),
    }
}

/// The table field types resolve against: every shape name of the file, no union
/// aliases, and the options names.
pub(crate) fn make_name_table(all: &NameSet, opts: &NameSet) -> (t: ShapeTable)
    ensures
        crate::shapes::table_ctx(t) == (ResolveCtx { shapes: all@, aliases: Map::empty(), options: opts@ }),
{
    let mut rows: Vec<(String, ShapeDef)> = Vec::new();
    let ghost e = all.entries();
    let mut i: usize = 0;
    while i < all.len()
        invariant
            i <= e.len(),
            e == all.entries(),
            rows@.len() == i,
            forall|j: int| 0 <= j < i ==> (#[trigger] rows@[j]).0@ == e[j],
        decreases e.len() - i,
    {
        let n = all.name_at(i);
        rows.push((n.clone(), placeholder_shape(n)));
        i = i + 1;
    }
    let t = ShapeTable { shapes: rows, union_aliases: Vec::new(), options_names: opts.copy() };
    proof {
        let c = crate::shapes::table_ctx(t);
        assert forall|n: Seq<char>| c.shapes.contains(n) <==> all@.contains(n) by {
            if all@.contains(n) {
                let j = choose|j: int| 0 <= j < e.len() && e[j] == n;
                assert(t.shapes@[j].0@ == n);
                crate::names::lemma_first_exists(t.shapes@, n, j);
                let k = choose|k: int| crate::names::first_at(t.shapes@, n, k);
                crate::names::lemma_lookup_at(t.shapes@, n, k);
            }
            if c.shapes.contains(n) {
                let k = choose|k: int| 0 <= k < t.shapes@.len() && #[trigger] t.shapes@[k].0@ == n;
                assert(e[k] == n);
            }
        }
        assert(c.shapes =~= all@);
        assert(c.aliases =~= Map::<Seq<char>, TypeView>::empty());
    }
    t
}

} // verus!
