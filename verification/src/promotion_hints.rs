//! The auto-promotion hint passes: `let` bindings never reassigned or mutated are marked
//! effectively `const`, and `array<T>` bindings never grown are marked promotable to
//! `fixed`.
use vstd::prelude::*;

use crate::diagnostics::{SourceSpan, SpanView};
use crate::inlay_hints::{hint_position_end_of_stmt_or_before_comment, spec_hint_position, PromotionHint, PromotionKind};
use crate::maybe_mutated::{collect_maybe_mutated, mm_stmts, MutationContext, MutationEnv};
use crate::names::NameSet;
use crate::ownership_fixpoint::local_decls;
use crate::syntax::{AstType, Block, FunctionDecl, Item, MatchArm, Module, Stmt};
use crate::text::{lit, str_eq};
use vstd::string::StringSliceAdditionalSpecFns;

verus! {

/// The model of a [`PromotionHint`]: position, kind, label and the `array` keyword span.
pub open spec fn promotion_view(h: PromotionHint) -> (int, PromotionKind, Seq<char>, Option<SpanView>) {
    (
        h.position as int,
        h.kind,
        h.label@,
        match h.type_keyword_span {
            Some(s) => Some(s@),
            None => None,
        },
    )
}

pub open spec fn promotion_views(v: Seq<PromotionHint>) -> Seq<(int, PromotionKind, Seq<char>, Option<SpanView>)> {
    v.map_values(|h: PromotionHint| promotion_view(h))
}

/// The annotation is `array<…>`.
pub open spec fn ast_is_array(t: AstType) -> bool {
    t matches AstType::Generic { name, .. } && name@ == "array"@
}

/// The hint a statement itself gets (not counting nested blocks): an `array<T>` binding
/// never grown (`array` mode) or a non-`const` binding never mutated.
pub open spec fn hint_here(st: Stmt, mutated: Set<Seq<char>>, text: Seq<u8>, array: bool) -> Seq<
    (int, PromotionKind, Seq<char>, Option<SpanView>),
> {
    match st {
        Stmt::Let { name, ty, is_const, span, .. } => if array {
            match ty {
                Some(t) => if ast_is_array(t) && !mutated.contains(name@) {
                    seq![
                        (
                            spec_hint_position(text, span.start as int),
                            PromotionKind::ArrayToFixed,
                            "// promoted to fixed \u{2014} never grown"@,
                            match t {
                                AstType::Generic { name_span, .. } => Some(name_span@),
                                _ => None,
                            },
                        ),
                    ]
                } else {
                    Seq::empty()
                },
                None => Seq::empty(),
            }
        } else if !is_const && !mutated.contains(name@) {
            seq![
                (
                    spec_hint_position(text, span.start as int),
                    PromotionKind::LetToConst,
                    "// effectively const \u{2014} never reassigned"@,
                    None,
                ),
            ]
        } else {
            Seq::empty()
        },
        _ => Seq::empty(),
    }
}

/// The hints of a statement: its own, then those of its nested blocks.
pub open spec fn hints_stmt(st: Stmt, mutated: Set<Seq<char>>, text: Seq<u8>, array: bool) -> Seq<
    (int, PromotionKind, Seq<char>, Option<SpanView>),
>
    decreases st,
{
    hint_here(st, mutated, text, array) + match st {
        Stmt::If { body, .. } => hints_stmts(body.stmts@, mutated, text, array),
        Stmt::While { body, .. } => hints_stmts(body.stmts@, mutated, text, array),
        Stmt::For { body, .. } => hints_stmts(body.stmts@, mutated, text, array),
        Stmt::Match { arms, else_arm, .. } => hints_arms(arms@, mutated, text, array) + match else_arm {
            Some(b) => hints_stmts(b.stmts@, mutated, text, array),
            None => Seq::empty(),
        },
        _ => Seq::empty(),
    }
}

pub open spec fn hints_stmts(s: Seq<Stmt>, mutated: Set<Seq<char>>, text: Seq<u8>, array: bool) -> Seq<
    (int, PromotionKind, Seq<char>, Option<SpanView>),
>
    decreases s,
{
    if s.len() == 0 {
        Seq::empty()
    } else {
        hints_stmts(s.subrange(0, s.len() - 1), mutated, text, array) + hints_stmt(s[s.len() - 1], mutated, text, array)
    }
}

pub open spec fn hints_arms(s: Seq<MatchArm>, mutated: Set<Seq<char>>, text: Seq<u8>, array: bool) -> Seq<
    (int, PromotionKind, Seq<char>, Option<SpanView>),
>
    decreases s,
{
    if s.len() == 0 {
        Seq::empty()
    } else {
        hints_arms(s.subrange(0, s.len() - 1), mutated, text, array) + hints_stmts(
            s[s.len() - 1].body.stmts@,
            mutated,
            text,
            array,
        )
    }
}

/// Every `let` of the statement (nested blocks included) starts inside the text.
pub open spec fn stmt_lets_within(st: Stmt, n: int) -> bool
    decreases st,
{
    match st {
        Stmt::Let { span, .. } => span.start <= n,
        Stmt::If { body, .. } => stmts_lets_within(body.stmts@, n),
        Stmt::While { body, .. } => stmts_lets_within(body.stmts@, n),
        Stmt::For { body, .. } => stmts_lets_within(body.stmts@, n),
        Stmt::Match { arms, else_arm, .. } => arms_lets_within(arms@, n) && match else_arm {
            Some(b) => stmts_lets_within(b.stmts@, n),
            None => true,
        },
        _ => true,
    }
}

pub open spec fn stmts_lets_within(s: Seq<Stmt>, n: int) -> bool
    decreases s,
{
    if s.len() == 0 {
        true
    } else {
        stmts_lets_within(s.subrange(0, s.len() - 1), n) && stmt_lets_within(s[s.len() - 1], n)
    }
}

pub open spec fn arms_lets_within(s: Seq<MatchArm>, n: int) -> bool
    decreases s,
{
    if s.len() == 0 {
        true
    } else {
        arms_lets_within(s.subrange(0, s.len() - 1), n) && stmts_lets_within(s[s.len() - 1].body.stmts@, n)
    }
}

proof fn lemma_stmts_within(s: Seq<Stmt>, n: int)
    requires
        stmts_lets_within(s, n),
    ensures
        forall|k: int| 0 <= k < s.len() ==> stmt_lets_within(#[trigger] s[k], n),
    decreases s.len(),
{
    if s.len() > 0 {
        let pre = s.subrange(0, s.len() - 1);
        lemma_stmts_within(pre, n);
        assert forall|k: int| 0 <= k < s.len() implies stmt_lets_within(#[trigger] s[k], n) by {
            if k < s.len() - 1 {
                assert(pre[k] == s[k]);
            }
        }
    }
}

proof fn lemma_arms_within(s: Seq<MatchArm>, n: int)
    requires
        arms_lets_within(s, n),
    ensures
        forall|k: int| 0 <= k < s.len() ==> stmts_lets_within(#[trigger] s[k].body.stmts@, n),
    decreases s.len(),
{
    if s.len() > 0 {
        let pre = s.subrange(0, s.len() - 1);
        lemma_arms_within(pre, n);
        assert forall|k: int| 0 <= k < s.len() implies stmts_lets_within(#[trigger] s[k].body.stmts@, n) by {
            if k < s.len() - 1 {
                assert(pre[k] == s[k]);
            }
        }
    }
}

fn is_array_annotation(t: &AstType) -> (b: bool)
    ensures
        b == ast_is_array(*t),
{
    match t {
        AstType::Generic { name, .. } => str_eq(name.as_str(), "array"),
        _ => false,
    }
}

fn hints_here_exec(st: &Stmt, mutated: &NameSet, text: &str, array: bool, out: &mut Vec<PromotionHint>)
    requires
        stmt_lets_within(*st, text.spec_bytes().len() as int),
    ensures
        promotion_views(final(out)@) == promotion_views(old(out)@) + hint_here(*st, mutated@, text.spec_bytes(), array),
{
    let ghost before = out@;
    match st {
        Stmt::Let { name, ty, is_const, span, .. } => {
            if array {
                match ty {
                    Some(t) => {
                        if is_array_annotation(t) && !mutated.contains(name.as_str()) {
                            let ks = match t {
                                AstType::Generic { name_span, .. } => Some(name_span.duplicate()),
                                _ => None,
                            };
                            let h = PromotionHint {
                                position: hint_position_end_of_stmt_or_before_comment(text, span.start),
                                kind: PromotionKind::ArrayToFixed,
                                label: lit("// promoted to fixed \u{2014} never grown"),
                                type_keyword_span: ks,
                            };
                            out.push(h);
                            proof {
                                assert(promotion_views(out@) =~= promotion_views(before).push(promotion_view(h)));
                            }
                            return ;
                        }
                    },
                    None => {},
                }
            } else if !*is_const && !mutated.contains(name.as_str()) {
                let h = PromotionHint {
                    position: hint_position_end_of_stmt_or_before_comment(text, span.start),
                    kind: PromotionKind::LetToConst,
                    label: lit("// effectively const \u{2014} never reassigned"),
                    type_keyword_span: None,
                };
                out.push(h);
                proof {
                    assert(promotion_views(out@) =~= promotion_views(before).push(promotion_view(h)));
                }
                return ;
            }
        },
        _ => {},
    }
    proof {
        assert(promotion_views(out@) =~= promotion_views(before) + hint_here(*st, mutated@, text.spec_bytes(), array));
    }
}

fn hints_stmt_exec(st: &Stmt, mutated: &NameSet, text: &str, array: bool, out: &mut Vec<PromotionHint>)
    requires
        stmt_lets_within(*st, text.spec_bytes().len() as int),
    ensures
        promotion_views(final(out)@) == promotion_views(old(out)@) + hints_stmt(*st, mutated@, text.spec_bytes(), array),
    decreases st,
{
    let ghost o = promotion_views(out@);
    hints_here_exec(st, mutated, text, array, out);
    let ghost mid = promotion_views(out@);
    match st {
        Stmt::If { body, .. } => hints_stmts_exec(&body.stmts, mutated, text, array, out),
        Stmt::While { body, .. } => hints_stmts_exec(&body.stmts, mutated, text, array, out),
        Stmt::For { body, .. } => hints_stmts_exec(&body.stmts, mutated, text, array, out),
        Stmt::Match { arms, else_arm, .. } => {
            hints_arms_exec(arms, mutated, text, array, out);
            match else_arm {
                Some(b) => hints_stmts_exec(&b.stmts, mutated, text, array, out),
                None => {},
            }
        },
        _ => {},
    }
    proof {
        assert(promotion_views(out@) =~= o + hints_stmt(*st, mutated@, text.spec_bytes(), array));
    }
}

fn hints_stmts_exec(v: &Vec<Stmt>, mutated: &NameSet, text: &str, array: bool, out: &mut Vec<PromotionHint>)
    requires
        stmts_lets_within(v@, text.spec_bytes().len() as int),
    ensures
        promotion_views(final(out)@) == promotion_views(old(out)@) + hints_stmts(v@, mutated@, text.spec_bytes(), array),
    decreases v,
{
    let ghost o = promotion_views(out@);
    let ghost n = text.spec_bytes().len() as int;
    let mut i: usize = 0;
    proof {
        lemma_stmts_within(v@, n);
        assert(v@.subrange(0, 0) =~= Seq::<Stmt>::empty());
        assert(promotion_views(out@) =~= o + hints_stmts(v@.subrange(0, 0), mutated@, text.spec_bytes(), array));
    }
    while i < v.len()
        invariant
            i <= v@.len(),
            n == text.spec_bytes().len() as int,
            forall|k: int| 0 <= k < v@.len() ==> stmt_lets_within(#[trigger] v@[k], n),
            promotion_views(out@) == o + hints_stmts(v@.subrange(0, i as int), mutated@, text.spec_bytes(), array),
        decreases v@.len() - i,
    {
        proof {
            let pre = v@.subrange(0, i + 1);
            assert(pre.subrange(0, i as int) =~= v@.subrange(0, i as int));
            assert(pre[i as int] == v@[i as int]);
        }
        hints_stmt_exec(&v[i], mutated, text, array, out);
        proof {
            assert(promotion_views(out@) =~= o + hints_stmts(v@.subrange(0, i + 1), mutated@, text.spec_bytes(), array));
        }
        i = i + 1;
    }
    proof {
        assert(v@.subrange(0, v@.len() as int) =~= v@);
    }
}

fn hints_arms_exec(v: &Vec<MatchArm>, mutated: &NameSet, text: &str, array: bool, out: &mut Vec<PromotionHint>)
    requires
        arms_lets_within(v@, text.spec_bytes().len() as int),
    ensures
        promotion_views(final(out)@) == promotion_views(old(out)@) + hints_arms(v@, mutated@, text.spec_bytes(), array),
    decreases v,
{
    let ghost o = promotion_views(out@);
    let ghost n = text.spec_bytes().len() as int;
    let mut i: usize = 0;
    proof {
        lemma_arms_within(v@, n);
        assert(v@.subrange(0, 0) =~= Seq::<MatchArm>::empty());
        assert(promotion_views(out@) =~= o + hints_arms(v@.subrange(0, 0), mutated@, text.spec_bytes(), array));
    }
    while i < v.len()
        invariant
            i <= v@.len(),
            n == text.spec_bytes().len() as int,
            forall|k: int| 0 <= k < v@.len() ==> stmts_lets_within(#[trigger] v@[k].body.stmts@, n),
            promotion_views(out@) == o + hints_arms(v@.subrange(0, i as int), mutated@, text.spec_bytes(), array),
        decreases v@.len() - i,
    {
        proof {
            let pre = v@.subrange(0, i + 1);
            assert(pre.subrange(0, i as int) =~= v@.subrange(0, i as int));
            assert(pre[i as int] == v@[i as int]);
        }
        hints_stmts_exec(&v[i].body.stmts, mutated, text, array, out);
        proof {
            assert(promotion_views(out@) =~= o + hints_arms(v@.subrange(0, i + 1), mutated@, text.spec_bytes(), array));
        }
        i = i + 1;
    }
    proof {
        assert(v@.subrange(0, v@.len() as int) =~= v@);
    }
}

/// The promotion hints of the functions, in order: each function's hints against the
/// names its body may mutate.
pub open spec fn module_promotion_hints(decls: Seq<FunctionDecl>, env: MutationEnv, text: Seq<u8>, array: bool) -> Seq<
    (int, PromotionKind, Seq<char>, Option<SpanView>),
>
    decreases decls.len(),
{
    if decls.len() == 0 {
        Seq::empty()
    } else {
        let f = decls.last();
        module_promotion_hints(decls.drop_last(), env, text, array) + hints_stmts(
            f.body.stmts@,
            mm_stmts(f.body.stmts@, env),
            text,
            array,
        )
    }
}

/// Every `let` in the functions starts inside the text.
pub open spec fn lets_within_module(decls: Seq<FunctionDecl>, n: int) -> bool {
    forall|k: int| 0 <= k < decls.len() ==> stmts_lets_within(#[trigger] decls[k].body.stmts@, n)
}

fn module_promotion_hints_exec(module: &Module, ctx: &MutationContext, text: &str, array: bool) -> (r: Vec<PromotionHint>)
    requires
        lets_within_module(local_decls(module.items@), text.spec_bytes().len() as int),
    ensures
        promotion_views(r@) == module_promotion_hints(local_decls(module.items@), ctx@, text.spec_bytes(), array),
{
    let ghost decls = local_decls(module.items@);
    let positions = crate::ownership_fixpoint::function_item_positions(module);
    let mut out: Vec<PromotionHint> = Vec::new();
    let mut k: usize = 0;
    proof {
        assert(decls.take(0) =~= Seq::<FunctionDecl>::empty());
        assert(promotion_views(out@) =~= module_promotion_hints(decls.take(0), ctx@, text.spec_bytes(), array));
    }
    while k < positions.len()
        invariant
            k <= positions@.len(),
            decls == local_decls(module.items@),
            crate::ownership_fixpoint::positions_of(module.items@, positions@),
            lets_within_module(decls, text.spec_bytes().len() as int),
            promotion_views(out@) == module_promotion_hints(decls.take(k as int), ctx@, text.spec_bytes(), array),
        decreases positions@.len() - k,
    {
        match &module.items[positions[k]] {
            Item::Function(f) => {
                proof {
                    assert(*f == decls[k as int]);
                    assert(decls.take(k + 1).drop_last() =~= decls.take(k as int));
                    assert(decls.take(k + 1).last() == *f);
                }
                let mutated = collect_maybe_mutated(&f.body, ctx);
                hints_stmts_exec(&f.body.stmts, &mutated, text, array, &mut out);
            },
            _ => {
                proof {
                    assert(false);
                }
            },
        }
        k = k + 1;
    }
    proof {
        assert(decls.take(k as int) =~= decls);
    }
    out
}

/// `// effectively const` decorations on the non-`const` `let` bindings that nothing
/// reassigns or mutates (an assignment, a mutating method receiver, a `lend` or `give`
/// argument, or an unresolvable callee counts as mutation), function by function.
pub fn let_to_const_promotion_hints(module: &Module, ctx: &MutationContext, text: &str) -> (r: Vec<PromotionHint>)
    requires
        lets_within_module(local_decls(module.items@), text.spec_bytes().len() as int),
    ensures
        promotion_views(r@) == module_promotion_hints(local_decls(module.items@), ctx@, text.spec_bytes(), false),
{
    module_promotion_hints_exec(module, ctx, text, false)
}

/// `// promoted to fixed` decorations on the `array<T>`-annotated `let` bindings that are
/// never grown, each with the span of the `array` keyword to replace, function by function.
pub fn array_to_fixed_promotion_hints(module: &Module, ctx: &MutationContext, text: &str) -> (r: Vec<PromotionHint>)
    requires
        lets_within_module(local_decls(module.items@), text.spec_bytes().len() as int),
    ensures
        promotion_views(r@) == module_promotion_hints(local_decls(module.items@), ctx@, text.spec_bytes(), true),
{
    module_promotion_hints_exec(module, ctx, text, true)
}

} // verus!
