//! What the type pass reports and passes on once the analyses of a module have run: the
//! signature table with imported functions merged in and the analysis flags folded into
//! it, the declared write positions of imported functions, and the three-part diagnostics
//! for mutual suspension cycles, transitive `share` violations, aliasing calls and unused
//! imports.
use vstd::prelude::*;

use crate::aliasing::AliasingCallViolation;
use crate::diagnostics::{diag_views, error_view, Diagnostic, DiagnosticView, Severity, SourceSpan, SpanView};
use crate::effective_ownership::AliasArgKind;
use crate::may_block::{member_views, MutualSuspensionCycle};
use crate::names::NameSet;
use crate::ownership_fixpoint::{is_write_modifier, local_decls};
use crate::shape_collection::push_diag;
use crate::shape_passes::{row_index, row_position, row_views};
use crate::shapes::{spec_resolve_ast_type, ShapeTable};
use crate::share_violations::TransitiveShareViolation;
use crate::signature_collection::FunctionSigView;
use crate::signatures::{FunctionSig, SignatureTable};
use crate::syntax::{FunctionDecl, ImportDecl, ImportItem, ImportKind, Item, Module, OwnershipModifier};
use crate::text::{join_with, lit, spec_join_with, str_eq, string_views};
use crate::types::{render_type, spec_render_type};

verus! {

/// The local rows followed, in order, by each imported row whose name no row before it
/// carries (a local declaration wins).
pub open spec fn with_imported(
    acc: Seq<(Seq<char>, FunctionSigView)>,
    imported: Seq<(Seq<char>, FunctionSigView)>,
) -> Seq<(Seq<char>, FunctionSigView)>
    decreases imported.len(),
{
    if imported.len() == 0 {
        acc
    } else {
        let a = with_imported(acc, imported.drop_last());
        let r = imported.last();
        if row_index(a, r.0) >= 0 {
            a
        } else {
            a.push(r)
        }
    }
}

/// A row with the analysis flags folded in: it suspends or does real work when it already
/// did or the analysis says so.
pub open spec fn flag_row(
    r: (Seq<char>, FunctionSigView),
    suspends: Set<Seq<char>>,
    real_work: Set<Seq<char>>,
) -> (Seq<char>, FunctionSigView) {
    (
        r.0,
        FunctionSigView {
            suspends: r.1.suspends || suspends.contains(r.0),
            does_real_work: r.1.does_real_work || real_work.contains(r.0),
            ..r.1
        },
    )
}

/// The merged signature rows.
pub open spec fn spec_merge(
    local: Seq<(Seq<char>, FunctionSigView)>,
    imported: Seq<(Seq<char>, FunctionSigView)>,
    suspends: Set<Seq<char>>,
    real_work: Set<Seq<char>>,
) -> Seq<(Seq<char>, FunctionSigView)> {
    with_imported(local, imported).map_values(|r: (Seq<char>, FunctionSigView)| flag_row(r, suspends, real_work))
}

/// The signature table the body check reads: the local signatures, the imported ones
/// that no local declaration shadows, and on every row the `suspends` and
/// `does_real_work` flags joined with the analyses' results.
pub fn merge_imported_sigs(
    local: &SignatureTable,
    imported: &Vec<(String, FunctionSig)>,
    suspends: &NameSet,
    real_work: &NameSet,
) -> (r: SignatureTable)
    ensures
        row_views(r.fns@) == spec_merge(row_views(local.fns@), row_views(imported@), suspends@, real_work@),
{
    let mut rows: Vec<(String, FunctionSig)> = Vec::new();
    let mut i: usize = 0;
    while i < local.fns.len()
        invariant
            i <= local.fns@.len(),
            row_views(rows@) == row_views(local.fns@).take(i as int),
        decreases local.fns@.len() - i,
    {
        let name = local.fns[i].0.clone();
        let sig = local.fns[i].1.duplicate();
        proof {
            assert((name@, sig@) == row_views(local.fns@)[i as int]);
        }
        let ghost before = rows@;
        rows.push((name, sig));
        proof {
            assert(row_views(rows@) =~= row_views(before).push(row_views(local.fns@)[i as int]));
            assert(row_views(rows@) =~= row_views(local.fns@).take(i + 1));
        }
        i = i + 1;
    }
    proof {
        assert(row_views(local.fns@).take(i as int) =~= row_views(local.fns@));
    }
    let ghost lv = row_views(local.fns@);
    let ghost iv = row_views(imported@);
    let mut j: usize = 0;
    while j < imported.len()
        invariant
            j <= imported@.len(),
            iv == row_views(imported@),
            row_views(rows@) == with_imported(lv, iv.take(j as int)),
        decreases imported@.len() - j,
    {
        proof {
            assert(iv.take(j + 1).drop_last() =~= iv.take(j as int));
        }
        match row_position(&rows, imported[j].0.as_str()) {
            Some(_) => {},
            None => {
                let row = (imported[j].0.clone(), imported[j].1.duplicate());
                rows.push(row);
                proof {
                    assert(row_views(rows@) =~= with_imported(lv, iv.take(j as int)).push(iv[j as int]));
                }
            },
        }
        j = j + 1;
    }
    proof {
        assert(iv.take(j as int) =~= iv);
    }
    let ghost merged = row_views(rows@);
    let mut out: Vec<(String, FunctionSig)> = Vec::new();
    let mut k: usize = 0;
    while k < rows.len()
        invariant
            k <= rows@.len(),
            merged == row_views(rows@),
            row_views(out@) == merged.take(k as int).map_values(
                |r: (Seq<char>, FunctionSigView)| flag_row(r, suspends@, real_work@),
            ),
        decreases rows@.len() - k,
    {
        let mut sig = rows[k].1.duplicate();
        sig.suspends = sig.suspends || suspends.contains(rows[k].0.as_str());
        sig.does_real_work = sig.does_real_work || real_work.contains(rows[k].0.as_str());
        let name = rows[k].0.clone();
        proof {
            assert((name@, sig@) == flag_row(merged[k as int], suspends@, real_work@));
        }
        let ghost before = out@;
        out.push((name, sig));
        proof {
            assert(row_views(out@) =~= row_views(before).push(flag_row(merged[k as int], suspends@, real_work@)));
            assert(row_views(out@) =~= merged.take(k + 1).map_values(
                |r: (Seq<char>, FunctionSigView)| flag_row(r, suspends@, real_work@),
            ));
        }
        k = k + 1;
    }
    proof {
        assert(merged.take(k as int) =~= merged);
    }
    SignatureTable { fns: out }
}

/// The parameter positions among the first `n` whose modifier is `lend` or `give`, in
/// increasing order.
pub open spec fn write_positions_upto(o: Seq<Option<OwnershipModifier>>, n: int) -> Seq<usize>
    decreases n,
{
    if n <= 0 {
        Seq::empty()
    } else {
        let p = write_positions_upto(o, n - 1);
        if is_write_modifier(o[n - 1]) {
            p.push((n - 1) as usize)
        } else {
            p
        }
    }
}

/// The models of named position lists.
pub open spec fn position_rows(v: Seq<(String, Vec<usize>)>) -> Seq<(Seq<char>, Seq<usize>)> {
    v.map_values(|r: (String, Vec<usize>)| (r.0@, r.1@))
}

/// The declared write positions with, in order, each imported function that no row before
/// it names: its `lend` and `give` parameter positions.
pub open spec fn with_imported_writes(
    acc: Seq<(Seq<char>, Seq<usize>)>,
    imported: Seq<(Seq<char>, FunctionSigView)>,
) -> Seq<(Seq<char>, Seq<usize>)>
    decreases imported.len(),
{
    if imported.len() == 0 {
        acc
    } else {
        let a = with_imported_writes(acc, imported.drop_last());
        let r = imported.last();
        if row_index(a, r.0) >= 0 {
            a
        } else {
            a.push((r.0, write_positions_upto(r.1.param_ownerships, r.1.param_ownerships.len() as int)))
        }
    }
}

fn write_positions(o: &Vec<Option<OwnershipModifier>>) -> (r: Vec<usize>)
    ensures
        r@ == write_positions_upto(o@, o@.len() as int),
{
    let mut out: Vec<usize> = Vec::new();
    let mut i: usize = 0;
    while i < o.len()
        invariant
            i <= o@.len(),
            out@ == write_positions_upto(o@, i as int),
        decreases o@.len() - i,
    {
        let w = match o[i] {
            Some(OwnershipModifier::Lend) => true,
            Some(OwnershipModifier::Give) => true,
            _ => false,
        };
        if w {
            out.push(i);
        }
        i = i + 1;
    }
    out
}

fn position_row_index(rows: &Vec<(String, Vec<usize>)>, name: &str) -> (found: bool)
    ensures
        found == (row_index(position_rows(rows@), name@) >= 0),
{
    let ghost v = position_rows(rows@);
    let mut i: usize = 0;
    while i < rows.len()
        invariant
            i <= rows@.len(),
            v == position_rows(rows@),
            forall|t: int| 0 <= t < i ==> #[trigger] v[t].0 != name@,
        decreases rows@.len() - i,
    {
        if str_eq(rows[i].0.as_str(), name) {
            proof {
                assert(v[i as int].0 == name@);
                crate::shape_passes::lemma_row_index(v, name@);
            }
            return true;
        }
        i = i + 1;
    }
    proof {
        crate::shape_passes::lemma_row_index(v, name@);
    }
    false
}

fn copy_positions(v: &Vec<usize>) -> (r: Vec<usize>)
    ensures
        r@ == v@,
{
    let mut out: Vec<usize> = Vec::new();
    let mut i: usize = 0;
    while i < v.len()
        invariant
            i <= v@.len(),
            out@ == v@.take(i as int),
        decreases v@.len() - i,
    {
        out.push(v[i]);
        proof {
            assert(out@ =~= v@.take(i + 1));
        }
        i = i + 1;
    }
    proof {
        assert(v@.take(i as int) =~= v@);
    }
    out
}

/// The explicit-write seed of the ownership fixpoint over local and imported functions:
/// the local functions' declared write positions, then each imported function that no
/// earlier row names, with the positions its signature declares `lend` or `give`.
pub fn imported_declared_writes(
    declared: &Vec<(String, Vec<usize>)>,
    imported: &Vec<(String, FunctionSig)>,
) -> (r: Vec<(String, Vec<usize>)>)
    ensures
        position_rows(r@) == with_imported_writes(position_rows(declared@), row_views(imported@)),
{
    let mut rows: Vec<(String, Vec<usize>)> = Vec::new();
    let mut i: usize = 0;
    while i < declared.len()
        invariant
            i <= declared@.len(),
            position_rows(rows@) == position_rows(declared@).take(i as int),
        decreases declared@.len() - i,
    {
        let name = declared[i].0.clone();
        let ps = copy_positions(&declared[i].1);
        proof {
            assert((name@, ps@) == position_rows(declared@)[i as int]);
        }
        let ghost before = rows@;
        rows.push((name, ps));
        proof {
            assert(position_rows(rows@) =~= position_rows(before).push(position_rows(declared@)[i as int]));
            assert(position_rows(rows@) =~= position_rows(declared@).take(i + 1));
        }
        i = i + 1;
    }
    proof {
        assert(position_rows(declared@).take(i as int) =~= position_rows(declared@));
    }
    let ghost dv = position_rows(declared@);
    let ghost iv = row_views(imported@);
    let mut j: usize = 0;
    while j < imported.len()
        invariant
            j <= imported@.len(),
            iv == row_views(imported@),
            position_rows(rows@) == with_imported_writes(dv, iv.take(j as int)),
        decreases imported@.len() - j,
    {
        proof {
            assert(iv.take(j + 1).drop_last() =~= iv.take(j as int));
        }
        if !position_row_index(&rows, imported[j].0.as_str()) {
            let ps = write_positions(&imported[j].1.param_ownerships);
            let name = imported[j].0.clone();
            let ghost row = (iv[j as int].0, write_positions_upto(iv[j as int].1.param_ownerships, iv[j as int].1.param_ownerships.len() as int));
            proof {
                assert(iv[j as int].1.param_ownerships == imported@[j as int].1.param_ownerships@);
                assert((name@, ps@) == row);
            }
            let ghost before = rows@;
            rows.push((name, ps));
            proof {
                assert(position_rows(rows@) =~= position_rows(before).push(row));
            }
        }
        j = j + 1;
    }
    proof {
        assert(iv.take(j as int) =~= iv);
    }
    rows
}

/// The name span of the last local function named `n` (a later declaration of the name
/// wins).
pub open spec fn last_fn_span(decls: Seq<FunctionDecl>, n: Seq<char>) -> Option<SpanView>
    decreases decls.len(),
{
    if decls.len() == 0 {
        None
    } else if decls.last().name@ == n {
        Some(decls.last().name_span@)
    } else {
        last_fn_span(decls.drop_last(), n)
    }
}

pub open spec fn cycle_member_diag(member: Seq<char>, members: Seq<Seq<char>>, span: SpanView) -> DiagnosticView {
    error_view(
        span,
        "`"@ + member + "` is part of a mutually-recursive suspending cycle with `"@ + spec_join_with(members, "`, `"@) + "`."@,
        "Restructure so the recursion is self-recursive (a single function calling itself \u{2014} self-recursion is supported), or remove the `wait` call from the cycle so it is no longer suspending."@,
        "Self-recursive suspending functions work correctly. Mutually-recursive suspending cycles \u{2014} where two or more DIFFERENT functions call each other and all suspend \u{2014} are rare in practice and can always be restructured: extract the shared logic into a helper, make one of the functions non-suspending, or use a self-recursive form instead."@,
    )
}

/// One diagnostic for each of the first `k` members of a cycle that is a local function,
/// at its declaration.
pub open spec fn member_diags(decls: Seq<FunctionDecl>, members: Seq<Seq<char>>, k: int) -> Seq<DiagnosticView>
    decreases k,
{
    if k <= 0 {
        Seq::empty()
    } else {
        let p = member_diags(decls, members, k - 1);
        match last_fn_span(decls, members[k - 1]) {
            Some(sp) => p.push(cycle_member_diag(members[k - 1], members, sp)),
            None => p,
        }
    }
}

/// The diagnostics of the cycles, cycle by cycle.
pub open spec fn cycle_diags(decls: Seq<FunctionDecl>, cycles: Seq<Seq<Seq<char>>>) -> Seq<DiagnosticView>
    decreases cycles.len(),
{
    if cycles.len() == 0 {
        Seq::empty()
    } else {
        cycle_diags(decls, cycles.drop_last()) + member_diags(decls, cycles.last(), cycles.last().len() as int)
    }
}

/// The members of each cycle.
pub open spec fn cycle_views(cycles: Seq<MutualSuspensionCycle>) -> Seq<Seq<Seq<char>>> {
    cycles.map_values(|c: MutualSuspensionCycle| member_views(c))
}

fn last_fn_span_exec<'a>(module: &'a Module, positions: &Vec<usize>, name: &str) -> (r: Option<&'a SourceSpan>)
    requires
        crate::ownership_fixpoint::positions_of(module.items@, positions@),
    ensures
        match r {
            Some(sp) => last_fn_span(local_decls(module.items@), name@) == Some(sp@),
            None => last_fn_span(local_decls(module.items@), name@) is None,
        },
{
    let ghost decls = local_decls(module.items@);
    let mut k: usize = positions.len();
    proof {
        assert(decls.take(k as int) =~= decls);
    }
    while k > 0
        invariant
            k <= positions@.len(),
            decls == local_decls(module.items@),
            crate::ownership_fixpoint::positions_of(module.items@, positions@),
            last_fn_span(decls, name@) == last_fn_span(decls.take(k as int), name@),
        decreases k,
    {
        let idx = k - 1;
        proof {
            assert(decls.take(k as int).last() == decls[idx as int]);
            assert(decls.take(k as int).drop_last() =~= decls.take(idx as int));
        }
        match &module.items[positions[idx]] {
            Item::Function(f) => {
                proof {
                    assert(*f == decls[idx as int]);
                }
                if str_eq(f.name.as_str(), name) {
                    return Some(&f.name_span);
                }
            },
            _ => {
                proof {
                    assert(false);
                }
            },
        }
        k = idx;
    }
    None
}

/// One teaching error for each member of each mutual suspension cycle that is a local
/// function, at that function's name, naming all the cycle's members.
pub fn mutual_cycle_diagnostics(module: &Module, cycles: &Vec<MutualSuspensionCycle>) -> (r: Vec<Diagnostic>)
    ensures
        diag_views(r@) == cycle_diags(local_decls(module.items@), cycle_views(cycles@)),
{
    let ghost decls = local_decls(module.items@);
    let ghost cv = cycle_views(cycles@);
    let positions = crate::ownership_fixpoint::function_item_positions(module);
    let mut out: Vec<Diagnostic> = Vec::new();
    let mut c: usize = 0;
    proof {
        assert(diag_views(out@) =~= Seq::<DiagnosticView>::empty());
    }
    while c < cycles.len()
        invariant
            c <= cycles@.len(),
            decls == local_decls(module.items@),
            cv == cycle_views(cycles@),
            crate::ownership_fixpoint::positions_of(module.items@, positions@),
            diag_views(out@) == cycle_diags(decls, cv.take(c as int)),
        decreases cycles@.len() - c,
    {
        let members = &cycles[c].members;
        let ghost mv = string_views(members@);
        let ghost base = diag_views(out@);
        proof {
            assert(cv[c as int] == mv);
        }
        let display = join_with(members, "`, `");
        let mut m: usize = 0;
        while m < members.len()
            invariant
                m <= members@.len(),
                mv == string_views(members@),
                decls == local_decls(module.items@),
                crate::ownership_fixpoint::positions_of(module.items@, positions@),
                display@ == spec_join_with(mv, "`, `"@),
                diag_views(out@) == base + member_diags(decls, mv, m as int),
            decreases members@.len() - m,
        {
            proof {
                assert(mv[m as int] == members@[m as int]@);
            }
            match last_fn_span_exec(module, &positions, members[m].as_str()) {
                Some(sp) => {
                    let mut what = lit("`");
                    what.append(members[m].as_str());
                    what.append("` is part of a mutually-recursive suspending cycle with `");
                    what.append(display.as_str());
                    what.append("`.");
                    let ghost before = diag_views(out@);
                    push_diag(
                        &mut out,
                        sp,
                        what,
                        lit(
                            "Restructure so the recursion is self-recursive (a single function calling itself \u{2014} self-recursion is supported), or remove the `wait` call from the cycle so it is no longer suspending.",
                        ),
                        lit(
                            "Self-recursive suspending functions work correctly. Mutually-recursive suspending cycles \u{2014} where two or more DIFFERENT functions call each other and all suspend \u{2014} are rare in practice and can always be restructured: extract the shared logic into a helper, make one of the functions non-suspending, or use a self-recursive form instead.",
                        ),
                    );
                    proof {
                        assert(diag_views(out@) =~= base + member_diags(decls, mv, m + 1));
                    }
                },
                None => {},
            }
            m = m + 1;
        }
        proof {
            assert(cv.take(c + 1).drop_last() =~= cv.take(c as int));
            assert(cv.take(c + 1).last() == mv);
            assert(mv.len() == m);
        }
        c = c + 1;
    }
    proof {
        assert(cv.take(c as int) =~= cv);
    }
    out
}

pub open spec fn share_violation_diag(v: TransitiveShareViolation, t: ShapeTable) -> DiagnosticView {
    error_view(
        v.span@,
        "`"@ + v.param_name@ + "` is declared `share` (read-only) but it is modified through `"@ + v.callee_name@ + "`."@,
        "Change the parameter to `lend "@ + v.param_name@ + ": "@ + spec_render_type(spec_resolve_ast_type(t, *v.param_type))
            + "` \u{2014} the function (directly or through a call) writes to it."@,
        "A `share` parameter is a read-only borrow; the caller trusts the value is unchanged. Because `"@ + v.callee_name@
            + "` modifies `"@ + v.param_name@
            + "`, this function lends it onward \u{2014} declare `lend` so the write is visible at every call site."@,
    )
}

/// One teaching error for each transitive `share` violation, in order; the suggested
/// `lend` declaration renders the parameter's type as the shape table resolves it.
pub fn share_violation_diagnostics(violations: &Vec<TransitiveShareViolation>, shapes: &ShapeTable) -> (r: Vec<Diagnostic>)
    ensures
        diag_views(r@) == violations@.map_values(|v: TransitiveShareViolation| share_violation_diag(v, *shapes)),
{
    let mut out: Vec<Diagnostic> = Vec::new();
    let mut i: usize = 0;
    while i < violations.len()
        invariant
            i <= violations@.len(),
            diag_views(out@) == violations@.take(i as int).map_values(
                |v: TransitiveShareViolation| share_violation_diag(v, *shapes),
            ),
        decreases violations@.len() - i,
    {
        let v = &violations[i];
        let ty = render_type(&shapes.resolve_ast_type(v.param_type));
        let mut what = lit("`");
        what.append(v.param_name.as_str());
        what.append("` is declared `share` (read-only) but it is modified through `");
        what.append(v.callee_name.as_str());
        what.append("`.");
        let mut instead = lit("Change the parameter to `lend ");
        instead.append(v.param_name.as_str());
        instead.append(": ");
        instead.append(ty.as_str());
        instead.append("` \u{2014} the function (directly or through a call) writes to it.");
        let mut why = lit("A `share` parameter is a read-only borrow; the caller trusts the value is unchanged. Because `");
        why.append(v.callee_name.as_str());
        why.append("` modifies `");
        why.append(v.param_name.as_str());
        why.append("`, this function lends it onward \u{2014} declare `lend` so the write is visible at every call site.");
        let ghost before = diag_views(out@);
        push_diag(&mut out, &v.span, what, instead, why);
        proof {
            assert(diag_views(out@) =~= violations@.take(i + 1).map_values(
                |v: TransitiveShareViolation| share_violation_diag(v, *shapes),
            ));
        }
        i = i + 1;
    }
    proof {
        assert(violations@.take(i as int) =~= violations@);
    }
    out
}

/// What an aliasing call's diagnostic says happened: the same place passed twice, or a
/// place and a part of it (the longer path is the part).
pub open spec fn aliasing_what(v: AliasingCallViolation) -> Seq<char> {
    let f = v.first_path@;
    let s = v.second_path@;
    let c = v.callee_name@;
    let d1 = v.first_kind.spec_describe();
    let d2 = v.second_kind.spec_describe();
    if f == s {
        "`"@ + f + "` is passed to `"@ + c + "` twice in the same call \u{2014} once as "@ + d1 + " and once as "@ + d2 + "."@
    } else {
        let longer = if f.len() >= s.len() { f } else { s };
        let shorter = if f.len() >= s.len() { s } else { f };
        "`"@ + longer + "` is part of `"@ + shorter + "`, and both are passed to `"@ + c
            + "` in the same call \u{2014} one as "@ + d1 + ", the other as "@ + d2 + "."@
    }
}

pub open spec fn aliasing_violation_diag(v: AliasingCallViolation) -> DiagnosticView {
    error_view(
        v.span@,
        aliasing_what(v),
        "Give one of the two arguments its own copy \u{2014} call `.copy()` on it \u{2014} or restructure so `"@ + v.first_path@
            + "` reaches `"@ + v.callee_name@ + "` only once."@,
        "A parameter that modifies or takes over a value needs to be the only way that value is reached during the call. Because both arguments lead to the same value, a change through one would show up through the other mid-call \u{2014} the compiler builds fast code on the promise that this cannot happen, so it reports the conflict here instead of letting the program's results become unpredictable."@,
    )
}

fn aliasing_what_exec(v: &AliasingCallViolation) -> (r: String)
    ensures
        r@ == aliasing_what(*v),
{
    let f = v.first_path.as_str();
    let s = v.second_path.as_str();
    if str_eq(f, s) {
        let mut w = lit("`");
        w.append(f);
        w.append("` is passed to `");
        w.append(v.callee_name.as_str());
        w.append("` twice in the same call \u{2014} once as ");
        w.append(v.first_kind.describe());
        w.append(" and once as ");
        w.append(v.second_kind.describe());
        w.append(".");
        w
    } else {
        let first_longer = f.unicode_len() >= s.unicode_len();
        let longer = if first_longer { f } else { s };
        let shorter = if first_longer { s } else { f };
        let mut w = lit("`");
        w.append(longer);
        w.append("` is part of `");
        w.append(shorter);
        w.append("`, and both are passed to `");
        w.append(v.callee_name.as_str());
        w.append("` in the same call \u{2014} one as ");
        w.append(v.first_kind.describe());
        w.append(", the other as ");
        w.append(v.second_kind.describe());
        w.append(".");
        w
    }
}

/// One teaching error for each aliasing call, in order.
pub fn aliasing_violation_diagnostics(violations: &Vec<AliasingCallViolation>) -> (r: Vec<Diagnostic>)
    ensures
        diag_views(r@) == violations@.map_values(|v: AliasingCallViolation| aliasing_violation_diag(v)),
{
    let mut out: Vec<Diagnostic> = Vec::new();
    let mut i: usize = 0;
    while i < violations.len()
        invariant
            i <= violations@.len(),
            diag_views(out@) == violations@.take(i as int).map_values(|v: AliasingCallViolation| aliasing_violation_diag(v)),
        decreases violations@.len() - i,
    {
        let v = &violations[i];
        let what = aliasing_what_exec(v);
        let mut instead = lit("Give one of the two arguments its own copy \u{2014} call `.copy()` on it \u{2014} or restructure so `");
        instead.append(v.first_path.as_str());
        instead.append("` reaches `");
        instead.append(v.callee_name.as_str());
        instead.append("` only once.");
        push_diag(
            &mut out,
            &v.span,
            what,
            instead,
            lit(
                "A parameter that modifies or takes over a value needs to be the only way that value is reached during the call. Because both arguments lead to the same value, a change through one would show up through the other mid-call \u{2014} the compiler builds fast code on the promise that this cannot happen, so it reports the conflict here instead of letting the program's results become unpredictable.",
            ),
        );
        proof {
            assert(diag_views(out@) =~= violations@.take(i + 1).map_values(
                |v: AliasingCallViolation| aliasing_violation_diag(v),
            ));
        }
        i = i + 1;
    }
    proof {
        assert(violations@.take(i as int) =~= violations@);
    }
    out
}

/// The model of a warning diagnostic.
pub open spec fn warning_view(span: SpanView, what: Seq<char>, what_instead: Seq<char>, why: Seq<char>) -> DiagnosticView {
    DiagnosticView { severity: Severity::Warning, span, what, what_instead, why, related: Seq::empty() }
}

pub open spec fn unused_import_diag(item: ImportItem) -> DiagnosticView {
    warning_view(
        item.local_name_span@,
        "`"@ + item.local_name@ + "` is imported but never used."@,
        "Remove `"@ + item.local_name@ + "` from the import list, or use it somewhere in this file."@,
        "Unused imports add noise \u{2014} every import signals to readers that this file depends on that symbol."@,
    )
}

/// Warnings for the first `k` named imports of a list that nothing referenced.
pub open spec fn unused_in_items(items: Seq<ImportItem>, referenced: Set<Seq<char>>, k: int) -> Seq<DiagnosticView>
    decreases k,
{
    if k <= 0 {
        Seq::empty()
    } else {
        let p = unused_in_items(items, referenced, k - 1);
        if referenced.contains(items[k - 1].local_name@) {
            p
        } else {
            p.push(unused_import_diag(items[k - 1]))
        }
    }
}

/// The unused-import warnings of the import declarations, in order; namespace imports are
/// not tracked.
pub open spec fn unused_imports(imports: Seq<ImportDecl>, referenced: Set<Seq<char>>) -> Seq<DiagnosticView>
    decreases imports.len(),
{
    if imports.len() == 0 {
        Seq::empty()
    } else {
        unused_imports(imports.drop_last(), referenced) + match imports.last().kind {
            ImportKind::Named(items) => unused_in_items(items@, referenced, items@.len() as int),
            ImportKind::Namespace { .. } => Seq::empty(),
        }
    }
}

/// A warning for each named import whose local name the check never resolved.
pub fn unused_import_warnings(imports: &Vec<ImportDecl>, referenced: &NameSet) -> (r: Vec<Diagnostic>)
    ensures
        diag_views(r@) == unused_imports(imports@, referenced@),
{
    let mut out: Vec<Diagnostic> = Vec::new();
    let mut i: usize = 0;
    proof {
        assert(diag_views(out@) =~= Seq::<DiagnosticView>::empty());
        assert(imports@.take(0) =~= Seq::<ImportDecl>::empty());
    }
    while i < imports.len()
        invariant
            i <= imports@.len(),
            diag_views(out@) == unused_imports(imports@.take(i as int), referenced@),
        decreases imports@.len() - i,
    {
        let ghost base = diag_views(out@);
        proof {
            assert(imports@.take(i + 1).drop_last() =~= imports@.take(i as int));
            assert(imports@.take(i + 1).last() == imports@[i as int]);
        }
        match &imports[i].kind {
            ImportKind::Named(items) => {
                let mut k: usize = 0;
                while k < items.len()
                    invariant
                        k <= items@.len(),
                        diag_views(out@) == base + unused_in_items(items@, referenced@, k as int),
                    decreases items@.len() - k,
                {
                    let it = &items[k];
                    if !referenced.contains(it.local_name.as_str()) {
                        let mut what = lit("`");
                        what.append(it.local_name.as_str());
                        what.append("` is imported but never used.");
                        let mut instead = lit("Remove `");
                        instead.append(it.local_name.as_str());
                        instead.append("` from the import list, or use it somewhere in this file.");
                        let d = Diagnostic {
                            severity: Severity::Warning,
                            span: it.local_name_span.duplicate(),
                            what,
                            what_instead: instead,
                            why: lit(
                                "Unused imports add noise \u{2014} every import signals to readers that this file depends on that symbol.",
                            ),
                            related: Vec::new(),
                        };
                        proof {
                            assert(d@.related =~= Seq::<(SpanView, Seq<char>)>::empty());
                            assert(d@ == unused_import_diag(*it));
                        }
                        let ghost before = out@;
                        out.push(d);
                        proof {
                            assert(diag_views(out@) =~= diag_views(before).push(d@));
                        }
                    }
                    k = k + 1;
                }
            },
            ImportKind::Namespace { .. } => {
                proof {
                    assert(diag_views(out@) =~= base + Seq::<DiagnosticView>::empty());
                }
            },
        }
        i = i + 1;
    }
    proof {
        assert(imports@.take(i as int) =~= imports@);
    }
    out
}

/// The result of checking a module: its diagnostics, then the functions that suspend and
/// those that do real work.
pub struct CheckReport {
    pub diagnostics: Vec<Diagnostic>,
    pub suspends_set: NameSet,
    pub does_real_work_set: NameSet,
}

/// The check's report, its diagnostics in the order the stages produce them: the parse,
/// the signature pass, the mutual suspension cycles, the body check, the unused imports,
/// the transitive `share` violations and the aliasing calls.
pub fn assemble_check_report(
    parse: Vec<Diagnostic>,
    signatures: Vec<Diagnostic>,
    cycles: Vec<Diagnostic>,
    body: Vec<Diagnostic>,
    unused_imports: Vec<Diagnostic>,
    share_violations: Vec<Diagnostic>,
    aliasing: Vec<Diagnostic>,
    suspends: NameSet,
    real_work: NameSet,
) -> (r: CheckReport)
    ensures
        diag_views(r.diagnostics@) == diag_views(parse@) + diag_views(signatures@) + diag_views(cycles@) + diag_views(
            body@,
        ) + diag_views(unused_imports@) + diag_views(share_violations@) + diag_views(aliasing@),
        r.suspends_set@ == suspends@,
        r.does_real_work_set@ == real_work@,
{
    let ghost dv = diag_views(parse@) + diag_views(signatures@) + diag_views(cycles@) + diag_views(body@) + diag_views(
        unused_imports@,
    ) + diag_views(share_violations@) + diag_views(aliasing@);
    let ghost expected = parse@ + signatures@ + cycles@ + body@ + unused_imports@ + share_violations@ + aliasing@;
    let mut all = parse;
    let mut signatures = signatures;
    let mut cycles = cycles;
    let mut body = body;
    let mut unused_imports = unused_imports;
    let mut share_violations = share_violations;
    let mut aliasing = aliasing;
    all.append(&mut signatures);
    all.append(&mut cycles);
    all.append(&mut body);
    all.append(&mut unused_imports);
    all.append(&mut share_violations);
    all.append(&mut aliasing);
    proof {
        assert(all@ =~= expected);
        assert(diag_views(all@) =~= dv);
    }
    CheckReport { diagnostics: all, suspends_set: suspends, does_real_work_set: real_work }
}

} // verus!
