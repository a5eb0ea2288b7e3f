//! Which functions return only fresh values: every `return` yields a fresh value, a
//! `give` parameter, or a local whose value nobody else holds. The answer is reached by
//! rounds over the functions until no verdict changes.
use vstd::prelude::*;

use crate::effective_ownership::{Freshness, Provenance};
use crate::names::{lookup, NameSet};
use crate::ownership_fixpoint::{function_item_positions, local_decls};
use crate::provenance::{is_fresh_returning, prov, prov_view, provenance, ProvEnv, ProvView, ProvenanceCtx, TypeOracle};
use crate::shape_passes::{lemma_lookup_views, row_index, row_views};
use crate::shapes::ShapeTable;
use crate::syntax::{FunctionDecl, Item, MatchArm, Module, OwnershipModifier, Param, Stmt};
use crate::text::{str_eq, string_views};
use crate::type_oracle::{fixpoint_type_oracle, fixpoint_types, OracleEnv};
use crate::types::{Type, TypeView};

verus! {

/// The model of a [`Freshness`].
pub enum FreshView {
    Fresh,
    MayAlias(Option<Seq<char>>),
}

impl View for Freshness {
    type V = FreshView;

    open spec fn view(&self) -> FreshView {
        match self {
            Freshness::Fresh => FreshView::Fresh,
            Freshness::MayAlias { param } => FreshView::MayAlias(
                match param {
                    Some(p) => Some(p@),
                    None => None,
                },
            ),
        }
    }
}

/// The walk's state: the locals known fresh, and the verdict so far.
pub struct RfState {
    pub fresh: Set<Seq<char>>,
    pub verdict: FreshView,
}

/// The first root that is a parameter.
pub open spec fn first_param_root(roots: Seq<Seq<char>>, params: Set<Seq<char>>) -> Option<Seq<char>>
    decreases roots.len(),
{
    if roots.len() == 0 {
        None
    } else {
        match first_param_root(roots.drop_last(), params) {
            Some(x) => Some(x),
            None => if params.contains(roots.last()) {
                Some(roots.last())
            } else {
                None
            },
        }
    }
}

/// The verdict lowered to `MayAlias` through `param`, unless already lowered.
pub open spec fn lower(st: RfState, param: Option<Seq<char>>) -> RfState {
    if st.verdict is Fresh {
        RfState { fresh: st.fresh, verdict: FreshView::MayAlias(param) }
    } else {
        st
    }
}

/// `name` bound to a value of this classification: fresh when the value is; a whole
/// binding makes both names hold one value, so neither is fresh.
pub open spec fn bind(st: RfState, name: Seq<char>, p: ProvView) -> RfState {
    RfState {
        fresh: match p {
            ProvView::Fresh => st.fresh.insert(name),
            ProvView::Whole(b) => st.fresh.remove(b).remove(name),
            _ => st.fresh.remove(name),
        },
        verdict: st.verdict,
    }
}

/// What the walk reads: classification facts, types, the `give` parameters and all
/// parameters.
pub struct RfEnv {
    pub prov: ProvEnv,
    pub ty: spec_fn(crate::syntax::Expr) -> Option<TypeView>,
    pub give: Set<Seq<char>>,
    pub params: Set<Seq<char>>,
}

/// The walk over one statement (branch bodies share the state).
pub open spec fn rf_stmt(s: Stmt, st: RfState, env: RfEnv) -> RfState
    decreases s,
{
    match s {
        Stmt::Let { name, value, .. } => bind(st, name@, prov(value, env.prov, env.ty)),
        Stmt::Assign { target, value, .. } => bind(st, target@, prov(value, env.prov, env.ty)),
        Stmt::For { var, body, .. } => rf_stmts(body.stmts@, RfState { fresh: st.fresh.remove(var@), verdict: st.verdict }, env),
        Stmt::If { body, .. } => rf_stmts(body.stmts@, st, env),
        Stmt::While { body, .. } => rf_stmts(body.stmts@, st, env),
        Stmt::Match { arms, else_arm, .. } => {
            let a = rf_arms(arms@, st, env);
            match else_arm {
                Some(b) => rf_stmts(b.stmts@, a, env),
                None => a,
            }
        },
        Stmt::Return { value, .. } => match value {
            Some(v) => match prov(v, env.prov, env.ty) {
                ProvView::Fresh => st,
                ProvView::Whole(n) => if st.fresh.contains(n) || env.give.contains(n) {
                    st
                } else {
                    lower(st, if env.params.contains(n) { Some(n) } else { None })
                },
                ProvView::Reaches(roots) => lower(st, first_param_root(roots, env.params)),
                ProvView::Unknown => lower(st, None),
            },
            None => st,
        },
        _ => st,
    }
}

pub open spec fn rf_stmts(s: Seq<Stmt>, st: RfState, env: RfEnv) -> RfState
    decreases s,
{
    if s.len() == 0 {
        st
    } else {
        rf_stmt(s[s.len() - 1], rf_stmts(s.subrange(0, s.len() - 1), st, env), env)
    }
}

pub open spec fn rf_arms(s: Seq<MatchArm>, st: RfState, env: RfEnv) -> RfState
    decreases s,
{
    if s.len() == 0 {
        st
    } else {
        rf_stmts(s[s.len() - 1].body.stmts@, rf_arms(s.subrange(0, s.len() - 1), st, env), env)
    }
}

/// The names of the `give` parameters.
pub open spec fn give_params(ps: Seq<Param>) -> Set<Seq<char>> {
    Set::new(|n: Seq<char>| exists|i: int| 0 <= i < ps.len() && #[trigger] ps[i].name@ == n && ps[i].ownership == Some(OwnershipModifier::Give))
}

/// The names of all parameters.
pub open spec fn param_names(ps: Seq<Param>) -> Set<Seq<char>> {
    Set::new(|n: Seq<char>| exists|i: int| 0 <= i < ps.len() && #[trigger] ps[i].name@ == n)
}

fn remove_name(s: &mut NameSet, name: &str)
    ensures
        final(s)@ == old(s)@.remove(name@),
{
    let mut one = NameSet::new();
    one.insert_str(name);
    let r = s.minus(&one);
    proof {
        assert(r@ =~= old(s)@.remove(name@));
    }
    *s = r;
}

pub open spec fn rf_env<O: TypeOracle>(ctx: ProvEnv, oracle: O, give: Set<Seq<char>>, params: Set<Seq<char>>) -> RfEnv {
    RfEnv { prov: ctx, ty: |x: crate::syntax::Expr| oracle.spec_type_of(x), give, params }
}

fn bind_exec(fresh: &mut NameSet, name: &str, p: Provenance)
    ensures
        final(fresh)@ == bind(RfState { fresh: old(fresh)@, verdict: FreshView::Fresh }, name@, prov_view(p)).fresh,
{
    match p {
        Provenance::Fresh => fresh.insert_str(name),
        Provenance::Whole(b) => {
            remove_name(fresh, b.as_str());
            remove_name(fresh, name);
        },
        _ => remove_name(fresh, name),
    }
}

fn lower_exec(verdict: &mut Freshness, param: Option<String>)
    ensures
        final(verdict)@ == lower(
            RfState { fresh: Set::empty(), verdict: old(verdict)@ },
            match param {
                Some(p) => Some(p@),
                None => None,
            },
        ).verdict,
{
    if matches!(verdict, Freshness::Fresh) {
        *verdict = Freshness::MayAlias { param };
    }
}

fn first_param_root_exec(roots: &Vec<String>, params: &NameSet) -> (r: Option<String>)
    ensures
        match r {
            Some(x) => first_param_root(string_views(roots@), params@) == Some(x@),
            None => first_param_root(string_views(roots@), params@) is None,
        },
{
    let ghost rv = string_views(roots@);
    let mut i: usize = 0;
    proof {
        assert(rv.take(0) =~= Seq::<Seq<char>>::empty());
    }
    while i < roots.len()
        invariant
            i <= roots@.len(),
            rv == string_views(roots@),
            first_param_root(rv.take(i as int), params@) is None,
        decreases roots@.len() - i,
    {
        proof {
            assert(rv.take(i + 1).drop_last() =~= rv.take(i as int));
            assert(rv.take(i + 1).last() == roots@[i as int]@);
        }
        if params.contains(roots[i].as_str()) {
            let r = roots[i].clone();
            proof {
                lemma_first_root_prefix(rv, i + 1, params@);
            }
            return Some(r);
        }
        i = i + 1;
    }
    proof {
        assert(rv.take(roots@.len() as int) =~= rv);
    }
    None
}

proof fn lemma_first_root_prefix(s: Seq<Seq<char>>, k: int, params: Set<Seq<char>>)
    requires
        0 <= k <= s.len(),
        first_param_root(s.take(k), params) is Some,
    ensures
        first_param_root(s, params) == first_param_root(s.take(k), params),
    decreases s.len() - k,
{
    if k < s.len() {
        assert(s.take(k + 1).drop_last() =~= s.take(k));
        lemma_first_root_prefix(s, k + 1, params);
    } else {
        assert(s.take(k) =~= s);
    }
}

fn rf_stmt_exec<O: TypeOracle>(
    s: &Stmt,
    fresh: &mut NameSet,
    verdict: &mut Freshness,
    ctx: &ProvenanceCtx,
    oracle: &O,
    give: &NameSet,
    params: &NameSet,
)
    ensures
        (RfState { fresh: final(fresh)@, verdict: final(verdict)@ }) == rf_stmt(
            *s,
            RfState { fresh: old(fresh)@, verdict: old(verdict)@ },
            rf_env(ctx@, *oracle, give@, params@),
        ),
    decreases s,
{
    match s {
        Stmt::Let { name, value, .. } => {
            let p = provenance(value, ctx, oracle);
            bind_exec(fresh, name.as_str(), p);
        },
        Stmt::Assign { target, value, .. } => {
            let p = provenance(value, ctx, oracle);
            bind_exec(fresh, target.as_str(), p);
        },
        Stmt::For { var, body, .. } => {
            remove_name(fresh, var.as_str());
            rf_stmts_exec(&body.stmts, fresh, verdict, ctx, oracle, give, params);
        },
        Stmt::If { body, .. } => rf_stmts_exec(&body.stmts, fresh, verdict, ctx, oracle, give, params),
        Stmt::While { body, .. } => rf_stmts_exec(&body.stmts, fresh, verdict, ctx, oracle, give, params),
        Stmt::Match { arms, else_arm, .. } => {
            rf_arms_exec(arms, fresh, verdict, ctx, oracle, give, params);
            match else_arm {
                Some(b) => rf_stmts_exec(&b.stmts, fresh, verdict, ctx, oracle, give, params),
                None => {},
            }
        },
        Stmt::Return { value, .. } => match value {
            Some(v) => {
                let p = provenance(v, ctx, oracle);
                match p {
                    Provenance::Fresh => {},
                    Provenance::Whole(n) => {
                        if !(fresh.contains(n.as_str()) || give.contains(n.as_str())) {
                            let param = if params.contains(n.as_str()) {
                                Some(n)
                            } else {
                                None
                            };
                            lower_exec(verdict, param);
                        }
                    },
                    Provenance::Reaches(roots) => {
                        let param = first_param_root_exec(&roots, params);
                        lower_exec(verdict, param);
                    },
                    Provenance::Unknown => lower_exec(verdict, None),
                }
            },
            None => {},
        },
        _ => {},
    }
}

fn rf_stmts_exec<O: TypeOracle>(
    v: &Vec<Stmt>,
    fresh: &mut NameSet,
    verdict: &mut Freshness,
    ctx: &ProvenanceCtx,
    oracle: &O,
    give: &NameSet,
    params: &NameSet,
)
    ensures
        (RfState { fresh: final(fresh)@, verdict: final(verdict)@ }) == rf_stmts(
            v@,
            RfState { fresh: old(fresh)@, verdict: old(verdict)@ },
            rf_env(ctx@, *oracle, give@, params@),
        ),
    decreases v,
{
    let ghost st0 = RfState { fresh: fresh@, verdict: verdict@ };
    let ghost env = rf_env(ctx@, *oracle, give@, params@);
    let mut i: usize = 0;
    proof {
        assert(v@.subrange(0, 0) =~= Seq::<Stmt>::empty());
    }
    while i < v.len()
        invariant
            i <= v@.len(),
            env == rf_env(ctx@, *oracle, give@, params@),
            (RfState { fresh: fresh@, verdict: verdict@ }) == rf_stmts(v@.subrange(0, i as int), st0, env),
        decreases v@.len() - i,
    {
        proof {
            let pre = v@.subrange(0, i + 1);
            assert(pre.subrange(0, i as int) =~= v@.subrange(0, i as int));
            assert(pre[i as int] == v@[i as int]);
        }
        rf_stmt_exec(&v[i], fresh, verdict, ctx, oracle, give, params);
        i = i + 1;
    }
    proof {
        assert(v@.subrange(0, v@.len() as int) =~= v@);
    }
}

fn rf_arms_exec<O: TypeOracle>(
    v: &Vec<MatchArm>,
    fresh: &mut NameSet,
    verdict: &mut Freshness,
    ctx: &ProvenanceCtx,
    oracle: &O,
    give: &NameSet,
    params: &NameSet,
)
    ensures
        (RfState { fresh: final(fresh)@, verdict: final(verdict)@ }) == rf_arms(
            v@,
            RfState { fresh: old(fresh)@, verdict: old(verdict)@ },
            rf_env(ctx@, *oracle, give@, params@),
        ),
    decreases v,
{
    let ghost st0 = RfState { fresh: fresh@, verdict: verdict@ };
    let ghost env = rf_env(ctx@, *oracle, give@, params@);
    let mut i: usize = 0;
    proof {
        assert(v@.subrange(0, 0) =~= Seq::<MatchArm>::empty());
    }
    while i < v.len()
        invariant
            i <= v@.len(),
            env == rf_env(ctx@, *oracle, give@, params@),
            (RfState { fresh: fresh@, verdict: verdict@ }) == rf_arms(v@.subrange(0, i as int), st0, env),
        decreases v@.len() - i,
    {
        proof {
            let pre = v@.subrange(0, i + 1);
            assert(pre.subrange(0, i as int) =~= v@.subrange(0, i as int));
            assert(pre[i as int] == v@[i as int]);
        }
        rf_stmts_exec(&v[i].body.stmts, fresh, verdict, ctx, oracle, give, params);
        i = i + 1;
    }
    proof {
        assert(v@.subrange(0, v@.len() as int) =~= v@);
    }
}

/// The names whose first row is `Fresh`.
pub open spec fn fresh_set(vs: Seq<(Seq<char>, FreshView)>) -> Set<Seq<char>> {
    Set::new(|n: Seq<char>| row_index(vs, n) >= 0 && vs[row_index(vs, n)].1 is Fresh)
}

/// What the rounds read besides the verdict rows.
pub struct FreshInputs {
    pub local: Set<Seq<char>>,
    pub imported: Set<Seq<char>>,
    pub fresh_methods: Set<Seq<char>>,
    pub oenv: OracleEnv,
}

/// The verdict of one function's walk against the current rows.
pub open spec fn fn_verdict(f: FunctionDecl, vs: Seq<(Seq<char>, FreshView)>, inp: FreshInputs) -> FreshView {
    let penv = ProvEnv { fresh_fns: fresh_set(vs), local: inp.local, imported: inp.imported, fresh_methods: inp.fresh_methods };
    let env = RfEnv {
        prov: penv,
        ty: fixpoint_types(f, inp.oenv),
        give: give_params(f.params@),
        params: param_names(f.params@),
    };
    rf_stmts(f.body.stmts@, RfState { fresh: Set::empty(), verdict: FreshView::Fresh }, env).verdict
}

/// One round over the first `k` functions, in order, each still `Fresh` re-walked against
/// the rows as updated so far and lowered when its walk says so.
pub open spec fn rf_round(
    decls: Seq<FunctionDecl>,
    vs: Seq<(Seq<char>, FreshView)>,
    inp: FreshInputs,
    k: int,
) -> Seq<(Seq<char>, FreshView)>
    decreases k,
{
    if k <= 0 {
        vs
    } else {
        let r = rf_round(decls, vs, inp, k - 1);
        if r[k - 1].1 is Fresh {
            let v = fn_verdict(decls[k - 1], r, inp);
            if v is Fresh {
                r
            } else {
                r.update(k - 1, (r[k - 1].0, v))
            }
        } else {
            r
        }
    }
}

/// Rounds repeated, at most `fuel` times, until one changes nothing.
pub open spec fn rf_iterate(
    decls: Seq<FunctionDecl>,
    vs: Seq<(Seq<char>, FreshView)>,
    inp: FreshInputs,
    fuel: nat,
) -> Seq<(Seq<char>, FreshView)>
    decreases fuel,
{
    if fuel == 0 {
        vs
    } else {
        let r = rf_round(decls, vs, inp, decls.len() as int);
        if r == vs {
            vs
        } else {
            rf_iterate(decls, r, inp, (fuel - 1) as nat)
        }
    }
}

/// Every function starts `Fresh`.
pub open spec fn seed_rows(decls: Seq<FunctionDecl>) -> Seq<(Seq<char>, FreshView)> {
    decls.map_values(|f: FunctionDecl| (f.name@, FreshView::Fresh))
}

/// The verdict rows: rounds from the seed until one changes nothing (one more round than
/// there are functions always suffices).
pub open spec fn returns_fresh_rows(decls: Seq<FunctionDecl>, inp: FreshInputs) -> Seq<(Seq<char>, FreshView)> {
    rf_iterate(decls, seed_rows(decls), inp, (decls.len() + 1) as nat)
}

pub open spec fn count_fresh(vs: Seq<(Seq<char>, FreshView)>) -> nat
    decreases vs.len(),
{
    if vs.len() == 0 {
        0
    } else {
        count_fresh(vs.drop_last()) + if vs.last().1 is Fresh { 1nat } else { 0nat }
    }
}

/// Rows `a` agree with `b` except where a `Fresh` row of `b` was lowered.
pub open spec fn only_lowered(a: Seq<(Seq<char>, FreshView)>, b: Seq<(Seq<char>, FreshView)>) -> bool {
    &&& a.len() == b.len()
    &&& forall|i: int| 0 <= i < a.len() ==> #[trigger] a[i] == b[i] || (b[i].1 is Fresh && !(a[i].1 is Fresh) && a[i].0 == b[i].0)
}

proof fn lemma_count_bounds(vs: Seq<(Seq<char>, FreshView)>)
    ensures
        count_fresh(vs) <= vs.len(),
    decreases vs.len(),
{
    if vs.len() > 0 {
        lemma_count_bounds(vs.drop_last());
    }
}

proof fn lemma_count_lowered(a: Seq<(Seq<char>, FreshView)>, b: Seq<(Seq<char>, FreshView)>)
    requires
        only_lowered(a, b),
    ensures
        count_fresh(a) <= count_fresh(b),
        a != b ==> count_fresh(a) < count_fresh(b),
    decreases a.len(),
{
    if a.len() > 0 {
        let (a1, b1) = (a.drop_last(), b.drop_last());
        assert forall|i: int| 0 <= i < a1.len() implies #[trigger] a1[i] == b1[i] || (b1[i].1 is Fresh && !(a1[i].1 is Fresh) && a1[i].0 == b1[i].0) by {
            assert(a1[i] == a[i] && b1[i] == b[i]);
        }
        lemma_count_lowered(a1, b1);
        assert(a[a.len() - 1] == a.last() && b[b.len() - 1] == b.last());
        if a != b {
            if a1 == b1 {
                assert(a.last() != b.last()) by {
                    if a.last() == b.last() {
                        assert forall|i: int| 0 <= i < a.len() implies a[i] == b[i] by {
                            if i < a.len() - 1 {
                                assert(a1[i] == a[i] && b1[i] == b[i]);
                            }
                        }
                        assert(a =~= b);
                    }
                }
            }
        }
    } else {
        assert(a =~= b);
    }
}

proof fn lemma_round_lowers(decls: Seq<FunctionDecl>, vs: Seq<(Seq<char>, FreshView)>, inp: FreshInputs, k: int)
    requires
        0 <= k <= vs.len(),
    ensures
        only_lowered(rf_round(decls, vs, inp, k), vs),
        forall|i: int| k <= i < vs.len() ==> #[trigger] rf_round(decls, vs, inp, k)[i] == vs[i],
    decreases k,
{
    if k > 0 {
        lemma_round_lowers(decls, vs, inp, k - 1);
    }
}

/// A round changes verdicts only: the rows keep their number and their names.
pub proof fn lemma_round_keeps_names(decls: Seq<FunctionDecl>, vs: Seq<(Seq<char>, FreshView)>, inp: FreshInputs, k: int)
    requires
        0 <= k <= vs.len(),
    ensures
        rf_round(decls, vs, inp, k).len() == vs.len(),
        forall|i: int| 0 <= i < vs.len() ==> (#[trigger] rf_round(decls, vs, inp, k)[i]).0 == vs[i].0,
    decreases k,
{
    if k > 0 {
        lemma_round_keeps_names(decls, vs, inp, k - 1);
    }
}

/// Repeated rounds keep the rows' number and names.
pub proof fn lemma_iterate_keeps_names(decls: Seq<FunctionDecl>, vs: Seq<(Seq<char>, FreshView)>, inp: FreshInputs, fuel: nat)
    requires
        decls.len() <= vs.len(),
    ensures
        rf_iterate(decls, vs, inp, fuel).len() == vs.len(),
        forall|i: int| 0 <= i < vs.len() ==> (#[trigger] rf_iterate(decls, vs, inp, fuel)[i]).0 == vs[i].0,
    decreases fuel,
{
    if fuel > 0 {
        let r = rf_round(decls, vs, inp, decls.len() as int);
        lemma_round_keeps_names(decls, vs, inp, decls.len() as int);
        if r != vs {
            lemma_iterate_keeps_names(decls, r, inp, (fuel - 1) as nat);
        }
    }
}

fn param_name_sets(ps: &Vec<Param>) -> (r: (NameSet, NameSet))
    ensures
        r.0@ == give_params(ps@),
        r.1@ == param_names(ps@),
{
    let mut give = NameSet::new();
    let mut all = NameSet::new();
    let mut i: usize = 0;
    while i < ps.len()
        invariant
            i <= ps@.len(),
            give@ == Set::new(
                |n: Seq<char>|
                    exists|j: int| 0 <= j < i && #[trigger] ps@[j].name@ == n && ps@[j].ownership == Some(OwnershipModifier::Give),
            ),
            all@ == Set::new(|n: Seq<char>| exists|j: int| 0 <= j < i && #[trigger] ps@[j].name@ == n),
        decreases ps@.len() - i,
    {
        let ghost g0 = give@;
        let ghost a0 = all@;
        if matches!(ps[i].ownership, Some(OwnershipModifier::Give)) {
            give.insert(ps[i].name.clone());
        }
        all.insert(ps[i].name.clone());
        proof {
            assert forall|n: Seq<char>| give@.contains(n) <==> exists|j: int|
                0 <= j < i + 1 && #[trigger] ps@[j].name@ == n && ps@[j].ownership == Some(OwnershipModifier::Give) by {
                if give@.contains(n) && !g0.contains(n) {
                    assert(ps@[i as int].name@ == n);
                }
            }
            assert(give@ =~= Set::new(
                |n: Seq<char>|
                    exists|j: int| 0 <= j < i + 1 && #[trigger] ps@[j].name@ == n && ps@[j].ownership == Some(OwnershipModifier::Give),
            ));
            assert forall|n: Seq<char>| all@.contains(n) <==> exists|j: int| 0 <= j < i + 1 && #[trigger] ps@[j].name@ == n by {
                if all@.contains(n) && !a0.contains(n) {
                    assert(ps@[i as int].name@ == n);
                }
            }
            assert(all@ =~= Set::new(|n: Seq<char>| exists|j: int| 0 <= j < i + 1 && #[trigger] ps@[j].name@ == n));
        }
        i = i + 1;
    }
    proof {
        assert(give@ =~= give_params(ps@));
        assert(all@ =~= param_names(ps@));
    }
    (give, all)
}

pub open spec fn fresh_inputs(
    local: Set<Seq<char>>,
    imported: Set<Seq<char>>,
    fresh_methods: Set<Seq<char>>,
    table: ShapeTable,
    scalar: Seq<(String, Type)>,
) -> FreshInputs {
    FreshInputs { local, imported, fresh_methods, oenv: OracleEnv { table, user: local.union(imported), scalar } }
}

fn fn_verdict_exec(
    f: &FunctionDecl,
    rows: &Vec<(String, Freshness)>,
    local: &NameSet,
    imported: &NameSet,
    fresh_methods: &NameSet,
    table: &ShapeTable,
    scalar: &Vec<(String, Type)>,
) -> (v: Freshness)
    ensures
        v@ == fn_verdict(*f, row_views(rows@), fresh_inputs(local@, imported@, fresh_methods@, *table, scalar@)),
{
    let ghost inp = fresh_inputs(local@, imported@, fresh_methods@, *table, scalar@);
    let oracle = fixpoint_type_oracle(f, table, local, imported, scalar);
    let ctx = ProvenanceCtx { returns_fresh: rows, local_fns: local, imported_fn_names: imported, fresh_builtin_methods: fresh_methods };
    let (give, params) = param_name_sets(&f.params);
    let mut fresh = NameSet::new();
    let mut verdict = Freshness::Fresh;
    proof {
        assert((RfState { fresh: fresh@, verdict: verdict@ }) == (RfState { fresh: Set::empty(), verdict: FreshView::Fresh }));
    }
    rf_stmts_exec(&f.body.stmts, &mut fresh, &mut verdict, &ctx, &oracle, &give, &params);
    proof {
        let vs = row_views(rows@);
        assert forall|n: Seq<char>| ctx@.fresh_fns.contains(n) <==> fresh_set(vs).contains(n) by {
            lemma_lookup_views(rows@, n);
        }
        assert(ctx@.fresh_fns =~= fresh_set(vs));
        let tys = |x: crate::syntax::Expr| oracle.spec_type_of(x);
        assert(tys =~= fixpoint_types(*f, inp.oenv));
        let penv = ProvEnv { fresh_fns: fresh_set(vs), local: inp.local, imported: inp.imported, fresh_methods: inp.fresh_methods };
        assert(ctx@ == penv);
        assert(rf_env(ctx@, oracle, give@, params@) == RfEnv {
            prov: penv,
            ty: fixpoint_types(*f, inp.oenv),
            give: give_params(f.params@),
            params: param_names(f.params@),
        });
    }
    verdict
}

/// Which local functions return only fresh values, by rounds over the functions until
/// no verdict changes (see [`returns_fresh_rows`]); the rows it returns are stable under
/// one more round.
pub fn returns_freshness(
    module: &Module,
    imported_fn_names: &NameSet,
    fresh_builtin_methods: &NameSet,
    shape_table: &ShapeTable,
    scalar_results: &Vec<(String, Type)>,
) -> (rows: Vec<(String, Freshness)>)
    ensures
        ({
            let decls = local_decls(module.items@);
            let inp = fresh_inputs(
                crate::may_block::local_fn_names(module.items@),
                imported_fn_names@,
                fresh_builtin_methods@,
                *shape_table,
                scalar_results@,
            );
            &&& row_views(rows@) == returns_fresh_rows(decls, inp)
            &&& rf_round(decls, row_views(rows@), inp, decls.len() as int) == row_views(rows@)
        }),
{
    let ghost decls = local_decls(module.items@);
    let local = crate::may_block::local_function_names(&module.items);
    let ghost inp = fresh_inputs(local@, imported_fn_names@, fresh_builtin_methods@, *shape_table, scalar_results@);
    let positions = function_item_positions(module);
    let n = positions.len();
    let mut rows: Vec<(String, Freshness)> = Vec::new();
    let mut k: usize = 0;
    while k < n
        invariant
            k <= n,
            n == positions@.len(),
            n == decls.len(),
            decls == local_decls(module.items@),
            forall|q: int|
                0 <= q < positions@.len() ==> (#[trigger] positions@[q]) < module.items@.len() && module.items@[positions@[q] as int]
                    == Item::Function(decls[q]),
            row_views(rows@) == seed_rows(decls).take(k as int),
        decreases n - k,
    {
        match &module.items[positions[k]] {
            Item::Function(f) => {
                let ghost before = row_views(rows@);
                rows.push((f.name.clone(), Freshness::Fresh));
                proof {
                    assert(decls[k as int] == *f);
                    assert(row_views(rows@) =~= before.push((f.name@, FreshView::Fresh)));
                    assert(seed_rows(decls).take(k + 1) =~= seed_rows(decls).take(k as int).push(seed_rows(decls)[k as int]));
                    assert(row_views(rows@) =~= seed_rows(decls).take(k + 1));
                }
            },
            _ => {
                proof {
                    assert(false);
                }
            },
        }
        k = k + 1;
    }
    proof {
        assert(seed_rows(decls).take(n as int) =~= seed_rows(decls));
        lemma_count_bounds(seed_rows(decls));
    }
    let ghost seed = seed_rows(decls);
    let ghost mut g: nat = (n + 1) as nat;
    loop
        invariant
            n == positions@.len(),
            n == decls.len(),
            decls == local_decls(module.items@),
            forall|q: int|
                0 <= q < positions@.len() ==> (#[trigger] positions@[q]) < module.items@.len() && module.items@[positions@[q] as int]
                    == Item::Function(decls[q]),
            row_views(rows@).len() == n,
            rows@.len() == n,
            rf_iterate(decls, seed, inp, (n + 1) as nat) == rf_iterate(decls, row_views(rows@), inp, g),
            g > count_fresh(row_views(rows@)),
            inp == fresh_inputs(local@, imported_fn_names@, fresh_builtin_methods@, *shape_table, scalar_results@),
            local@ == crate::may_block::local_fn_names(module.items@),
            seed == seed_rows(decls),
        decreases count_fresh(row_views(rows@)),
    {
        let ghost start = row_views(rows@);
        let mut changed = false;
        let mut k: usize = 0;
        while k < n
            invariant
                k <= n,
                n == positions@.len(),
                n == decls.len(),
                forall|q: int|
                    0 <= q < positions@.len() ==> (#[trigger] positions@[q]) < module.items@.len()
                        && module.items@[positions@[q] as int] == Item::Function(decls[q]),
                start.len() == n,
                rows@.len() == n,
                row_views(rows@) == rf_round(decls, start, inp, k as int),
                changed <==> exists|j: int| 0 <= j < k && row_views(rows@)[j] != start[j],
                inp == fresh_inputs(local@, imported_fn_names@, fresh_builtin_methods@, *shape_table, scalar_results@),
            decreases n - k,
        {
            proof {
                lemma_round_lowers(decls, start, inp, k as int);
            }
            let ghost before = row_views(rows@);
            if matches!(rows[k].1, Freshness::Fresh) {
                match &module.items[positions[k]] {
                    Item::Function(f) => {
                        let v = fn_verdict_exec(f, &rows, &local, imported_fn_names, fresh_builtin_methods, shape_table, scalar_results);
                        proof {
                            assert(decls[k as int] == *f);
                        }
                        if !matches!(v, Freshness::Fresh) {
                            let name = rows[k].0.clone();
                            let ghost nv = name@;
                            let ghost vv = v@;
                            rows.set(k, (name, v));
                            proof {
                                assert(row_views(rows@) =~= before.update(k as int, (nv, vv)));
                                assert(before[k as int] == start[k as int]);
                                assert(!(vv is Fresh));
                                assert(before[k as int].1 is Fresh);
                                assert(row_views(rows@)[k as int] != start[k as int]);
                            }
                            changed = true;
                        }
                    },
                    _ => {
                        proof {
                            assert(false);
                        }
                    },
                }
            }
            proof {
                assert forall|j: int| 0 <= j < k implies row_views(rows@)[j] == before[j] by {}
            }
            k = k + 1;
        }
        proof {
            lemma_round_lowers(decls, start, inp, n as int);
            lemma_count_lowered(row_views(rows@), start);
            if !changed {
                assert(row_views(rows@) =~= start);
            } else {
                assert(row_views(rows@) != start);
            }
        }
        if !changed {
            proof {
                assert(rf_round(decls, start, inp, decls.len() as int) == start);
                assert(rf_iterate(decls, start, inp, g) == start);
            }
            return rows;
        }
        proof {
            assert(rf_iterate(decls, start, inp, g) == rf_iterate(decls, row_views(rows@), inp, (g - 1) as nat));
            g = (g - 1) as nat;
        }
    }
}

} // verus!
