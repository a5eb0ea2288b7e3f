//! The ownership-level meaning of an expression's value (fresh, exactly a binding, a
//! piece of named roots, or unclassifiable), and which functions return only fresh
//! values.
use vstd::prelude::*;

use crate::effective_ownership::{spec_root_binding, root_binding_name, spec_value_like, value_like, Freshness, Provenance};
use crate::names::{find_row, lookup, NameSet};
use crate::owned_copy::{copy_is_independent, spec_copy_is_independent};
use crate::syntax::{Expr, FieldInit, MapEntryLit, PostfixOpKind};
use crate::text::{lit, str_eq, string_views};
use crate::types::{Type, TypeView};

verus! {

/// The model of a [`Provenance`].
pub enum ProvView {
    Fresh,
    Whole(Seq<char>),
    Reaches(Seq<Seq<char>>),
    Unknown,
}

pub open spec fn prov_view(p: Provenance) -> ProvView {
    match p {
        Provenance::Fresh => ProvView::Fresh,
        Provenance::Whole(n) => ProvView::Whole(n@),
        Provenance::Reaches(rs) => ProvView::Reaches(string_views(rs@)),
        Provenance::Unknown => ProvView::Unknown,
    }
}

/// What classification reads besides types: the functions that return only fresh values,
/// the local and imported function names, and the built-in methods whose heap result is
/// freshly built.
pub struct ProvEnv {
    pub fresh_fns: Set<Seq<char>>,
    pub local: Set<Seq<char>>,
    pub imported: Set<Seq<char>>,
    pub fresh_methods: Set<Seq<char>>,
}

/// The executable form of [`ProvEnv`].
pub struct ProvenanceCtx<'a> {
    pub returns_fresh: &'a Vec<(String, Freshness)>,
    pub local_fns: &'a NameSet,
    pub imported_fn_names: &'a NameSet,
    pub fresh_builtin_methods: &'a NameSet,
}

impl<'a> View for ProvenanceCtx<'a> {
    type V = ProvEnv;

    open spec fn view(&self) -> ProvEnv {
        ProvEnv {
            fresh_fns: Set::new(|n: Seq<char>| is_fresh_returning(self.returns_fresh@, n)),
            local: self.local_fns@,
            imported: self.imported_fn_names@,
            fresh_methods: self.fresh_builtin_methods@,
        }
    }
}

impl<'a> ProvenanceCtx<'a> {
    /// The context over a completed report.
    pub fn from_report(
        report: &'a crate::effective_ownership::EffectiveOwnershipReport,
        local_fns: &'a NameSet,
        imported_fn_names: &'a NameSet,
        fresh_builtin_methods: &'a NameSet,
    ) -> (c: ProvenanceCtx<'a>)
        ensures
            c@ == (ProvEnv {
                fresh_fns: Set::new(|n: Seq<char>| is_fresh_returning(report.returns_fresh@, n)),
                local: local_fns@,
                imported: imported_fn_names@,
                fresh_methods: fresh_builtin_methods@,
            }),
    {
        ProvenanceCtx { returns_fresh: &report.returns_fresh, local_fns, imported_fn_names, fresh_builtin_methods }
    }
}

/// A source of expression types: `None` when the type is not known.
pub trait TypeOracle {
    spec fn spec_type_of(&self, e: Expr) -> Option<TypeView>;

    fn type_of(&self, e: &Expr) -> (r: Option<Type>)
        ensures
            match r {
                Some(t) => self.spec_type_of(*e) == Some(t@),
                None => self.spec_type_of(*e) is None,
            },
    ;
}

/// Whether `name` returns only fresh values: a function the rows do not hold may alias.
pub open spec fn is_fresh_returning(rows: Seq<(String, Freshness)>, name: Seq<char>) -> bool {
    match lookup(rows, name) {
        Some(f) => f is Fresh,
        None => false,
    }
}

/// The roots a classification reaches through: none for a fresh value, the binding for
/// a whole one; `None` when unknown.
pub open spec fn roots_view(p: ProvView) -> Option<Seq<Seq<char>>> {
    match p {
        ProvView::Fresh => Some(Seq::empty()),
        ProvView::Whole(n) => Some(seq![n]),
        ProvView::Reaches(rs) => Some(rs),
        ProvView::Unknown => None,
    }
}

/// `acc` with each of `rs` appended that it does not hold yet, in order.
pub open spec fn add_roots(acc: Seq<Seq<char>>, rs: Seq<Seq<char>>) -> Seq<Seq<char>>
    decreases rs.len(),
{
    if rs.len() == 0 {
        acc
    } else {
        let a = add_roots(acc, rs.drop_last());
        if a.contains(rs.last()) {
            a
        } else {
            a.push(rs.last())
        }
    }
}

/// An aggregate's roots so far, then one more part: a value-typed part (when `skip`) adds
/// nothing; an unknown part makes the whole unknown.
pub open spec fn fold_step(
    acc: Option<Seq<Seq<char>>>,
    e: Expr,
    env: ProvEnv,
    ty: spec_fn(Expr) -> Option<TypeView>,
    skip: bool,
) -> Option<Seq<Seq<char>>>
    decreases e, 1nat,
{
    match acc {
        None => None,
        Some(a) => if skip && (match ty(e) {
            Some(t) => spec_value_like(t),
            None => false,
        }) {
            Some(a)
        } else {
            match roots_view(prov(e, env, ty)) {
                Some(rs) => Some(add_roots(a, rs)),
                None => None,
            }
        },
    }
}

/// The roots of parts after `acc0`.
pub open spec fn fold_exprs(
    acc0: Option<Seq<Seq<char>>>,
    s: Seq<Expr>,
    env: ProvEnv,
    ty: spec_fn(Expr) -> Option<TypeView>,
    skip: bool,
) -> Option<Seq<Seq<char>>>
    decreases s, 2nat,
{
    if s.len() == 0 {
        acc0
    } else {
        fold_step(fold_exprs(acc0, s.subrange(0, s.len() - 1), env, ty, skip), s[s.len() - 1], env, ty, skip)
    }
}

pub open spec fn fold_fields(s: Seq<FieldInit>, env: ProvEnv, ty: spec_fn(Expr) -> Option<TypeView>) -> Option<Seq<Seq<char>>>
    decreases s, 2nat,
{
    if s.len() == 0 {
        Some(Seq::empty())
    } else {
        fold_step(fold_fields(s.subrange(0, s.len() - 1), env, ty), s[s.len() - 1].value, env, ty, true)
    }
}

pub open spec fn fold_entries(s: Seq<MapEntryLit>, env: ProvEnv, ty: spec_fn(Expr) -> Option<TypeView>) -> Option<Seq<Seq<char>>>
    decreases s, 2nat,
{
    if s.len() == 0 {
        Some(Seq::empty())
    } else {
        fold_step(
            fold_step(fold_entries(s.subrange(0, s.len() - 1), env, ty), s[s.len() - 1].key, env, ty, true),
            s[s.len() - 1].value,
            env,
            ty,
            true,
        )
    }
}

/// An aggregate of these roots: fresh when none, a piece of them otherwise.
pub open spec fn aggregate(r: Option<Seq<Seq<char>>>) -> ProvView {
    match r {
        None => ProvView::Unknown,
        Some(rs) => if rs.len() == 0 {
            ProvView::Fresh
        } else {
            ProvView::Reaches(rs)
        },
    }
}

/// A user-function call result: unknown across the module boundary; fresh when the
/// callee returns only fresh values; otherwise a piece of whatever its non-value
/// arguments reach (of something, when they reach nothing).
pub open spec fn call_result(callee: Seq<char>, args_roots: Option<Seq<Seq<char>>>, env: ProvEnv) -> ProvView {
    if env.imported.contains(callee) && !env.local.contains(callee) {
        ProvView::Unknown
    } else if env.fresh_fns.contains(callee) {
        ProvView::Fresh
    } else {
        match args_roots {
            None => ProvView::Unknown,
            Some(rs) => ProvView::Reaches(rs),
        }
    }
}

/// The piece of the receiver's root binding (of a fresh temporary when it has none).
pub open spec fn piece_of(receiver: Expr) -> ProvView {
    ProvView::Reaches(
        match spec_root_binding(receiver) {
            Some(r) => seq![r],
            None => Seq::empty(),
        },
    )
}

/// The classification of a method call's value when no user function has the method's
/// name: unknown on a dynamic receiver; fresh for a value-typed result or a built-in
/// method that builds its result; otherwise a piece of the receiver.
pub open spec fn builtin_method_result(
    receiver: Expr,
    receiver_ty: Option<TypeView>,
    result_ty: Option<TypeView>,
    method: Seq<char>,
    env: ProvEnv,
) -> ProvView {
    if receiver_ty matches Some(TypeView::Dynamic { .. }) {
        ProvView::Unknown
    } else if (match result_ty {
        Some(t) => spec_value_like(t),
        None => false,
    }) {
        ProvView::Fresh
    } else if env.fresh_methods.contains(method) {
        ProvView::Fresh
    } else {
        piece_of(receiver)
    }
}

/// `.copy()` is fresh when the copy of the receiver's type is independent.
pub open spec fn copy_result(receiver_ty: Option<TypeView>) -> ProvView {
    match receiver_ty {
        Some(t) => if spec_copy_is_independent(t) {
            ProvView::Fresh
        } else {
            ProvView::Unknown
        },
        None => ProvView::Unknown,
    }
}

/// The classification of an expression's value, with `ty` answering types.
#[verifier::rlimit(40)]
pub open spec fn prov(e: Expr, env: ProvEnv, ty: spec_fn(Expr) -> Option<TypeView>) -> ProvView
    decreases e, 0nat,
{
    match e {
        Expr::IntLit(..) | Expr::NumberLit(..) | Expr::BoolLit(..) | Expr::StringLit(..) | Expr::NoneLit { .. }
        | Expr::BinOp { .. } | Expr::UnaryOp { .. } | Expr::InterpolatedString(..) | Expr::Is { .. } => ProvView::Fresh,
        Expr::Ident(n, _) => ProvView::Whole(n@),
        Expr::SelfValue { .. } => ProvView::Whole("self"@),
        Expr::FieldAccess { receiver, .. } => piece_of(*receiver),
        Expr::IndexAccess { receiver, .. } => piece_of(*receiver),
        Expr::ArrayLit { elements, .. } => aggregate(fold_exprs(Some(Seq::empty()), elements@, env, ty, true)),
        Expr::MapLit { entries, .. } => aggregate(fold_entries(entries@, env, ty)),
        Expr::StructLit { fields, .. } => aggregate(fold_fields(fields@, env, ty)),
        Expr::PostfixOp { receiver, op, .. } => match op {
            PostfixOpKind::Copy => copy_result(ty(*receiver)),
            PostfixOpKind::Freeze => ProvView::Fresh,
        },
        Expr::Call(c) => match *c.callee {
            Expr::Ident(n, _) => if n@ == "channel"@ {
                ProvView::Fresh
            } else if env.local.contains(n@) || env.imported.contains(n@) {
                call_result(n@, fold_exprs(Some(Seq::empty()), c.args@, env, ty, true), env)
            } else {
                ProvView::Fresh
            },
            _ => ProvView::Unknown,
        },
        Expr::MethodCall { receiver, method, args, .. } => if env.local.contains(method@) || env.imported.contains(
            method@,
        ) {
            call_result(method@, fold_exprs(fold_step(Some(Seq::empty()), *receiver, env, ty, true), args@, env, ty, true), env)
        } else {
            builtin_method_result(*receiver, ty(*receiver), ty(e), method@, env)
        },
        Expr::Wait(inner, _) => prov(*inner, env, ty),
        Expr::Background(..) => ProvView::Fresh,
        Expr::Error(..) => ProvView::Unknown,
    }
}

pub open spec fn opt_roots(r: Option<Vec<String>>) -> Option<Seq<Seq<char>>> {
    match r {
        Some(v) => Some(string_views(v@)),
        None => None,
    }
}

fn contains_root(v: &Vec<String>, n: &str) -> (b: bool)
    ensures
        b == string_views(v@).contains(n@),
{
    let mut i: usize = 0;
    while i < v.len()
        invariant
            i <= v@.len(),
            forall|j: int| 0 <= j < i ==> v@[j]@ != n@,
        decreases v@.len() - i,
    {
        if str_eq(v[i].as_str(), n) {
            proof {
                assert(string_views(v@)[i as int] == n@);
            }
            return true;
        }
        i = i + 1;
    }
    proof {
        if string_views(v@).contains(n@) {
            let k = choose|k: int| 0 <= k < string_views(v@).len() && string_views(v@)[k] == n@;
            assert(v@[k]@ != n@);
        }
    }
    false
}

fn add_roots_exec(acc: &mut Vec<String>, rs: &Vec<String>)
    ensures
        string_views(final(acc)@) == add_roots(string_views(old(acc)@), string_views(rs@)),
{
    let ghost a0 = string_views(acc@);
    let ghost rv = string_views(rs@);
    let mut i: usize = 0;
    proof {
        assert(rv.take(0) =~= Seq::<Seq<char>>::empty());
    }
    while i < rs.len()
        invariant
            i <= rs@.len(),
            rv == string_views(rs@),
            string_views(acc@) == add_roots(a0, rv.take(i as int)),
        decreases rs@.len() - i,
    {
        proof {
            assert(rv.take(i + 1).drop_last() =~= rv.take(i as int));
            assert(rv.take(i + 1).last() == rs@[i as int]@);
        }
        if !contains_root(acc, rs[i].as_str()) {
            let ghost before = string_views(acc@);
            acc.push(rs[i].clone());
            proof {
                assert(string_views(acc@) =~= before.push(rs@[i as int]@));
            }
        }
        i = i + 1;
    }
    proof {
        assert(rv.take(rs@.len() as int) =~= rv);
    }
}

fn roots_of_prov(p: Provenance) -> (r: Option<Vec<String>>)
    ensures
        opt_roots(r) == roots_view(prov_view(p)),
{
    match p {
        Provenance::Fresh => {
            let v: Vec<String> = Vec::new();
            proof {
                assert(string_views(v@) =~= Seq::<Seq<char>>::empty());
            }
            Some(v)
        },
        Provenance::Whole(n) => {
            let ghost nv = n@;
            let mut v: Vec<String> = Vec::new();
            v.push(n);
            proof {
                assert(string_views(v@) =~= seq![nv]);
            }
            Some(v)
        },
        Provenance::Reaches(rs) => Some(rs),
        Provenance::Unknown => None,
    }
}

fn fold_step_exec<O: TypeOracle>(
    acc: Option<Vec<String>>,
    e: &Expr,
    ctx: &ProvenanceCtx,
    oracle: &O,
    skip: bool,
) -> (r: Option<Vec<String>>)
    ensures
        opt_roots(r) == fold_step(opt_roots(acc), *e, ctx@, |x: Expr| oracle.spec_type_of(x), skip),
    decreases e, 1nat,
{
    match acc {
        None => None,
        Some(mut a) => {
            if skip {
                match oracle.type_of(e) {
                    Some(t) => {
                        if value_like(&t) {
                            return Some(a);
                        }
                    },
                    None => {},
                }
            }
            let p = provenance(e, ctx, oracle);
            match roots_of_prov(p) {
                Some(rs) => {
                    add_roots_exec(&mut a, &rs);
                    Some(a)
                },
                None => None,
            }
        },
    }
}

fn fold_exprs_exec<O: TypeOracle>(
    acc0: Option<Vec<String>>,
    v: &Vec<Expr>,
    ctx: &ProvenanceCtx,
    oracle: &O,
    skip: bool,
) -> (r: Option<Vec<String>>)
    ensures
        opt_roots(r) == fold_exprs(opt_roots(acc0), v@, ctx@, |x: Expr| oracle.spec_type_of(x), skip),
    decreases v, 2nat,
{
    let ghost a0 = opt_roots(acc0);
    let mut acc = acc0;
    let mut i: usize = 0;
    proof {
        assert(v@.subrange(0, 0) =~= Seq::<Expr>::empty());
    }
    while i < v.len()
        invariant
            i <= v@.len(),
            opt_roots(acc) == fold_exprs(a0, v@.subrange(0, i as int), ctx@, |x: Expr| oracle.spec_type_of(x), skip),
        decreases v@.len() - i,
    {
        proof {
            let pre = v@.subrange(0, i + 1);
            assert(pre.subrange(0, i as int) =~= v@.subrange(0, i as int));
            assert(pre[i as int] == v@[i as int]);
        }
        acc = fold_step_exec(acc, &v[i], ctx, oracle, skip);
        i = i + 1;
    }
    proof {
        assert(v@.subrange(0, v@.len() as int) =~= v@);
    }
    acc
}

fn fold_fields_exec<O: TypeOracle>(v: &Vec<FieldInit>, ctx: &ProvenanceCtx, oracle: &O) -> (r: Option<Vec<String>>)
    ensures
        opt_roots(r) == fold_fields(v@, ctx@, |x: Expr| oracle.spec_type_of(x)),
    decreases v, 2nat,
{
    let mut acc: Option<Vec<String>> = Some(Vec::new());
    let mut i: usize = 0;
    proof {
        assert(v@.subrange(0, 0) =~= Seq::<FieldInit>::empty());
        assert(opt_roots(acc) =~= Some(Seq::<Seq<char>>::empty()));
    }
    while i < v.len()
        invariant
            i <= v@.len(),
            opt_roots(acc) == fold_fields(v@.subrange(0, i as int), ctx@, |x: Expr| oracle.spec_type_of(x)),
        decreases v@.len() - i,
    {
        proof {
            let pre = v@.subrange(0, i + 1);
            assert(pre.subrange(0, i as int) =~= v@.subrange(0, i as int));
            assert(pre[i as int] == v@[i as int]);
        }
        acc = fold_step_exec(acc, &v[i].value, ctx, oracle, true);
        i = i + 1;
    }
    proof {
        assert(v@.subrange(0, v@.len() as int) =~= v@);
    }
    acc
}

fn fold_entries_exec<O: TypeOracle>(v: &Vec<MapEntryLit>, ctx: &ProvenanceCtx, oracle: &O) -> (r: Option<Vec<String>>)
    ensures
        opt_roots(r) == fold_entries(v@, ctx@, |x: Expr| oracle.spec_type_of(x)),
    decreases v, 2nat,
{
    let mut acc: Option<Vec<String>> = Some(Vec::new());
    let mut i: usize = 0;
    proof {
        assert(v@.subrange(0, 0) =~= Seq::<MapEntryLit>::empty());
        assert(opt_roots(acc) =~= Some(Seq::<Seq<char>>::empty()));
    }
    while i < v.len()
        invariant
            i <= v@.len(),
            opt_roots(acc) == fold_entries(v@.subrange(0, i as int), ctx@, |x: Expr| oracle.spec_type_of(x)),
        decreases v@.len() - i,
    {
        proof {
            let pre = v@.subrange(0, i + 1);
            assert(pre.subrange(0, i as int) =~= v@.subrange(0, i as int));
            assert(pre[i as int] == v@[i as int]);
        }
        let k = fold_step_exec(acc, &v[i].key, ctx, oracle, true);
        acc = fold_step_exec(k, &v[i].value, ctx, oracle, true);
        i = i + 1;
    }
    proof {
        assert(v@.subrange(0, v@.len() as int) =~= v@);
    }
    acc
}

fn aggregate_of(r: Option<Vec<String>>) -> (p: Provenance)
    ensures
        prov_view(p) == aggregate(opt_roots(r)),
{
    match r {
        None => Provenance::Unknown,
        Some(rs) => {
            if rs.len() == 0 {
                Provenance::Fresh
            } else {
                Provenance::Reaches(rs)
            }
        },
    }
}

fn returns_fresh(rows: &Vec<(String, Freshness)>, name: &str) -> (b: bool)
    ensures
        b == is_fresh_returning(rows@, name@),
{
    match find_row(rows, name) {
        Some(i) => matches!(rows[i].1, Freshness::Fresh),
        None => false,
    }
}

fn call_result_provenance(callee: &str, args_roots: Option<Vec<String>>, ctx: &ProvenanceCtx) -> (p: Provenance)
    ensures
        prov_view(p) == call_result(callee@, opt_roots(args_roots), ctx@),
{
    if ctx.imported_fn_names.contains(callee) && !ctx.local_fns.contains(callee) {
        return Provenance::Unknown;
    }
    if returns_fresh(ctx.returns_fresh, callee) {
        return Provenance::Fresh;
    }
    match args_roots {
        None => Provenance::Unknown,
        Some(rs) => Provenance::Reaches(rs),
    }
}

fn piece_of_exec(receiver: &Expr) -> (p: Provenance)
    ensures
        prov_view(p) == piece_of(*receiver),
{
    let mut v: Vec<String> = Vec::new();
    match root_binding_name(receiver) {
        Some(r) => {
            v.push(lit(r));
            proof {
                assert(string_views(v@) =~= seq![r@]);
            }
        },
        None => {
            proof {
                assert(string_views(v@) =~= Seq::<Seq<char>>::empty());
            }
        },
    }
    Provenance::Reaches(v)
}

/// Classify an expression's value (see [`prov`]).
pub fn provenance<O: TypeOracle>(e: &Expr, ctx: &ProvenanceCtx, oracle: &O) -> (p: Provenance)
    ensures
        prov_view(p) == prov(*e, ctx@, |x: Expr| oracle.spec_type_of(x)),
    decreases e, 0nat,
{
    match e {
        Expr::IntLit(..) | Expr::NumberLit(..) | Expr::BoolLit(..) | Expr::StringLit(..) | Expr::NoneLit { .. }
        | Expr::BinOp { .. } | Expr::UnaryOp { .. } | Expr::InterpolatedString(..) | Expr::Is { .. } => Provenance::Fresh,
        Expr::Ident(n, _) => Provenance::Whole(n.clone()),
        Expr::SelfValue { .. } => {
            let r = Provenance::Whole(lit("self"));
            proof {
                reveal_strlit("self");
            }
            r
        },
        Expr::FieldAccess { receiver, .. } => piece_of_exec(receiver),
        Expr::IndexAccess { receiver, .. } => piece_of_exec(receiver),
        Expr::ArrayLit { elements, .. } => {
            let start: Vec<String> = Vec::new();
            proof {
                assert(opt_roots(Some(start)) =~= Some(Seq::<Seq<char>>::empty()));
            }
            aggregate_of(fold_exprs_exec(Some(start), elements, ctx, oracle, true))
        },
        Expr::MapLit { entries, .. } => aggregate_of(fold_entries_exec(entries, ctx, oracle)),
        Expr::StructLit { fields, .. } => aggregate_of(fold_fields_exec(fields, ctx, oracle)),
        Expr::PostfixOp { receiver, op, .. } => match op {
            PostfixOpKind::Copy => match oracle.type_of(receiver) {
                Some(t) => {
                    if copy_is_independent(&t) {
                        Provenance::Fresh
                    } else {
                        Provenance::Unknown
                    }
                },
                None => Provenance::Unknown,
            },
            PostfixOpKind::Freeze => Provenance::Fresh,
        },
        Expr::Call(c) => match &*c.callee {
            Expr::Ident(n, _) => {
                if str_eq(n.as_str(), "channel") {
                    Provenance::Fresh
                } else if ctx.local_fns.contains(n.as_str()) || ctx.imported_fn_names.contains(n.as_str()) {
                    let start: Vec<String> = Vec::new();
                    proof {
                        assert(opt_roots(Some(start)) =~= Some(Seq::<Seq<char>>::empty()));
                    }
                    let roots = fold_exprs_exec(Some(start), &c.args, ctx, oracle, true);
                    call_result_provenance(n.as_str(), roots, ctx)
                } else {
                    Provenance::Fresh
                }
            },
            _ => Provenance::Unknown,
        },
        Expr::MethodCall { receiver, method, args, .. } => {
            if ctx.local_fns.contains(method.as_str()) || ctx.imported_fn_names.contains(method.as_str()) {
                let start: Vec<String> = Vec::new();
                proof {
                    assert(opt_roots(Some(start)) =~= Some(Seq::<Seq<char>>::empty()));
                }
                let first = fold_step_exec(Some(start), receiver, ctx, oracle, true);
                let roots = fold_exprs_exec(first, args, ctx, oracle, true);
                call_result_provenance(method.as_str(), roots, ctx)
            } else {
                let rt = oracle.type_of(receiver);
                if matches!(rt, Some(Type::Dynamic { .. })) {
                    return Provenance::Unknown;
                }
                match oracle.type_of(e) {
                    Some(t) => {
                        if value_like(&t) {
                            return Provenance::Fresh;
                        }
                    },
                    None => {},
                }
                if ctx.fresh_builtin_methods.contains(method.as_str()) {
                    return Provenance::Fresh;
                }
                piece_of_exec(receiver)
            }
        },
        Expr::Wait(inner, _) => provenance(inner, ctx, oracle),
        Expr::Background(..) => Provenance::Fresh,
        Expr::Error(..) => Provenance::Unknown,
    }
}

} // verus!
