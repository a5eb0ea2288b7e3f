//! Generic functions and shapes: type-parameter substitutions, unification of a declared
//! parameter type against an argument type, and the table of monomorphized instances.
use vstd::prelude::*;

use crate::diagnostics::SourceSpan;
use crate::names::{find_row, lookup};
use crate::options_table::str_views;
use crate::shapes::FieldDef;
use crate::syntax::OwnershipModifier;
use crate::text::{lit, str_eq, string_views};
use crate::types::{
    dup_types, lemma_view_types, lemma_view_types_ext, render_type, spec_render_type, type_view, types_eq, view_types,
    Type, TypeView,
};

verus! {

/// Maps type-parameter names to concrete types.
pub struct Substitution {
    entries: Vec<(String, Type)>,
}

/// No name is bound twice.
pub open spec fn distinct_keys(s: Seq<(String, Type)>) -> bool {
    forall|i: int, j: int| 0 <= i < s.len() && 0 <= j < s.len() && i != j ==> s[i].0@ != s[j].0@
}

impl Substitution {
    #[verifier::type_invariant]
    spec fn inv(&self) -> bool {
        distinct_keys(self.entries@)
    }

    /// The empty substitution.
    pub fn new() -> (s: Substitution)
        ensures
            s@ == Map::<Seq<char>, TypeView>::empty(),
    {
        let s = Substitution { entries: Vec::new() };
        proof {
            assert(s@ =~= Map::<Seq<char>, TypeView>::empty());
        }
        s
    }

    fn position(&self, name: &str) -> (r: Option<usize>)
        ensures
            match r {
                Some(i) => i < self.entries@.len() && self.entries@[i as int].0@ == name@,
                None => !self@.contains_key(name@),
            },
    {
        let mut i: usize = 0;
        while i < self.entries.len()
            invariant
                i <= self.entries.len(),
                forall|j: int| 0 <= j < i ==> #[trigger] self.entries@[j].0@ != name@,
            decreases self.entries.len() - i,
        {
            if crate::text::str_eq(self.entries[i].0.as_str(), name) {
                return Some(i);
            }
            i = i + 1;
        }
        None
    }

    /// The type bound to `name`, if any.
    pub fn get(&self, name: &str) -> (r: Option<&Type>)
        ensures
            match r {
                Some(t) => self@.contains_key(name@) && self@[name@] == t@,
                None => !self@.contains_key(name@),
            },
    {
        proof {
            use_type_invariant(self);
        }
        match self.position(name) {
            Some(i) => {
                proof {
                    lemma_entry_value(self.entries@, i as int);
                }
                Some(&self.entries[i].1)
            },
            None => None,
        }
    }

    /// Bind `name` to `ty`, replacing an earlier binding of `name`.
    pub fn insert(&mut self, name: String, ty: Type)
        ensures
            final(self)@ == old(self)@.insert(name@, ty@),
    {
        proof {
            use_type_invariant(&*self);
        }
        let ghost before = self.entries@;
        let ghost nv = name@;
        let ghost tv = ty@;
        let mut entries: Vec<(String, Type)> = Vec::new();
        std::mem::swap(&mut entries, &mut self.entries);
        let ghost mut pos: int = before.len() as int;
        match self.position_in(&entries, name.as_str()) {
            Some(i) => {
                proof {
                    pos = i as int;
                }
                entries.set(i, (name, ty));
                proof {
                    assert forall|a: int, b: int|
                        0 <= a < entries@.len() && 0 <= b < entries@.len() && a != b implies entries@[a].0@
                            != entries@[b].0@ by {
                        if a != i && b != i {
                            assert(entries@[a] == before[a] && entries@[b] == before[b]);
                        } else if a == i {
                            assert(entries@[b] == before[b]);
                        } else {
                            assert(entries@[a] == before[a]);
                        }
                    }
                }
            },
            None => {
                entries.push((name, ty));
                proof {
                    assert forall|a: int, b: int|
                        0 <= a < entries@.len() && 0 <= b < entries@.len() && a != b implies entries@[a].0@
                            != entries@[b].0@ by {
                        if a < before.len() && b < before.len() {
                            assert(entries@[a] == before[a] && entries@[b] == before[b]);
                        } else if a == before.len() {
                            assert(entries@[b] == before[b]);
                            assert(!map_of(before).contains_key(nv));
                        } else {
                            assert(entries@[a] == before[a]);
                            assert(!map_of(before).contains_key(nv));
                        }
                    }
                }
            },
        }
        self.entries = entries;
        proof {
            assert(self@ =~= map_of(before).insert(nv, tv)) by {
                assert forall|k: Seq<char>| #[trigger] self@.contains_key(k) implies map_of(before).insert(nv, tv).contains_key(k)
                    && self@[k] == map_of(before).insert(nv, tv)[k] by {
                    let j = choose|j: int| 0 <= j < self.entries@.len() && self.entries@[j].0@ == k;
                    lemma_entry_value(self.entries@, j);
                    if k == nv {
                        assert(self.entries@[pos].0@ == nv);
                        assert(j == pos);
                    } else {
                        assert(self.entries@[j] == before[j]);
                        lemma_entry_value(before, j);
                    }
                }
                assert forall|k: Seq<char>| #[trigger] map_of(before).insert(nv, tv).contains_key(k) implies self@.contains_key(k) by {
                    if k == nv {
                        assert(self.entries@[pos].0@ == nv);
                    } else {
                        let j = choose|j: int| 0 <= j < before.len() && before[j].0@ == k;
                        assert(self.entries@[j] == before[j]);
                    }
                }
            }
        }
    }

    fn position_in(&self, entries: &Vec<(String, Type)>, name: &str) -> (r: Option<usize>)
        ensures
            match r {
                Some(i) => i < entries@.len() && entries@[i as int].0@ == name@,
                None => !map_of(entries@).contains_key(name@),
            },
    {
        let mut i: usize = 0;
        while i < entries.len()
            invariant
                i <= entries.len(),
                forall|j: int| 0 <= j < i ==> #[trigger] entries@[j].0@ != name@,
            decreases entries.len() - i,
        {
            if crate::text::str_eq(entries[i].0.as_str(), name) {
                return Some(i);
            }
            i = i + 1;
        }
        None
    }
}

/// The map a list of distinct bindings denotes.
pub open spec fn map_of(s: Seq<(String, Type)>) -> Map<Seq<char>, TypeView> {
    Map::new(
        |k: Seq<char>| exists|i: int| 0 <= i < s.len() && #[trigger] s[i].0@ == k,
        |k: Seq<char>| {
            let i = choose|i: int| 0 <= i < s.len() && #[trigger] s[i].0@ == k;
            s[i].1@
        },
    )
}

proof fn lemma_entry_value(s: Seq<(String, Type)>, i: int)
    requires
        distinct_keys(s),
        0 <= i < s.len(),
    ensures
        map_of(s).contains_key(s[i].0@),
        map_of(s)[s[i].0@] == s[i].1@,
{
    let k = s[i].0@;
    let j = choose|j: int| 0 <= j < s.len() && #[trigger] s[j].0@ == k;
    assert(j == i);
}

impl View for Substitution {
    type V = Map<Seq<char>, TypeView>;

    closed spec fn view(&self) -> Map<Seq<char>, TypeView> {
        map_of(self.entries@)
    }
}

/// The message for a type parameter bound to two different types.
pub open spec fn conflict_message(name: Seq<char>, existing: TypeView, arg: TypeView) -> Seq<char> {
    "two different types for `"@ + name + "`: `"@ + spec_render_type(existing) + "` and `"@ + spec_render_type(arg)
        + "`"@
}

/// The message for a parameter type that does not match its argument type.
pub open spec fn mismatch_message(param: TypeView, arg: TypeView) -> Seq<char> {
    "expected `"@ + spec_render_type(param) + "`, got `"@ + spec_render_type(arg) + "`"@
}

/// Unify a declared parameter type against an argument type, from the bindings `s`:
/// the error message if they do not unify (`None` when they do), and the bindings after
/// the attempt. A type parameter binds on first sight and must agree afterwards; generic
/// applications unify argument-wise, left to right, stopping at the first error (the
/// bindings made before it stay); any other type must equal the argument.
pub open spec fn spec_unify(p: TypeView, a: TypeView, s: Map<Seq<char>, TypeView>) -> (
    Option<Seq<char>>,
    Map<Seq<char>, TypeView>,
)
    decreases p,
{
    match p {
        TypeView::TypeParam { name } => if s.contains_key(name) {
            if s[name] == a {
                (None, s)
            } else {
                (Some(conflict_message(name, s[name], a)), s)
            }
        } else {
            (None, s.insert(name, a))
        },
        TypeView::Generic { name: pn, args: pa } => match a {
            TypeView::Generic { name: an, args: aa } => if pn == an && pa.len() == aa.len() {
                spec_unify_all(pa, aa, s)
            } else {
                (Some(mismatch_message(p, a)), s)
            },
            _ => (Some(mismatch_message(p, a)), s),
        },
        _ => if p == a {
            (None, s)
        } else {
            (Some(mismatch_message(p, a)), s)
        },
    }
}

/// Unify parameter types `ps` against argument types `as_` pairwise, left to right.
pub open spec fn spec_unify_all(ps: Seq<TypeView>, as_: Seq<TypeView>, s: Map<Seq<char>, TypeView>) -> (
    Option<Seq<char>>,
    Map<Seq<char>, TypeView>,
)
    decreases ps,
{
    if ps.len() == 0 || as_.len() == 0 {
        (None, s)
    } else {
        let r = spec_unify(ps[0], as_[0], s);
        if r.0 is Some {
            r
        } else {
            spec_unify_all(ps.subrange(1, ps.len() as int), as_.subrange(1, as_.len() as int), r.1)
        }
    }
}

fn conflict_text(name: &str, existing: &Type, arg: &Type) -> (m: String)
    ensures
        m@ == conflict_message(name@, existing@, arg@),
{
    let mut m = lit("two different types for `");
    m.append(name);
    m.append("`: `");
    m.append(render_type(existing).as_str());
    m.append("` and `");
    m.append(render_type(arg).as_str());
    m.append("`");
    proof {
        reveal_strlit("two different types for `");
    }
    m
}

fn mismatch_text(param: &Type, arg: &Type) -> (m: String)
    ensures
        m@ == mismatch_message(param@, arg@),
{
    let mut m = lit("expected `");
    m.append(render_type(param).as_str());
    m.append("`, got `");
    m.append(render_type(arg).as_str());
    m.append("`");
    proof {
        reveal_strlit("expected `");
    }
    m
}

/// Unify a parameter type (which may contain type parameters) against a concrete argument
/// type, recording new bindings in `subst`; on a mismatch, the message says why.
pub fn unify_param(param_ty: &Type, arg_ty: &Type, subst: &mut Substitution) -> (r: Result<(), String>)
    ensures
        match spec_unify(param_ty@, arg_ty@, old(subst)@) {
            (None, s) => r is Ok && final(subst)@ == s,
            (Some(msg), s) => r is Err && r->Err_0@ == msg && final(subst)@ == s,
        },
    decreases param_ty,
{
    match param_ty {
        Type::TypeParam { name } => {
            match subst.get(name.as_str()) {
                Some(existing) => {
                    if existing.equals(arg_ty) {
                        Ok(())
                    } else {
                        Err(conflict_text(name.as_str(), existing, arg_ty))
                    }
                },
                None => {
                    subst.insert(name.clone(), arg_ty.duplicate());
                    Ok(())
                },
            }
        },
        Type::Generic { name: pname, args: pargs } => {
            match arg_ty {
                Type::Generic { name: aname, args: aargs } => {
                    proof {
                        lemma_view_types(pargs@);
                        lemma_view_types(aargs@);
                    }
                    if crate::text::str_eq(pname.as_str(), aname.as_str()) && pargs.len() == aargs.len() {
                        unify_args(pargs, aargs, subst)
                    } else {
                        Err(mismatch_text(param_ty, arg_ty))
                    }
                },
                _ => Err(mismatch_text(param_ty, arg_ty)),
            }
        },
        _ => {
            if param_ty.equals(arg_ty) {
                Ok(())
            } else {
                Err(mismatch_text(param_ty, arg_ty))
            }
        },
    }
}

fn unify_args(ps: &Vec<Type>, as_: &Vec<Type>, subst: &mut Substitution) -> (r: Result<(), String>)
    requires
        ps.len() == as_.len(),
    ensures
        match spec_unify_all(view_types(ps@), view_types(as_@), old(subst)@) {
            (None, s) => r is Ok && final(subst)@ == s,
            (Some(msg), s) => r is Err && r->Err_0@ == msg && final(subst)@ == s,
        },
    decreases ps,
{
    proof {
        lemma_view_types(ps@);
        lemma_view_types(as_@);
    }
    let ghost pv = view_types(ps@);
    let ghost av = view_types(as_@);
    let mut i: usize = 0;
    proof {
        assert(pv.subrange(0, pv.len() as int) =~= pv);
        assert(av.subrange(0, av.len() as int) =~= av);
    }
    while i < ps.len()
        invariant
            i <= ps.len(),
            ps.len() == as_.len(),
            pv == view_types(ps@),
            av == view_types(as_@),
            pv.len() == ps@.len(),
            av.len() == as_@.len(),
            forall|j: int| 0 <= j < ps@.len() ==> #[trigger] pv[j] == type_view(ps@[j]),
            forall|j: int| 0 <= j < as_@.len() ==> #[trigger] av[j] == type_view(as_@[j]),
            spec_unify_all(pv, av, old(subst)@) == spec_unify_all(
                pv.subrange(i as int, pv.len() as int),
                av.subrange(i as int, av.len() as int),
                subst@,
            ),
        decreases ps.len() - i,
    {
        proof {
            let rp = pv.subrange(i as int, pv.len() as int);
            let ra = av.subrange(i as int, av.len() as int);
            assert(rp[0] == pv[i as int]);
            assert(ra[0] == av[i as int]);
            assert(rp.subrange(1, rp.len() as int) =~= pv.subrange(i + 1, pv.len() as int));
            assert(ra.subrange(1, ra.len() as int) =~= av.subrange(i + 1, av.len() as int));
        }
        match unify_param(&ps[i], &as_[i], subst) {
            Ok(()) => {},
            Err(m) => {
                return Err(m);
            },
        }
        i = i + 1;
    }
    proof {
        assert(pv.subrange(i as int, pv.len() as int).len() == 0);
    }
    Ok(())
}

/// Replace every type parameter bound in `s` by its binding.
pub open spec fn spec_apply(t: TypeView, s: Map<Seq<char>, TypeView>) -> TypeView
    decreases t,
{
    match t {
        TypeView::TypeParam { name } => if s.contains_key(name) {
            s[name]
        } else {
            t
        },
        TypeView::Generic { name, args } => TypeView::Generic { name, args: spec_apply_all(args, s) },
        _ => t,
    }
}

pub open spec fn spec_apply_all(ts: Seq<TypeView>, s: Map<Seq<char>, TypeView>) -> Seq<TypeView>
    decreases ts,
{
    if ts.len() == 0 {
        Seq::empty()
    } else {
        seq![spec_apply(ts[0], s)] + spec_apply_all(ts.subrange(1, ts.len() as int), s)
    }
}

proof fn lemma_apply_all(ts: Seq<TypeView>, s: Map<Seq<char>, TypeView>)
    ensures
        spec_apply_all(ts, s).len() == ts.len(),
        forall|i: int| 0 <= i < ts.len() ==> #[trigger] spec_apply_all(ts, s)[i] == spec_apply(ts[i], s),
    decreases ts.len(),
{
    if ts.len() > 0 {
        lemma_apply_all(ts.subrange(1, ts.len() as int), s);
        assert forall|i: int| 0 <= i < ts.len() implies #[trigger] spec_apply_all(ts, s)[i] == spec_apply(ts[i], s) by {
            if i > 0 {
                assert(ts.subrange(1, ts.len() as int)[i - 1] == ts[i]);
            }
        }
    }
}

/// Recursively apply `subst` to `ty`, replacing bound type parameters with their types.
pub fn apply_substitution(ty: &Type, subst: &Substitution) -> (r: Type)
    ensures
        r@ == spec_apply(ty@, subst@),
    decreases ty,
{
    match ty {
        Type::TypeParam { name } => match subst.get(name.as_str()) {
            Some(t) => t.duplicate(),
            None => ty.duplicate(),
        },
        Type::Generic { name, args } => {
            let out = apply_substitution_all(args, subst);
            Type::Generic { name: name.clone(), args: out }
        },
        _ => ty.duplicate(),
    }
}

fn apply_substitution_all(args: &Vec<Type>, subst: &Substitution) -> (out: Vec<Type>)
    ensures
        view_types(out@) == spec_apply_all(view_types(args@), subst@),
    decreases args,
{
    let mut out: Vec<Type> = Vec::new();
    let mut i: usize = 0;
    proof {
        lemma_view_types(args@);
        lemma_apply_all(view_types(args@), subst@);
    }
    while i < args.len()
        invariant
            i <= args.len(),
            out@.len() == i,
            view_types(args@).len() == args@.len(),
            forall|j: int| 0 <= j < args@.len() ==> #[trigger] view_types(args@)[j] == type_view(args@[j]),
            spec_apply_all(view_types(args@), subst@).len() == args@.len(),
            forall|j: int|
                0 <= j < args@.len() ==> #[trigger] spec_apply_all(view_types(args@), subst@)[j] == spec_apply(
                    view_types(args@)[j],
                    subst@,
                ),
            forall|j: int| 0 <= j < i ==> type_view(#[trigger] out@[j]) == spec_apply(type_view(args@[j]), subst@),
        decreases args.len() - i,
    {
        out.push(apply_substitution(&args[i], subst));
        i = i + 1;
    }
    proof {
        lemma_view_types(out@);
        assert(view_types(out@) =~= spec_apply_all(view_types(args@), subst@));
    }
    out
}

} // verus!

verus! {

/// Key into the monomorphization table: the function name and its concrete type arguments.
#[derive(Debug)]
pub struct MonoKey {
    pub fn_name: String,
    pub type_args: Vec<Type>,
}

/// The concrete signature produced when a generic function is instantiated.
#[derive(Debug)]
pub struct MonoSignature {
    pub param_types: Vec<Type>,
    pub ret_type: Type,
}

/// The value a key denotes: the name and the types as their models.
pub open spec fn key_view(k: MonoKey) -> (Seq<char>, Seq<TypeView>) {
    (k.fn_name@, view_types(k.type_args@))
}

/// The value a signature denotes.
pub open spec fn sig_view(s: MonoSignature) -> (Seq<TypeView>, TypeView) {
    (view_types(s.param_types@), s.ret_type@)
}

/// No key occurs twice.
pub open spec fn distinct_mono_keys(s: Seq<(MonoKey, MonoSignature)>) -> bool {
    forall|i: int, j: int| 0 <= i < s.len() && 0 <= j < s.len() && i != j ==> key_view(s[i].0) != key_view(s[j].0)
}

/// The map a list of distinct instances denotes.
pub open spec fn mono_map_of(s: Seq<(MonoKey, MonoSignature)>) -> Map<(Seq<char>, Seq<TypeView>), (Seq<TypeView>, TypeView)> {
    Map::new(
        |k: (Seq<char>, Seq<TypeView>)| exists|i: int| 0 <= i < s.len() && #[trigger] key_view(s[i].0) == k,
        |k: (Seq<char>, Seq<TypeView>)| {
            let i = choose|i: int| 0 <= i < s.len() && #[trigger] key_view(s[i].0) == k;
            sig_view(s[i].1)
        },
    )
}

proof fn lemma_mono_entry(s: Seq<(MonoKey, MonoSignature)>, i: int)
    requires
        distinct_mono_keys(s),
        0 <= i < s.len(),
    ensures
        mono_map_of(s).contains_key(key_view(s[i].0)),
        mono_map_of(s)[key_view(s[i].0)] == sig_view(s[i].1),
{
    let k = key_view(s[i].0);
    let j = choose|j: int| 0 <= j < s.len() && #[trigger] key_view(s[j].0) == k;
    assert(j == i);
}

/// All generic instantiations observed while checking a module, one signature per
/// function name and concrete type arguments.
pub struct MonomorphizationTable {
    entries: Vec<(MonoKey, MonoSignature)>,
}

impl View for MonomorphizationTable {
    type V = Map<(Seq<char>, Seq<TypeView>), (Seq<TypeView>, TypeView)>;

    closed spec fn view(&self) -> Self::V {
        mono_map_of(self.entries@)
    }
}

impl MonomorphizationTable {
    #[verifier::type_invariant]
    spec fn inv(&self) -> bool {
        distinct_mono_keys(self.entries@)
    }

    /// The empty table.
    pub fn new() -> (t: MonomorphizationTable)
        ensures
            t@ == Map::<(Seq<char>, Seq<TypeView>), (Seq<TypeView>, TypeView)>::empty(),
    {
        let t = MonomorphizationTable { entries: Vec::new() };
        proof {
            assert(t@ =~= Map::<(Seq<char>, Seq<TypeView>), (Seq<TypeView>, TypeView)>::empty());
        }
        t
    }

    /// Number of recorded instantiations.
    pub fn len(&self) -> (n: usize)
        ensures
            n == self@.len(),
    {
        proof {
            use_type_invariant(self);
            lemma_mono_len(self.entries@);
        }
        self.entries.len()
    }

    /// The signature recorded for `fn_name` instantiated at `type_args`, if any.
    pub fn get(&self, fn_name: &str, type_args: &Vec<Type>) -> (r: Option<&MonoSignature>)
        ensures
            match r {
                Some(sg) => self@.contains_key((fn_name@, view_types(type_args@))) && self@[(
                    fn_name@,
                    view_types(type_args@),
                )] == sig_view(*sg),
                None => !self@.contains_key((fn_name@, view_types(type_args@))),
            },
    {
        proof {
            use_type_invariant(self);
        }
        match find_key(&self.entries, fn_name, type_args) {
            Some(i) => {
                proof {
                    lemma_mono_entry(self.entries@, i as int);
                }
                Some(&self.entries[i].1)
            },
            None => None,
        }
    }

    /// Record the instantiation of `fn_name` at `type_args` with signature `sig`,
    /// replacing an earlier record of the same instantiation: the table is finite and grows
    /// by at most one entry.
    pub fn record(&mut self, fn_name: String, type_args: Vec<Type>, sig: MonoSignature)
        ensures
            final(self)@ == old(self)@.insert((fn_name@, view_types(type_args@)), sig_view(sig)),
            final(self)@.dom().finite(),
            final(self)@.len() <= old(self)@.len() + 1,
    {
        proof {
            use_type_invariant(&*self);
        }
        let ghost before = self.entries@;
        let ghost kv = (fn_name@, view_types(type_args@));
        let ghost sv = sig_view(sig);
        let mut entries: Vec<(MonoKey, MonoSignature)> = Vec::new();
        std::mem::swap(&mut entries, &mut self.entries);
        let ghost mut pos: int = before.len() as int;
        let found = find_key(&entries, fn_name.as_str(), &type_args);
        let key = MonoKey { fn_name, type_args };
        match found {
            Some(i) => {
                proof {
                    pos = i as int;
                }
                entries.set(i, (key, sig));
            },
            None => {
                entries.push((key, sig));
            },
        }
        proof {
            assert(key_view(entries@[pos].0) == kv);
            assert forall|a: int, b: int|
                0 <= a < entries@.len() && 0 <= b < entries@.len() && a != b implies key_view(entries@[a].0) != key_view(
                entries@[b].0,
            ) by {
                if a != pos && b != pos {
                    assert(entries@[a] == before[a] && entries@[b] == before[b]);
                } else if a == pos {
                    assert(entries@[b] == before[b]);
                    if pos == before.len() {
                        assert(!mono_map_of(before).contains_key(kv));
                    }
                } else {
                    assert(entries@[a] == before[a]);
                    if pos == before.len() {
                        assert(!mono_map_of(before).contains_key(kv));
                    }
                }
            }
        }
        self.entries = entries;
        proof {
            let ne = self.entries@;
            assert(self@ =~= mono_map_of(before).insert(kv, sv)) by {
                assert forall|k: (Seq<char>, Seq<TypeView>)| #[trigger] self@.contains_key(k) implies mono_map_of(
                    before,
                ).insert(kv, sv).contains_key(k) && self@[k] == mono_map_of(before).insert(kv, sv)[k] by {
                    let j = choose|j: int| 0 <= j < ne.len() && #[trigger] key_view(ne[j].0) == k;
                    lemma_mono_entry(ne, j);
                    if k == kv {
                        assert(j == pos);
                    } else {
                        assert(ne[j] == before[j]);
                        lemma_mono_entry(before, j);
                    }
                }
                assert forall|k: (Seq<char>, Seq<TypeView>)| #[trigger] mono_map_of(before).insert(kv, sv).contains_key(
                    k,
                ) implies self@.contains_key(k) by {
                    if k != kv {
                        let j = choose|j: int| 0 <= j < before.len() && #[trigger] key_view(before[j].0) == k;
                        assert(ne[j] == before[j]);
                    }
                }
            }
            lemma_mono_len(before);
            lemma_mono_len(ne);
        }
    }
}

proof fn lemma_mono_len(s: Seq<(MonoKey, MonoSignature)>)
    requires
        distinct_mono_keys(s),
    ensures
        mono_map_of(s).dom().finite(),
        mono_map_of(s).len() == s.len(),
    decreases s.len(),
{
    let keys = Seq::new(s.len(), |i: int| key_view(s[i].0));
    assert(mono_map_of(s).dom() =~= keys.to_set()) by {
        assert forall|k| #[trigger] keys.to_set().contains(k) implies mono_map_of(s).dom().contains(k) by {
            let i = choose|i: int| 0 <= i < keys.len() && keys[i] == k;
            assert(key_view(s[i].0) == k);
        }
        assert forall|k| #[trigger] mono_map_of(s).dom().contains(k) implies keys.to_set().contains(k) by {
            let i = choose|i: int| 0 <= i < s.len() && #[trigger] key_view(s[i].0) == k;
            assert(keys[i] == k);
        }
    }
    assert(keys.no_duplicates());
    keys.unique_seq_to_set();
}

fn find_key(entries: &Vec<(MonoKey, MonoSignature)>, fn_name: &str, type_args: &Vec<Type>) -> (r: Option<usize>)
    ensures
        match r {
            Some(i) => i < entries@.len() && key_view(entries@[i as int].0) == (fn_name@, view_types(type_args@)),
            None => !mono_map_of(entries@).contains_key((fn_name@, view_types(type_args@))),
        },
{
    let mut i: usize = 0;
    while i < entries.len()
        invariant
            i <= entries.len(),
            forall|j: int| 0 <= j < i ==> #[trigger] key_view(entries@[j].0) != (fn_name@, view_types(type_args@)),
        decreases entries.len() - i,
    {
        let k = &entries[i].0;
        if crate::text::str_eq(k.fn_name.as_str(), fn_name) && types_eq(&k.type_args, type_args) {
            return Some(i);
        }
        i = i + 1;
    }
    None
}

} // verus!

verus! {

/// `big` keeps every binding of `small`.
pub open spec fn extends(small: Map<Seq<char>, TypeView>, big: Map<Seq<char>, TypeView>) -> bool {
    forall|k: Seq<char>| #[trigger] small.contains_key(k) ==> big.contains_key(k) && big[k] == small[k]
}

proof fn lemma_unify_extends(p: TypeView, a: TypeView, s: Map<Seq<char>, TypeView>)
    ensures
        extends(s, spec_unify(p, a, s).1),
    decreases p,
{
    match p {
        TypeView::Generic { name: pn, args: pa } => match a {
            TypeView::Generic { name: an, args: aa } => if pn == an && pa.len() == aa.len() {
                lemma_unify_all_extends(pa, aa, s);
            },
            _ => {},
        },
        _ => {},
    }
}

proof fn lemma_unify_all_extends(ps: Seq<TypeView>, as_: Seq<TypeView>, s: Map<Seq<char>, TypeView>)
    ensures
        extends(s, spec_unify_all(ps, as_, s).1),
    decreases ps,
{
    if ps.len() > 0 && as_.len() > 0 {
        let r = spec_unify(ps[0], as_[0], s);
        lemma_unify_extends(ps[0], as_[0], s);
        if r.0 is None {
            lemma_unify_all_extends(ps.subrange(1, ps.len() as int), as_.subrange(1, as_.len() as int), r.1);
        }
    }
}

proof fn lemma_unify_apply(p: TypeView, a: TypeView, s: Map<Seq<char>, TypeView>, s2: Map<Seq<char>, TypeView>)
    requires
        spec_unify(p, a, s).0 is None,
        extends(spec_unify(p, a, s).1, s2),
    ensures
        spec_apply(p, s2) == a,
    decreases p,
{
    match p {
        TypeView::TypeParam { name } => {
            assert(spec_unify(p, a, s).1.contains_key(name));
        },
        TypeView::Generic { name: pn, args: pa } => match a {
            TypeView::Generic { name: an, args: aa } => {
                lemma_unify_all_apply(pa, aa, s, s2);
            },
            _ => {},
        },
        _ => {},
    }
}

proof fn lemma_unify_all_apply(
    ps: Seq<TypeView>,
    as_: Seq<TypeView>,
    s: Map<Seq<char>, TypeView>,
    s2: Map<Seq<char>, TypeView>,
)
    requires
        ps.len() == as_.len(),
        spec_unify_all(ps, as_, s).0 is None,
        extends(spec_unify_all(ps, as_, s).1, s2),
    ensures
        spec_apply_all(ps, s2) == as_,
    decreases ps,
{
    if ps.len() > 0 {
        let r = spec_unify(ps[0], as_[0], s);
        let tp = ps.subrange(1, ps.len() as int);
        let ta = as_.subrange(1, as_.len() as int);
        lemma_unify_all_extends(tp, ta, r.1);
        lemma_unify_apply(ps[0], as_[0], s, s2);
        lemma_unify_all_apply(tp, ta, r.1, s2);
        assert(spec_apply_all(ps, s2) =~= as_) by {
            assert(as_ =~= seq![as_[0]] + ta);
        }
    } else {
        assert(spec_apply_all(ps, s2) =~= as_);
    }
}

/// Unification only ever adds bindings, and when it succeeds the parameter type under
/// the resulting bindings (or any extension of them) is exactly the argument type.
pub proof fn lemma_unify_then_apply(
    p: TypeView,
    a: TypeView,
    s: Map<Seq<char>, TypeView>,
    s2: Map<Seq<char>, TypeView>,
)
    ensures
        extends(s, spec_unify(p, a, s).1),
        spec_unify(p, a, s).0 is None ==> spec_apply(p, spec_unify(p, a, s).1) == a,
        spec_unify(p, a, s).0 is None && extends(spec_unify(p, a, s).1, s2) ==> spec_apply(p, s2) == a,
{
    lemma_unify_extends(p, a, s);
    if spec_unify(p, a, s).0 is None {
        lemma_unify_apply(p, a, s, spec_unify(p, a, s).1);
        if extends(spec_unify(p, a, s).1, s2) {
            lemma_unify_apply(p, a, s, s2);
        }
    }
}

/// `big` keeps every binding of `small` and binds each further name only to itself.
pub open spec fn trivially_extends(small: Map<Seq<char>, TypeView>, big: Map<Seq<char>, TypeView>) -> bool {
    &&& extends(small, big)
    &&& forall|k: Seq<char>|
        #[trigger] big.contains_key(k) && !small.contains_key(k) ==> big[k] == TypeView::TypeParam { name: k }
}

proof fn lemma_trivially_extends_trans(
    a: Map<Seq<char>, TypeView>,
    b: Map<Seq<char>, TypeView>,
    c: Map<Seq<char>, TypeView>,
)
    requires
        trivially_extends(a, b),
        trivially_extends(b, c),
    ensures
        trivially_extends(a, c),
{
    assert forall|k: Seq<char>| #[trigger] c.contains_key(k) && !a.contains_key(k) implies c[k] == TypeView::TypeParam {
        name: k,
    } by {
        if b.contains_key(k) {
            assert(c[k] == b[k]);
        }
    }
}

proof fn lemma_apply_trivially_extended(t: TypeView, s: Map<Seq<char>, TypeView>, s2: Map<Seq<char>, TypeView>)
    requires
        trivially_extends(s, s2),
    ensures
        spec_apply(t, s2) == spec_apply(t, s),
    decreases t,
{
    match t {
        TypeView::TypeParam { name } => {
            if s.contains_key(name) {
                assert(s2.contains_key(name));
            }
        },
        TypeView::Generic { name, args } => {
            lemma_apply_all_trivially_extended(args, s, s2);
        },
        _ => {},
    }
}

proof fn lemma_apply_all_trivially_extended(ts: Seq<TypeView>, s: Map<Seq<char>, TypeView>, s2: Map<Seq<char>, TypeView>)
    requires
        trivially_extends(s, s2),
    ensures
        spec_apply_all(ts, s2) == spec_apply_all(ts, s),
    decreases ts,
{
    if ts.len() > 0 {
        lemma_apply_trivially_extended(ts[0], s, s2);
        lemma_apply_all_trivially_extended(ts.subrange(1, ts.len() as int), s, s2);
    }
}

proof fn lemma_matching_unify(p: TypeView, a: TypeView, s: Map<Seq<char>, TypeView>)
    requires
        spec_apply(p, s) == a,
    ensures
        spec_unify(p, a, s).0 is None,
        trivially_extends(s, spec_unify(p, a, s).1),
    decreases p,
{
    match p {
        TypeView::TypeParam { name } => {
            if !s.contains_key(name) {
                let s2 = s.insert(name, a);
                assert(trivially_extends(s, s2));
            }
        },
        TypeView::Generic { name: pn, args: pa } => {
            lemma_apply_all(pa, s);
            lemma_matching_unify_all(pa, spec_apply_all(pa, s), s);
        },
        _ => {},
    }
}

proof fn lemma_matching_unify_all(ps: Seq<TypeView>, as_: Seq<TypeView>, s: Map<Seq<char>, TypeView>)
    requires
        spec_apply_all(ps, s) == as_,
    ensures
        spec_unify_all(ps, as_, s).0 is None,
        trivially_extends(s, spec_unify_all(ps, as_, s).1),
    decreases ps,
{
    lemma_apply_all(ps, s);
    if ps.len() > 0 && as_.len() > 0 {
        let r = spec_unify(ps[0], as_[0], s);
        lemma_matching_unify(ps[0], as_[0], s);
        let rest_p = ps.subrange(1, ps.len() as int);
        let rest_a = as_.subrange(1, as_.len() as int);
        assert(spec_apply_all(ps, s) == seq![spec_apply(ps[0], s)] + spec_apply_all(rest_p, s));
        assert(rest_a =~= spec_apply_all(rest_p, s));
        lemma_apply_all_trivially_extended(rest_p, s, r.1);
        lemma_matching_unify_all(rest_p, rest_a, r.1);
        lemma_trivially_extends_trans(s, r.1, spec_unify_all(rest_p, rest_a, r.1).1);
    } else {
        assert(trivially_extends(s, s));
    }
}

/// Unification succeeds whenever the parameter type, under the bindings so far, already is
/// the argument type: a type parameter met again with the type it is bound to, or a type
/// that is the argument itself, is never a conflict. The bindings it adds change what no
/// type applies to.
pub proof fn lemma_apply_then_unify(p: TypeView, a: TypeView, s: Map<Seq<char>, TypeView>)
    requires
        spec_apply(p, s) == a,
    ensures
        spec_unify(p, a, s).0 is None,
        extends(s, spec_unify(p, a, s).1),
        forall|x: TypeView| #[trigger] spec_apply(x, spec_unify(p, a, s).1) == spec_apply(x, s),
{
    lemma_matching_unify(p, a, s);
    assert forall|x: TypeView| #[trigger] spec_apply(x, spec_unify(p, a, s).1) == spec_apply(x, s) by {
        lemma_apply_trivially_extended(x, s, spec_unify(p, a, s).1);
    }
}

/// The signature of a generic function, its types over its type parameters.
#[derive(Debug)]
pub struct GenericFnSig {
    /// Type-parameter names in order (`["T"]` for `identity<T>`).
    pub type_params: Vec<String>,
    /// Each constrained type parameter with the contracts it must follow.
    pub constraints: Vec<(String, Vec<String>)>,
    /// `(name, type)` per parameter.
    pub params: Vec<(String, Type)>,
    /// Declared modifier per parameter.
    pub param_ownerships: Vec<Option<OwnershipModifier>>,
    pub ret: Type,
    pub decl_span: SourceSpan,
}

/// The generic function signatures of a module, by name (a lookup reads the first row).
#[derive(Debug)]
pub struct GenericFnTable {
    pub fns: Vec<(String, GenericFnSig)>,
}

impl GenericFnTable {
    /// A table with no signatures.
    pub fn empty() -> (t: GenericFnTable)
        ensures
            t.fns@.len() == 0,
    {
        GenericFnTable { fns: Vec::new() }
    }

    /// The names of the signatures, in table order.
    pub fn all_names(&self) -> (r: Vec<&str>)
        ensures
            str_views(r@) == self.fns@.map_values(|e: (String, GenericFnSig)| e.0@),
    {
        let mut r: Vec<&str> = Vec::new();
        let mut i: usize = 0;
        while i < self.fns.len()
            invariant
                i <= self.fns@.len(),
                r@.len() == i,
                forall|j: int| 0 <= j < i ==> (#[trigger] r@[j])@ == self.fns@[j].0@,
            decreases self.fns@.len() - i,
        {
            r.push(self.fns[i].0.as_str());
            i = i + 1;
        }
        proof {
            assert(str_views(r@) =~= self.fns@.map_values(|e: (String, GenericFnSig)| e.0@));
        }
        r
    }
}

/// A generic shape (`shape Pair<A, B> { first: A, second: B }`): field types may be
/// type parameters.
#[derive(Debug)]
pub struct GenericShapeDef {
    pub name: String,
    /// Type-parameter names in order.
    pub type_params: Vec<String>,
    pub fields: Vec<FieldDef>,
    pub follows: Vec<String>,
    pub defined_at: SourceSpan,
}

/// The bindings of the first `k` type parameters to the first `k` type arguments, a later
/// binding of a repeated name replacing the earlier one.
pub open spec fn spec_make_substitution(params: Seq<Seq<char>>, args: Seq<TypeView>, k: int) -> Map<Seq<char>, TypeView>
    decreases k,
{
    if k <= 0 {
        Map::empty()
    } else {
        spec_make_substitution(params, args, k - 1).insert(params[k - 1], args[k - 1])
    }
}

impl GenericShapeDef {
    /// Bind the type parameters, in order, to the given type arguments (as far as both
    /// lists go).
    pub fn make_substitution(&self, type_args: &Vec<Type>) -> (s: Substitution)
        ensures
            s@ == spec_make_substitution(
                string_views(self.type_params@),
                view_types(type_args@),
                if self.type_params@.len() <= type_args@.len() {
                    self.type_params@.len() as int
                } else {
                    type_args@.len() as int
                },
            ),
    {
        let n = if self.type_params.len() <= type_args.len() {
            self.type_params.len()
        } else {
            type_args.len()
        };
        proof {
            lemma_view_types(type_args@);
        }
        let mut s = Substitution::new();
        let mut i: usize = 0;
        while i < n
            invariant
                i <= n,
                n <= self.type_params@.len(),
                n <= type_args@.len(),
                view_types(type_args@).len() == type_args@.len(),
                forall|j: int| 0 <= j < type_args@.len() ==> #[trigger] view_types(type_args@)[j] == type_view(type_args@[j]),
                s@ == spec_make_substitution(string_views(self.type_params@), view_types(type_args@), i as int),
            decreases n - i,
        {
            s.insert(self.type_params[i].clone(), type_args[i].duplicate());
            i = i + 1;
        }
        s
    }

    /// The type of the first field named `field_name`, with `subst` applied.
    pub fn field_type(&self, field_name: &str, subst: &Substitution) -> (r: Option<Type>)
        ensures
            match r {
                Some(t) => exists|i: int|
                    0 <= i < self.fields@.len() && self.fields@[i].name@ == field_name@ && (forall|j: int|
                        0 <= j < i ==> #[trigger] self.fields@[j].name@ != field_name@) && t@ == spec_apply(
                        self.fields@[i].ty@,
                        subst@,
                    ),
                None => forall|i: int| 0 <= i < self.fields@.len() ==> #[trigger] self.fields@[i].name@ != field_name@,
            },
    {
        let mut i: usize = 0;
        while i < self.fields.len()
            invariant
                i <= self.fields@.len(),
                forall|j: int| 0 <= j < i ==> #[trigger] self.fields@[j].name@ != field_name@,
            decreases self.fields@.len() - i,
        {
            if str_eq(self.fields[i].name.as_str(), field_name) {
                return Some(apply_substitution(&self.fields[i].ty, subst));
            }
            i = i + 1;
        }
        None
    }

    /// The field names, in order.
    pub fn field_names(&self) -> (r: Vec<&str>)
        ensures
            str_views(r@) == self.fields@.map_values(|f: FieldDef| f.name@),
    {
        let mut r: Vec<&str> = Vec::new();
        let mut i: usize = 0;
        while i < self.fields.len()
            invariant
                i <= self.fields@.len(),
                r@.len() == i,
                forall|j: int| 0 <= j < i ==> (#[trigger] r@[j])@ == self.fields@[j].name@,
            decreases self.fields@.len() - i,
        {
            r.push(self.fields[i].name.as_str());
            i = i + 1;
        }
        proof {
            assert(str_views(r@) =~= self.fields@.map_values(|f: FieldDef| f.name@));
        }
        r
    }
}

/// The generic shapes of a module, by name (a lookup reads the first row).
#[derive(Debug)]
pub struct GenericShapeTable {
    pub shapes: Vec<(String, GenericShapeDef)>,
}

impl GenericShapeTable {
    /// The generic shape named `name`.
    pub fn get(&self, name: &str) -> (r: Option<&GenericShapeDef>)
        ensures
            match r {
                Some(d) => lookup(self.shapes@, name@) == Some(*d),
                None => lookup(self.shapes@, name@) is None,
            },
    {
        match find_row(&self.shapes, name) {
            Some(i) => Some(&self.shapes[i].1),
            None => None,
        }
    }

    /// Is a generic shape named `name` in the table?
    pub fn contains(&self, name: &str) -> (b: bool)
        ensures
            b == (lookup(self.shapes@, name@) is Some),
    {
        find_row(&self.shapes, name).is_some()
    }
}

} // verus!
