//! The primitive intrinsic dispatch table (`int.toString()`, `string.count()`, `print`, …),
//! built from the feature registry's `primitive_intrinsic` entries.
use vstd::prelude::*;

use crate::text::{
    insert_sorted_unique, lit, sorted_unique, str_eq, str_starts_with, string_views,
};
use crate::types::{lemma_view_types, type_view, view_types, Type, TypeView};

verus! {

/// A free-standing function signature (not method dispatch).
#[derive(Debug)]
pub struct FreeFnSig {
    pub params: Vec<Type>,
    pub ret: Type,
}

/// The model of a [`FreeFnSig`].
pub struct FreeFnSigView {
    pub params: Seq<TypeView>,
    pub ret: TypeView,
}

impl View for FreeFnSig {
    type V = FreeFnSigView;

    open spec fn view(&self) -> FreeFnSigView {
        FreeFnSigView { params: view_types(self.params@), ret: self.ret@ }
    }
}

/// One `[[primitive_intrinsic]]` entry of the feature registry.
#[derive(Debug)]
pub struct RegistryEntry {
    /// The intrinsic's name (for `print_type` entries: the printable type string).
    pub name: String,
    /// `print_type`, `free_fn`, `method` or `method_1arg`.
    pub kind: String,
    /// The milestone that introduced the entry (`M6` entries are left out of the M3 table).
    pub since: String,
    /// The receiver type string of a method.
    pub receiver_type: Option<String>,
    /// Parameter type strings.
    pub param_types: Vec<String>,
    /// The return type string.
    pub return_type: String,
}

/// The model of a [`RegistryEntry`].
pub struct RegistryEntryView {
    pub name: Seq<char>,
    pub kind: Seq<char>,
    pub since: Seq<char>,
    pub receiver_type: Option<Seq<char>>,
    pub param_types: Seq<Seq<char>>,
    pub return_type: Seq<char>,
}

impl View for RegistryEntry {
    type V = RegistryEntryView;

    open spec fn view(&self) -> RegistryEntryView {
        RegistryEntryView {
            name: self.name@,
            kind: self.kind@,
            since: self.since@,
            receiver_type: match self.receiver_type {
                Some(r) => Some(r@),
                None => None,
            },
            param_types: string_views(self.param_types@),
            return_type: self.return_type@,
        }
    }
}

/// Parse a registry type string (`int`, `maybe<string>`, `array<int>`, …).
pub open spec fn spec_parse_type(s: Seq<char>) -> Option<TypeView>
    decreases s.len(),
{
    if s == "int"@ {
        Some(TypeView::Int)
    } else if s == "float"@ {
        Some(TypeView::Float)
    } else if s == "number"@ {
        Some(TypeView::Number { precision: 34 })
    } else if s == "bool"@ {
        Some(TypeView::Bool)
    } else if s == "string"@ {
        Some(TypeView::String)
    } else if s == "nothing"@ {
        Some(TypeView::Nothing)
    } else if s == "range<int>"@ {
        Some(TypeView::Range { element: Box::new(TypeView::Int), end_inclusive: false })
    } else if wrapped_in(s, "maybe<"@) {
        match spec_parse_type(s.subrange(6, s.len() - 1)) {
            Some(inner) => Some(TypeView::Maybe { inner: Box::new(inner) }),
            None => None,
        }
    } else if wrapped_in(s, "array<"@) {
        match spec_parse_type(s.subrange(6, s.len() - 1)) {
            Some(elem) => Some(TypeView::BuiltinArray { elem: Box::new(elem) }),
            None => None,
        }
    } else {
        None
    }
}

/// `s` is `<opener>…>`: starts with the six-character opener `maybe<` / `array<` and ends
/// with `>`.
pub open spec fn wrapped_in(s: Seq<char>, opener: Seq<char>) -> bool {
    s.len() >= 7 && s.subrange(0, 6) == opener && s[s.len() - 1] == '>'
}

fn parse_type(s: &str) -> (r: Option<Type>)
    ensures
        match r {
            Some(t) => spec_parse_type(s@) == Some(t@),
            None => spec_parse_type(s@) is None,
        },
    decreases s@.len(),
{
    if str_eq(s, "int") {
        Some(Type::Int)
    } else if str_eq(s, "float") {
        Some(Type::Float)
    } else if str_eq(s, "number") {
        Some(Type::Number { precision: 34 })
    } else if str_eq(s, "bool") {
        Some(Type::Bool)
    } else if str_eq(s, "string") {
        Some(Type::String)
    } else if str_eq(s, "nothing") {
        Some(Type::Nothing)
    } else if str_eq(s, "range<int>") {
        assert(type_view(Type::Int) == TypeView::Int);
        Some(Type::Range { element: Box::new(Type::Int), end_inclusive: false })
    } else {
        let n = s.unicode_len();
        proof {
            reveal_strlit("maybe<");
            reveal_strlit("array<");
        }
        let closes = n > 0 && s.get_char(n - 1) == '>';
        let opens_maybe = str_starts_with(s, "maybe<");
        let opens_array = str_starts_with(s, "array<");
        proof {
            if closes && n == 6 && (opens_maybe || opens_array) {
                assert(s@.subrange(0, 6)[5] == s@[5]);
            }
        }
        if opens_maybe && closes {
            let inner = s.substring_char(6, n - 1);
            match parse_type(inner) {
                Some(t) => Some(Type::Maybe { inner: Box::new(t) }),
                None => None,
            }
        } else if opens_array && closes {
            let inner = s.substring_char(6, n - 1);
            match parse_type(inner) {
                Some(t) => Some(Type::BuiltinArray { elem: Box::new(t) }),
                None => None,
            }
        } else {
            None
        }
    }
}

} // verus!

verus! {

/// The model of a [`PrimitiveIntrinsicTable`].
pub struct IntrinsicTableView {
    pub print_types: Seq<TypeView>,
    pub free_fns: Seq<(Seq<char>, FreeFnSigView)>,
    pub methods: Seq<(TypeView, Seq<char>, TypeView)>,
    pub methods_1arg: Seq<(TypeView, Seq<char>, TypeView, TypeView)>,
    pub internal_fns: Seq<(Seq<char>, FreeFnSigView)>,
    pub test_fns: Seq<(Seq<char>, FreeFnSigView)>,
}

/// The table of primitive intrinsics.
pub struct PrimitiveIntrinsicTable {
    print_types: Vec<Type>,
    pub free_fns: Vec<(String, FreeFnSig)>,
    methods: Vec<(Type, String, Type)>,
    methods_1arg: Vec<(Type, String, Type, Type)>,
    /// Internal-only intrinsics (`__testFallibleAsync`): never surfaced in completion or
    /// "did you mean" suggestions, only reachable through
    /// [`PrimitiveIntrinsicTable::lookup_free_fn_including_internal`].
    internal_fns: Vec<(String, FreeFnSig)>,
    /// Fixture intrinsics registered by tests.
    test_fns: Vec<(String, FreeFnSig)>,
}

pub open spec fn named_sigs_view(v: Seq<(String, FreeFnSig)>) -> Seq<(Seq<char>, FreeFnSigView)> {
    v.map_values(|p: (String, FreeFnSig)| (p.0@, p.1@))
}

pub open spec fn methods_view(v: Seq<(Type, String, Type)>) -> Seq<(TypeView, Seq<char>, TypeView)> {
    v.map_values(|m: (Type, String, Type)| (m.0@, m.1@, m.2@))
}

pub open spec fn methods_1arg_view(v: Seq<(Type, String, Type, Type)>) -> Seq<
    (TypeView, Seq<char>, TypeView, TypeView),
> {
    v.map_values(|m: (Type, String, Type, Type)| (m.0@, m.1@, m.2@, m.3@))
}

impl View for PrimitiveIntrinsicTable {
    type V = IntrinsicTableView;

    closed spec fn view(&self) -> IntrinsicTableView {
        IntrinsicTableView {
            print_types: view_types(self.print_types@),
            free_fns: named_sigs_view(self.free_fns@),
            methods: methods_view(self.methods@),
            methods_1arg: methods_1arg_view(self.methods_1arg@),
            internal_fns: named_sigs_view(self.internal_fns@),
            test_fns: named_sigs_view(self.test_fns@),
        }
    }
}

pub open spec fn entries_view(v: Seq<RegistryEntry>) -> Seq<RegistryEntryView> {
    v.map_values(|e: RegistryEntry| e@)
}

/// Collection receivers dispatch through their own builtins, not this scalar table.
pub open spec fn skipped_receiver(r: Option<Seq<char>>) -> bool {
    r == Some("array"@) || r == Some("fixed"@) || r == Some("maybe"@) || r == Some("map"@) || r
        == Some("channel"@)
}

/// Does a table built with (`include_m6`) or without M6 additions take this entry?
pub open spec fn entry_included(e: RegistryEntryView, include_m6: bool) -> bool {
    (include_m6 || e.since != "M6"@) && !skipped_receiver(e.receiver_type)
}

pub open spec fn all_parse(ps: Seq<Seq<char>>) -> bool {
    forall|i: int| 0 <= i < ps.len() ==> (#[trigger] spec_parse_type(ps[i])) is Some
}

pub open spec fn parse_all(ps: Seq<Seq<char>>) -> Seq<TypeView> {
    ps.map_values(|p: Seq<char>| spec_parse_type(p)->0)
}

/// An included entry the table can be built from (anything else makes construction fail
/// loudly): a known kind whose type strings all parse, with a receiver for methods and
/// exactly one parameter for one-argument methods.
pub open spec fn entry_well_formed(e: RegistryEntryView) -> bool {
    if e.kind == "print_type"@ {
        spec_parse_type(e.name) is Some
    } else if e.kind == "free_fn"@ {
        all_parse(e.param_types) && spec_parse_type(e.return_type) is Some
    } else if e.kind == "method"@ {
        e.receiver_type is Some && spec_parse_type(e.receiver_type->0) is Some && spec_parse_type(
            e.return_type,
        ) is Some
    } else if e.kind == "method_1arg"@ {
        e.receiver_type is Some && spec_parse_type(e.receiver_type->0) is Some && e.param_types.len()
            == 1 && spec_parse_type(e.param_types[0]) is Some && spec_parse_type(e.return_type) is Some
    } else {
        false
    }
}

pub open spec fn registry_well_formed(es: Seq<RegistryEntryView>, include_m6: bool) -> bool {
    forall|i: int| 0 <= i < es.len() && entry_included(#[trigger] es[i], include_m6) ==> entry_well_formed(es[i])
}

pub open spec fn empty_table_view() -> IntrinsicTableView {
    IntrinsicTableView {
        print_types: Seq::empty(),
        free_fns: Seq::empty(),
        methods: Seq::empty(),
        methods_1arg: Seq::empty(),
        internal_fns: Seq::empty(),
        test_fns: Seq::empty(),
    }
}

/// The table after taking one (included, well-formed) entry.
pub open spec fn add_entry(t: IntrinsicTableView, e: RegistryEntryView) -> IntrinsicTableView {
    if e.kind == "print_type"@ {
        let ty = spec_parse_type(e.name)->0;
        if t.print_types.contains(ty) {
            t
        } else {
            IntrinsicTableView { print_types: t.print_types.push(ty), ..t }
        }
    } else if e.kind == "free_fn"@ {
        IntrinsicTableView {
            free_fns: t.free_fns.push(
                (e.name, FreeFnSigView { params: parse_all(e.param_types), ret: spec_parse_type(e.return_type)->0 }),
            ),
            ..t
        }
    } else if e.kind == "method"@ {
        IntrinsicTableView {
            methods: t.methods.push(
                (spec_parse_type(e.receiver_type->0)->0, e.name, spec_parse_type(e.return_type)->0),
            ),
            ..t
        }
    } else {
        IntrinsicTableView {
            methods_1arg: t.methods_1arg.push(
                (
                    spec_parse_type(e.receiver_type->0)->0,
                    e.name,
                    spec_parse_type(e.param_types[0])->0,
                    spec_parse_type(e.return_type)->0,
                ),
            ),
            ..t
        }
    }
}

/// The table built from `es`, in registry order.
pub open spec fn table_from(es: Seq<RegistryEntryView>, include_m6: bool) -> IntrinsicTableView
    decreases es.len(),
{
    if es.len() == 0 {
        empty_table_view()
    } else {
        let t = table_from(es.subrange(0, es.len() - 1), include_m6);
        let e = es[es.len() - 1];
        if entry_included(e, include_m6) {
            add_entry(t, e)
        } else {
            t
        }
    }
}

fn is_skipped_receiver(r: &Option<String>) -> (b: bool)
    ensures
        b == skipped_receiver(match r {
            Some(s) => Some(s@),
            None => None,
        }),
{
    match r {
        Some(s) => str_eq(s.as_str(), "array") || str_eq(s.as_str(), "fixed") || str_eq(s.as_str(), "maybe")
            || str_eq(s.as_str(), "map") || str_eq(s.as_str(), "channel"),
        None => false,
    }
}

fn parse_known(s: &String) -> (t: Type)
    requires
        spec_parse_type(s@) is Some,
    ensures
        t@ == spec_parse_type(s@)->0,
{
    match parse_type(s.as_str()) {
        Some(t) => t,
        None => {
            proof {
                assert(false);
            }
            Type::Error
        },
    }
}

fn parse_params(ps: &Vec<String>) -> (r: Vec<Type>)
    requires
        all_parse(string_views(ps@)),
    ensures
        view_types(r@) == parse_all(string_views(ps@)),
{
    let ghost pv = string_views(ps@);
    let mut out: Vec<Type> = Vec::new();
    let mut i: usize = 0;
    while i < ps.len()
        invariant
            i <= ps.len(),
            pv == string_views(ps@),
            all_parse(pv),
            out@.len() == i,
            forall|j: int| 0 <= j < i ==> Some(type_view(#[trigger] out@[j])) == spec_parse_type(pv[j]),
        decreases ps.len() - i,
    {
        assert(pv[i as int] == ps@[i as int]@);
        assert(spec_parse_type(pv[i as int]) is Some);
        out.push(parse_known(&ps[i]));
        i = i + 1;
    }
    proof {
        lemma_view_types(out@);
        assert(view_types(out@) =~= parse_all(pv));
    }
    out
}

fn contains_type(v: &Vec<Type>, t: &Type) -> (b: bool)
    ensures
        b == view_types(v@).contains(t@),
{
    proof {
        lemma_view_types(v@);
    }
    let mut i: usize = 0;
    while i < v.len()
        invariant
            i <= v.len(),
            view_types(v@).len() == v@.len(),
            forall|j: int| 0 <= j < v@.len() ==> #[trigger] view_types(v@)[j] == type_view(v@[j]),
            forall|j: int| 0 <= j < i ==> type_view(v@[j]) != t@,
        decreases v.len() - i,
    {
        if v[i].equals(t) {
            assert(view_types(v@)[i as int] == t@);
            return true;
        }
        i = i + 1;
    }
    false
}

impl PrimitiveIntrinsicTable {
    /// An empty table.
    fn empty() -> (t: Self)
        ensures
            t@ == empty_table_view(),
    {
        let t = PrimitiveIntrinsicTable {
            print_types: Vec::new(),
            free_fns: Vec::new(),
            methods: Vec::new(),
            methods_1arg: Vec::new(),
            internal_fns: Vec::new(),
            test_fns: Vec::new(),
        };
        proof {
            assert(t@.print_types =~= Seq::<TypeView>::empty());
            assert(t@.free_fns =~= Seq::<(Seq<char>, FreeFnSigView)>::empty());
            assert(t@.methods =~= Seq::<(TypeView, Seq<char>, TypeView)>::empty());
            assert(t@.methods_1arg =~= Seq::<(TypeView, Seq<char>, TypeView, TypeView)>::empty());
            assert(t@.internal_fns =~= Seq::<(Seq<char>, FreeFnSigView)>::empty());
            assert(t@.test_fns =~= Seq::<(Seq<char>, FreeFnSigView)>::empty());
        }
        t
    }

    /// Take one included, well-formed registry entry.
    fn add(&mut self, e: &RegistryEntry)
        requires
            entry_well_formed(e@),
        ensures
            final(self)@ == add_entry(old(self)@, e@),
    {
        if str_eq(e.kind.as_str(), "print_type") {
            let ty = parse_known(&e.name);
            if !contains_type(&self.print_types, &ty) {
                self.print_types.push(ty);
                proof {
                    lemma_view_types(old(self).print_types@);
                    lemma_view_types(self.print_types@);
                    assert(view_types(self.print_types@) =~= view_types(old(self).print_types@).push(ty@));
                }
            }
        } else if str_eq(e.kind.as_str(), "free_fn") {
            let params = parse_params(&e.param_types);
            let ret = parse_known(&e.return_type);
            self.free_fns.push((e.name.clone(), FreeFnSig { params, ret }));
            proof {
                assert(named_sigs_view(self.free_fns@) =~= named_sigs_view(old(self).free_fns@).push(
                    (e.name@, FreeFnSigView { params: parse_all(e@.param_types), ret: spec_parse_type(e@.return_type)->0 }),
                ));
            }
        } else if str_eq(e.kind.as_str(), "method") {
            let recv_text = e.receiver_type.as_ref().unwrap();
            let recv = parse_known(recv_text);
            let ret = parse_known(&e.return_type);
            self.methods.push((recv, e.name.clone(), ret));
            proof {
                assert(methods_view(self.methods@) =~= methods_view(old(self).methods@).push(
                    (spec_parse_type(e@.receiver_type->0)->0, e.name@, spec_parse_type(e@.return_type)->0),
                ));
            }
        } else {
            let recv_text = e.receiver_type.as_ref().unwrap();
            let recv = parse_known(recv_text);
            assert(string_views(e.param_types@)[0] == e.param_types@[0]@);
            let arg = parse_known(&e.param_types[0]);
            let ret = parse_known(&e.return_type);
            self.methods_1arg.push((recv, e.name.clone(), arg, ret));
            proof {
                assert(methods_1arg_view(self.methods_1arg@) =~= methods_1arg_view(old(self).methods_1arg@).push(
                    (
                        spec_parse_type(e@.receiver_type->0)->0,
                        e.name@,
                        spec_parse_type(e@.param_types[0])->0,
                        spec_parse_type(e@.return_type)->0,
                    ),
                ));
            }
        }
    }
}

/// Build a table from the registry entries, with or without the M6 additions.
fn parses(s: &String) -> (b: bool)
    ensures
        b == spec_parse_type(s@) is Some,
{
    match parse_type(s.as_str()) {
        Some(_) => true,
        None => false,
    }
}

fn all_parse_exec(ps: &Vec<String>) -> (b: bool)
    ensures
        b == all_parse(string_views(ps@)),
{
    let ghost pv = string_views(ps@);
    let mut i: usize = 0;
    while i < ps.len()
        invariant
            i <= ps.len(),
            pv == string_views(ps@),
            forall|j: int| 0 <= j < i ==> (#[trigger] spec_parse_type(pv[j])) is Some,
        decreases ps.len() - i,
    {
        assert(pv[i as int] == ps@[i as int]@);
        if !parses(&ps[i]) {
            return false;
        }
        i = i + 1;
    }
    true
}

fn entry_is_well_formed(e: &RegistryEntry) -> (b: bool)
    ensures
        b == entry_well_formed(e@),
{
    proof {
        assert(e@.param_types.len() == e.param_types@.len());
    }
    if str_eq(e.kind.as_str(), "print_type") {
        parses(&e.name)
    } else if str_eq(e.kind.as_str(), "free_fn") {
        all_parse_exec(&e.param_types) && parses(&e.return_type)
    } else if str_eq(e.kind.as_str(), "method") {
        match &e.receiver_type {
            Some(r) => parses(r) && parses(&e.return_type),
            None => false,
        }
    } else if str_eq(e.kind.as_str(), "method_1arg") {
        match &e.receiver_type {
            Some(r) => {
                if parses(r) && e.param_types.len() == 1 {
                    proof {
                        assert(e@.param_types[0] == e.param_types@[0]@);
                    }
                    parses(&e.param_types[0]) && parses(&e.return_type)
                } else {
                    false
                }
            },
            None => false,
        }
    } else {
        false
    }
}

/// Can a table (with or without M6 additions) be built from this registry: is every entry
/// it takes of a known kind, with all its type strings parsing?
pub fn registry_is_well_formed(registry: &Vec<RegistryEntry>, include_m6: bool) -> (b: bool)
    ensures
        b == registry_well_formed(entries_view(registry@), include_m6),
{
    let ghost es = entries_view(registry@);
    let mut i: usize = 0;
    while i < registry.len()
        invariant
            i <= registry.len(),
            es == entries_view(registry@),
            forall|j: int| 0 <= j < i && entry_included(#[trigger] es[j], include_m6) ==> entry_well_formed(es[j]),
        decreases registry.len() - i,
    {
        let e = &registry[i];
        proof {
            assert(es[i as int] == e@);
        }
        let m6_ok = include_m6 || !str_eq(e.since.as_str(), "M6");
        if m6_ok && !is_skipped_receiver(&e.receiver_type) {
            if !entry_is_well_formed(e) {
                return false;
            }
        }
        i = i + 1;
    }
    true
}

fn build_table(registry: &Vec<RegistryEntry>, include_m6: bool) -> (t: PrimitiveIntrinsicTable)
    requires
        registry_well_formed(entries_view(registry@), include_m6),
    ensures
        t@ == table_from(entries_view(registry@), include_m6),
{
    let ghost es = entries_view(registry@);
    let mut t = PrimitiveIntrinsicTable::empty();
    let mut i: usize = 0;
    proof {
        assert(es.subrange(0, 0) =~= Seq::<RegistryEntryView>::empty());
    }
    while i < registry.len()
        invariant
            i <= registry.len(),
            es == entries_view(registry@),
            registry_well_formed(es, include_m6),
            t@ == table_from(es.subrange(0, i as int), include_m6),
        decreases registry.len() - i,
    {
        let e = &registry[i];
        proof {
            assert(es[i as int] == e@);
            assert(es.subrange(0, i + 1).subrange(0, i as int) =~= es.subrange(0, i as int));
            assert(es.subrange(0, i + 1)[i as int] == e@);
        }
        let m6_ok = include_m6 || !str_eq(e.since.as_str(), "M6");
        if m6_ok && !is_skipped_receiver(&e.receiver_type) {
            t.add(e);
        }
        i = i + 1;
    }
    proof {
        assert(es.subrange(0, registry.len() as int) =~= es);
    }
    t
}

} // verus!

verus! {

/// The first signature registered under `name` with `count` parameters.
pub open spec fn first_sig(fns: Seq<(Seq<char>, FreeFnSigView)>, name: Seq<char>, count: nat) -> Option<
    FreeFnSigView,
>
    decreases fns.len(),
{
    if fns.len() == 0 {
        None
    } else if fns[0].0 == name && fns[0].1.params.len() == count {
        Some(fns[0].1)
    } else {
        first_sig(fns.subrange(1, fns.len() as int), name, count)
    }
}

/// The first signature registered under `name`, whatever its parameter count.
pub open spec fn first_named(fns: Seq<(Seq<char>, FreeFnSigView)>, name: Seq<char>) -> Option<FreeFnSigView>
    decreases fns.len(),
{
    if fns.len() == 0 {
        None
    } else if fns[0].0 == name {
        Some(fns[0].1)
    } else {
        first_named(fns.subrange(1, fns.len() as int), name)
    }
}

/// The return type of the first zero-argument method `name` on `recv`.
pub open spec fn first_method(ms: Seq<(TypeView, Seq<char>, TypeView)>, recv: TypeView, name: Seq<char>) -> Option<
    TypeView,
>
    decreases ms.len(),
{
    if ms.len() == 0 {
        None
    } else if ms[0].0 == recv && ms[0].1 == name {
        Some(ms[0].2)
    } else {
        first_method(ms.subrange(1, ms.len() as int), recv, name)
    }
}

/// The (argument, return) types of the first one-argument method `name` on `recv`.
pub open spec fn first_method_1arg(
    ms: Seq<(TypeView, Seq<char>, TypeView, TypeView)>,
    recv: TypeView,
    name: Seq<char>,
) -> Option<(TypeView, TypeView)>
    decreases ms.len(),
{
    if ms.len() == 0 {
        None
    } else if ms[0].0 == recv && ms[0].1 == name {
        Some((ms[0].2, ms[0].3))
    } else {
        first_method_1arg(ms.subrange(1, ms.len() as int), recv, name)
    }
}

/// The names of the zero-argument methods on `recv`, in table order.
pub open spec fn method_names_for(ms: Seq<(TypeView, Seq<char>, TypeView)>, recv: TypeView) -> Seq<Seq<char>>
    decreases ms.len(),
{
    if ms.len() == 0 {
        Seq::empty()
    } else {
        let rest = method_names_for(ms.subrange(0, ms.len() - 1), recv);
        if ms[ms.len() - 1].0 == recv {
            rest.push(ms[ms.len() - 1].1)
        } else {
            rest
        }
    }
}

/// The name set of a named-signature list.
pub open spec fn sig_names(fns: Seq<(Seq<char>, FreeFnSigView)>) -> Set<Seq<char>> {
    Set::new(|n: Seq<char>| exists|i: int| 0 <= i < fns.len() && fns[i].0 == n)
}

/// Every method name of both method lists.
pub open spec fn all_method_names(t: IntrinsicTableView) -> Set<Seq<char>> {
    Set::new(
        |n: Seq<char>|
            (exists|i: int| 0 <= i < t.methods.len() && t.methods[i].1 == n) || (exists|i: int|
                0 <= i < t.methods_1arg.len() && t.methods_1arg[i].1 == n),
    )
}

proof fn lemma_subrange_tail<A>(s: Seq<A>, i: int)
    requires
        0 <= i < s.len(),
    ensures
        s.subrange(i, s.len() as int).subrange(1, s.len() - i) == s.subrange(i + 1, s.len() as int),
        s.subrange(i, s.len() as int)[0] == s[i],
{
    assert(s.subrange(i, s.len() as int).subrange(1, s.len() - i) =~= s.subrange(i + 1, s.len() as int));
}

fn find_sig<'a>(fns: &'a Vec<(String, FreeFnSig)>, name: &str, count: usize, any_count: bool) -> (r: Option<&'a FreeFnSig>)
    ensures
        any_count ==> match r {
            Some(sig) => first_named(named_sigs_view(fns@), name@) == Some(sig@),
            None => first_named(named_sigs_view(fns@), name@) is None,
        },
        !any_count ==> match r {
            Some(sig) => first_sig(named_sigs_view(fns@), name@, count as nat) == Some(sig@),
            None => first_sig(named_sigs_view(fns@), name@, count as nat) is None,
        },
{
    let ghost v = named_sigs_view(fns@);
    let mut i: usize = 0;
    proof {
        assert(v.subrange(0, v.len() as int) =~= v);
    }
    while i < fns.len()
        invariant
            i <= fns.len(),
            v == named_sigs_view(fns@),
            any_count ==> first_named(v, name@) == first_named(v.subrange(i as int, v.len() as int), name@),
            !any_count ==> first_sig(v, name@, count as nat) == first_sig(
                v.subrange(i as int, v.len() as int),
                name@,
                count as nat,
            ),
        decreases fns.len() - i,
    {
        proof {
            lemma_subrange_tail(v, i as int);
            assert(v[i as int].1.params.len() == fns@[i as int].1.params@.len()) by {
                crate::types::lemma_view_types(fns@[i as int].1.params@);
            }
        }
        let entry = &fns[i];
        let same_name = str_eq(entry.0.as_str(), name);
        if same_name && (any_count || entry.1.params.len() == count) {
            return Some(&entry.1);
        }
        i = i + 1;
    }
    proof {
        assert(v.subrange(v.len() as int, v.len() as int).len() == 0);
    }
    None
}

fn sorted_names_of(fns: &Vec<(String, FreeFnSig)>) -> (r: Vec<String>)
    ensures
        sorted_unique(string_views(r@)),
        string_views(r@).to_set() == sig_names(named_sigs_view(fns@)),
{
    let ghost v = named_sigs_view(fns@);
    let mut out: Vec<String> = Vec::new();
    let mut i: usize = 0;
    proof {
        assert(string_views(out@).to_set() =~= Set::<Seq<char>>::empty());
    }
    while i < fns.len()
        invariant
            i <= fns.len(),
            v == named_sigs_view(fns@),
            sorted_unique(string_views(out@)),
            string_views(out@).to_set() == Set::new(
                |n: Seq<char>| exists|j: int| 0 <= j < i && v[j].0 == n,
            ),
        decreases fns.len() - i,
    {
        let ghost before = string_views(out@).to_set();
        insert_sorted_unique(&mut out, fns[i].0.clone());
        proof {
            assert(v[i as int].0 == fns@[i as int].0@);
            assert(string_views(out@).to_set() =~= Set::new(
                |n: Seq<char>| exists|j: int| 0 <= j < i + 1 && v[j].0 == n,
            )) by {
                assert forall|n: Seq<char>| (exists|j: int| 0 <= j < i + 1 && v[j].0 == n) implies before.insert(
                    v[i as int].0,
                ).contains(n) by {
                    let j = choose|j: int| 0 <= j < i + 1 && v[j].0 == n;
                    if j < i {
                        assert(exists|k: int| 0 <= k < i && v[k].0 == n);
                    }
                }
            }
        }
        i = i + 1;
    }
    proof {
        assert(string_views(out@).to_set() =~= sig_names(v));
    }
    out
}

/// Every entry of the table built without M6 additions is also in the full table.
proof fn lemma_table_elements(es: Seq<RegistryEntryView>)
    ensures
        forall|x| #[trigger] table_from(es, false).free_fns.contains(x) ==> table_from(es, true).free_fns.contains(x),
        forall|x| #[trigger] table_from(es, false).methods.contains(x) ==> table_from(es, true).methods.contains(x),
        forall|x| #[trigger] table_from(es, false).methods_1arg.contains(x) ==> table_from(es, true).methods_1arg.contains(x),
        forall|x| #[trigger] table_from(es, false).print_types.contains(x) ==> table_from(es, true).print_types.contains(x),
    decreases es.len(),
{
    if es.len() > 0 {
        let rest = es.subrange(0, es.len() - 1);
        lemma_table_elements(rest);
        let e = es[es.len() - 1];
        let a = table_from(rest, false);
        let b = table_from(rest, true);
        let a2 = table_from(es, false);
        let b2 = table_from(es, true);
        assert forall|x| #[trigger] b.free_fns.contains(x) implies b2.free_fns.contains(x) by {
            let i = choose|i: int| 0 <= i < b.free_fns.len() && b.free_fns[i] == x;
            if entry_included(e, true) && e.kind == "free_fn"@ {
                assert(b2.free_fns[i] == x);
            }
        }
        assert forall|x| #[trigger] b.methods.contains(x) implies b2.methods.contains(x) by {
            let i = choose|i: int| 0 <= i < b.methods.len() && b.methods[i] == x;
            if entry_included(e, true) && e.kind == "method"@ && e.kind != "free_fn"@ && e.kind != "print_type"@ {
                assert(b2.methods[i] == x);
            }
        }
        assert forall|x| #[trigger] b.methods_1arg.contains(x) implies b2.methods_1arg.contains(x) by {
            let i = choose|i: int| 0 <= i < b.methods_1arg.len() && b.methods_1arg[i] == x;
            if entry_included(e, true) && e.kind != "method"@ && e.kind != "free_fn"@ && e.kind != "print_type"@ {
                assert(b2.methods_1arg[i] == x);
            }
        }
        assert forall|x| #[trigger] b.print_types.contains(x) implies b2.print_types.contains(x) by {
            let i = choose|i: int| 0 <= i < b.print_types.len() && b.print_types[i] == x;
            if entry_included(e, true) && e.kind == "print_type"@ && !b.print_types.contains(spec_parse_type(e.name)->0) {
                assert(b2.print_types[i] == x);
            }
        }
        if !entry_included(e, false) {
            assert(a2 == a);
            assert forall|x| #[trigger] a2.free_fns.contains(x) implies b2.free_fns.contains(x) by {
                assert(b.free_fns.contains(x));
            }
            assert forall|x| #[trigger] a2.methods.contains(x) implies b2.methods.contains(x) by {
                assert(b.methods.contains(x));
            }
            assert forall|x| #[trigger] a2.methods_1arg.contains(x) implies b2.methods_1arg.contains(x) by {
                assert(b.methods_1arg.contains(x));
            }
            assert forall|x| #[trigger] a2.print_types.contains(x) implies b2.print_types.contains(x) by {
                assert(b.print_types.contains(x));
            }
        } else {
            assert(entry_included(e, true));
            assert forall|x| #[trigger] a2.free_fns.contains(x) implies b2.free_fns.contains(x) by {
                let i = choose|i: int| 0 <= i < a2.free_fns.len() && a2.free_fns[i] == x;
                if i < a.free_fns.len() {
                    assert(a.free_fns[i] == x);
                    assert(a.free_fns.contains(x));
                    assert(b.free_fns.contains(x));
                } else {
                    assert(b2.free_fns[b2.free_fns.len() - 1] == x);
                }
            }
            assert forall|x| #[trigger] a2.methods.contains(x) implies b2.methods.contains(x) by {
                let i = choose|i: int| 0 <= i < a2.methods.len() && a2.methods[i] == x;
                if i < a.methods.len() {
                    assert(a.methods[i] == x);
                    assert(a.methods.contains(x));
                    assert(b.methods.contains(x));
                } else {
                    assert(b2.methods[b2.methods.len() - 1] == x);
                }
            }
            assert forall|x| #[trigger] a2.methods_1arg.contains(x) implies b2.methods_1arg.contains(x) by {
                let i = choose|i: int| 0 <= i < a2.methods_1arg.len() && a2.methods_1arg[i] == x;
                if i < a.methods_1arg.len() {
                    assert(a.methods_1arg[i] == x);
                    assert(a.methods_1arg.contains(x));
                    assert(b.methods_1arg.contains(x));
                } else {
                    assert(b2.methods_1arg[b2.methods_1arg.len() - 1] == x);
                }
            }
            assert forall|x| #[trigger] a2.print_types.contains(x) implies b2.print_types.contains(x) by {
                let i = choose|i: int| 0 <= i < a2.print_types.len() && a2.print_types[i] == x;
                if i < a.print_types.len() {
                    assert(a.print_types[i] == x);
                    assert(a.print_types.contains(x));
                    assert(b.print_types.contains(x));
                } else {
                    let ty = spec_parse_type(e.name)->0;
                    if !b.print_types.contains(ty) {
                        assert(b2.print_types[b2.print_types.len() - 1] == x);
                    }
                }
            }
        }
    }
}

/// `first_sig` finds something exactly when some entry has the name and count.
proof fn lemma_first_sig_some(fns: Seq<(Seq<char>, FreeFnSigView)>, name: Seq<char>, count: nat)
    ensures
        first_sig(fns, name, count) is Some <==> exists|i: int|
            0 <= i < fns.len() && #[trigger] fns[i].0 == name && fns[i].1.params.len() == count,
    decreases fns.len(),
{
    if fns.len() > 0 {
        let rest = fns.subrange(1, fns.len() as int);
        lemma_first_sig_some(rest, name, count);
        if exists|i: int| 0 <= i < fns.len() && #[trigger] fns[i].0 == name && fns[i].1.params.len() == count {
            let i = choose|i: int| 0 <= i < fns.len() && #[trigger] fns[i].0 == name && fns[i].1.params.len() == count;
            if i > 0 {
                assert(rest[i - 1] == fns[i]);
            }
        }
        if exists|i: int| 0 <= i < rest.len() && #[trigger] rest[i].0 == name && rest[i].1.params.len() == count {
            let i = choose|i: int| 0 <= i < rest.len() && #[trigger] rest[i].0 == name && rest[i].1.params.len() == count;
            assert(fns[i + 1] == rest[i]);
        }
    }
}

proof fn lemma_first_method_some(ms: Seq<(TypeView, Seq<char>, TypeView)>, recv: TypeView, name: Seq<char>)
    ensures
        first_method(ms, recv, name) is Some <==> exists|i: int| 0 <= i < ms.len() && #[trigger] ms[i].0 == recv && ms[i].1 == name,
    decreases ms.len(),
{
    if ms.len() > 0 {
        let rest = ms.subrange(1, ms.len() as int);
        lemma_first_method_some(rest, recv, name);
        if exists|i: int| 0 <= i < ms.len() && #[trigger] ms[i].0 == recv && ms[i].1 == name {
            let i = choose|i: int| 0 <= i < ms.len() && #[trigger] ms[i].0 == recv && ms[i].1 == name;
            if i > 0 {
                assert(rest[i - 1] == ms[i]);
            }
        }
        if exists|i: int| 0 <= i < rest.len() && #[trigger] rest[i].0 == recv && rest[i].1 == name {
            let i = choose|i: int| 0 <= i < rest.len() && #[trigger] rest[i].0 == recv && rest[i].1 == name;
            assert(ms[i + 1] == rest[i]);
        }
    }
}

proof fn lemma_first_method_1arg_some(ms: Seq<(TypeView, Seq<char>, TypeView, TypeView)>, recv: TypeView, name: Seq<char>)
    ensures
        first_method_1arg(ms, recv, name) is Some <==> exists|i: int| 0 <= i < ms.len() && #[trigger] ms[i].0 == recv && ms[i].1 == name,
    decreases ms.len(),
{
    if ms.len() > 0 {
        let rest = ms.subrange(1, ms.len() as int);
        lemma_first_method_1arg_some(rest, recv, name);
        if exists|i: int| 0 <= i < ms.len() && #[trigger] ms[i].0 == recv && ms[i].1 == name {
            let i = choose|i: int| 0 <= i < ms.len() && #[trigger] ms[i].0 == recv && ms[i].1 == name;
            if i > 0 {
                assert(rest[i - 1] == ms[i]);
            }
        }
        if exists|i: int| 0 <= i < rest.len() && #[trigger] rest[i].0 == recv && rest[i].1 == name {
            let i = choose|i: int| 0 <= i < rest.len() && #[trigger] rest[i].0 == recv && rest[i].1 == name;
            assert(ms[i + 1] == rest[i]);
        }
    }
}

/// Every name `method_names_for` lists is the name of a zero-argument method on `recv`.
proof fn lemma_method_names_for(ms: Seq<(TypeView, Seq<char>, TypeView)>, recv: TypeView)
    ensures
        forall|k: int|
            #![trigger method_names_for(ms, recv)[k]]
            0 <= k < method_names_for(ms, recv).len() ==> exists|j: int|
                #![trigger ms[j]]
                0 <= j < ms.len() && ms[j].0 == recv && ms[j].1 == method_names_for(ms, recv)[k],
    decreases ms.len(),
{
    if ms.len() > 0 {
        let pre = ms.subrange(0, ms.len() - 1);
        lemma_method_names_for(pre, recv);
        let rest = method_names_for(pre, recv);
        assert forall|k: int|
            #![trigger method_names_for(ms, recv)[k]]
            0 <= k < method_names_for(ms, recv).len() implies exists|j: int|
                #![trigger ms[j]]
                0 <= j < ms.len() && ms[j].0 == recv && ms[j].1 == method_names_for(ms, recv)[k] by {
            if k < rest.len() {
                assert(rest[k] == rest[k]);
                let j = choose|j: int| #![trigger pre[j]] 0 <= j < pre.len() && pre[j].0 == recv && pre[j].1 == rest[k];
                assert(ms[j] == pre[j]);
                assert(method_names_for(ms, recv)[k] == rest[k]);
            } else {
                assert(ms[ms.len() - 1].1 == method_names_for(ms, recv)[k]);
            }
        }
    }
}

/// The M3 table is contained in the M6 table built from the same registry: every free
/// function name, free function (by name and argument count), method, one-argument method
/// and print type that the M3 table knows, the M6 table knows too.
pub proof fn lemma_m3_within_m6(es: Seq<RegistryEntryView>)
    ensures
        sig_names(table_from(es, false).free_fns).subset_of(sig_names(table_from(es, true).free_fns)),
        forall|n: Seq<char>, k: nat|
            #[trigger] first_sig(table_from(es, false).free_fns, n, k) is Some ==> first_sig(
                table_from(es, true).free_fns,
                n,
                k,
            ) is Some,
        forall|r: TypeView, n: Seq<char>|
            #[trigger] first_method(table_from(es, false).methods, r, n) is Some ==> first_method(
                table_from(es, true).methods,
                r,
                n,
            ) is Some,
        forall|r: TypeView, n: Seq<char>|
            #[trigger] first_method_1arg(table_from(es, false).methods_1arg, r, n) is Some ==> first_method_1arg(
                table_from(es, true).methods_1arg,
                r,
                n,
            ) is Some,
        forall|t: TypeView|
            #[trigger] table_from(es, false).print_types.contains(t) ==> table_from(es, true).print_types.contains(t),
{
    lemma_table_elements(es);
    let a = table_from(es, false);
    let b = table_from(es, true);
    assert forall|n: Seq<char>| #[trigger] sig_names(a.free_fns).contains(n) implies sig_names(b.free_fns).contains(n) by {
        let i = choose|i: int| 0 <= i < a.free_fns.len() && a.free_fns[i].0 == n;
        assert(a.free_fns.contains(a.free_fns[i]));
        let j = choose|j: int| 0 <= j < b.free_fns.len() && b.free_fns[j] == a.free_fns[i];
        assert(b.free_fns[j].0 == n);
    }
    assert forall|n: Seq<char>, k: nat| #[trigger] first_sig(a.free_fns, n, k) is Some implies first_sig(b.free_fns, n, k) is Some by {
        lemma_first_sig_some(a.free_fns, n, k);
        lemma_first_sig_some(b.free_fns, n, k);
        let i = choose|i: int| 0 <= i < a.free_fns.len() && #[trigger] a.free_fns[i].0 == n && a.free_fns[i].1.params.len() == k;
        assert(a.free_fns.contains(a.free_fns[i]));
        let j = choose|j: int| 0 <= j < b.free_fns.len() && b.free_fns[j] == a.free_fns[i];
        assert(b.free_fns[j].0 == n);
    }
    assert forall|r: TypeView, n: Seq<char>| #[trigger] first_method(a.methods, r, n) is Some implies first_method(b.methods, r, n) is Some by {
        lemma_first_method_some(a.methods, r, n);
        lemma_first_method_some(b.methods, r, n);
        let i = choose|i: int| 0 <= i < a.methods.len() && #[trigger] a.methods[i].0 == r && a.methods[i].1 == n;
        assert(a.methods.contains(a.methods[i]));
        let j = choose|j: int| 0 <= j < b.methods.len() && b.methods[j] == a.methods[i];
        assert(b.methods[j].0 == r);
    }
    assert forall|r: TypeView, n: Seq<char>| #[trigger] first_method_1arg(a.methods_1arg, r, n) is Some implies first_method_1arg(b.methods_1arg, r, n) is Some by {
        lemma_first_method_1arg_some(a.methods_1arg, r, n);
        lemma_first_method_1arg_some(b.methods_1arg, r, n);
        let i = choose|i: int| 0 <= i < a.methods_1arg.len() && #[trigger] a.methods_1arg[i].0 == r && a.methods_1arg[i].1 == n;
        assert(a.methods_1arg.contains(a.methods_1arg[i]));
        let j = choose|j: int| 0 <= j < b.methods_1arg.len() && b.methods_1arg[j] == a.methods_1arg[i];
        assert(b.methods_1arg[j].0 == r);
    }
}

/// Looking up in a list with one more entry at the end: an earlier match wins, else the new
/// entry when it matches.
proof fn lemma_first_sig_push(fns: Seq<(Seq<char>, FreeFnSigView)>, x: (Seq<char>, FreeFnSigView), name: Seq<char>, count: nat)
    ensures
        first_sig(fns.push(x), name, count) == (match first_sig(fns, name, count) {
            Some(sg) => Some(sg),
            None => if x.0 == name && x.1.params.len() == count {
                Some(x.1)
            } else {
                None
            },
        }),
    decreases fns.len(),
{
    if fns.len() > 0 {
        assert(fns.push(x).subrange(1, fns.len() as int + 1) =~= fns.subrange(1, fns.len() as int).push(x));
        lemma_first_sig_push(fns.subrange(1, fns.len() as int), x, name, count);
        assert(fns.push(x)[0] == fns[0]);
    } else {
        assert(fns.push(x).subrange(1, 1) =~= Seq::<(Seq<char>, FreeFnSigView)>::empty());
        assert(first_sig(Seq::<(Seq<char>, FreeFnSigView)>::empty(), name, count) is None);
        assert(fns.push(x)[0] == x);
    }
}

/// The internal `__testFallibleAsync` entry.
pub open spec fn m2_internal_sig() -> FreeFnSigView {
    FreeFnSigView { params: seq![TypeView::Bool], ret: TypeView::ErrorsCapable { inner: Box::new(TypeView::Int) } }
}

/// After the internal intrinsics are registered on a table with no public or internal
/// one-parameter `__testFallibleAsync`, the internal lookup finds `(bool) -> int errors`
/// under that name, while the public free functions, and so every public lookup and the
/// completion names, stay as they were.
pub proof fn lemma_m2_internals_found(t0: IntrinsicTableView, t: IntrinsicTableView)
    requires
        t == (IntrinsicTableView {
            internal_fns: t0.internal_fns.push(("__testFallibleAsync"@, m2_internal_sig())),
            ..t0
        }),
        first_sig(t0.free_fns, "__testFallibleAsync"@, 1) is None,
        first_sig(t0.internal_fns, "__testFallibleAsync"@, 1) is None,
    ensures
        first_sig(t.free_fns, "__testFallibleAsync"@, 1) is None,
        first_sig(t.internal_fns, "__testFallibleAsync"@, 1) == Some(m2_internal_sig()),
        t.free_fns == t0.free_fns,
        sig_names(t.free_fns) == sig_names(t0.free_fns),
        forall|n: Seq<char>, k: nat| #[trigger] first_sig(t.free_fns, n, k) == first_sig(t0.free_fns, n, k),
{
    lemma_first_sig_push(t0.internal_fns, ("__testFallibleAsync"@, m2_internal_sig()), "__testFallibleAsync"@, 1);
}

impl PrimitiveIntrinsicTable {
    /// The table with all entries up to and including M3 (M6 additions left out).
    pub fn m2(registry: &Vec<RegistryEntry>) -> (t: Self)
        requires
            registry_well_formed(entries_view(registry@), false),
        ensures
            t@ == table_from(entries_view(registry@), false),
    {
        Self::m3(registry)
    }

    /// The table with all entries up to and including M3 (M6 additions left out).
    pub fn m3(registry: &Vec<RegistryEntry>) -> (t: Self)
        requires
            registry_well_formed(entries_view(registry@), false),
        ensures
            t@ == table_from(entries_view(registry@), false),
    {
        build_table(registry, false)
    }

    /// The full table with every intrinsic entry.
    pub fn m6(registry: &Vec<RegistryEntry>) -> (t: Self)
        requires
            registry_well_formed(entries_view(registry@), true),
        ensures
            t@ == table_from(entries_view(registry@), true),
    {
        build_table(registry, true)
    }

    /// Register the internal `__testFallibleAsync(bool) -> int errors` intrinsic.
    pub fn with_m2_internals(self) -> (t: Self)
        ensures
            t@ == (IntrinsicTableView {
                internal_fns: self@.internal_fns.push(
                    (
                        "__testFallibleAsync"@,
                        FreeFnSigView {
                            params: seq![TypeView::Bool],
                            ret: TypeView::ErrorsCapable { inner: Box::new(TypeView::Int) },
                        },
                    ),
                ),
                ..self@
            }),
    {
        let mut s = self;
        let mut params: Vec<Type> = Vec::new();
        params.push(Type::Bool);
        let sig = FreeFnSig { params, ret: Type::ErrorsCapable { inner: Box::new(Type::Int) } };
        proof {
            lemma_view_types(sig.params@);
            assert(sig@.params =~= seq![TypeView::Bool]);
            assert(type_view(Type::Int) == TypeView::Int);
        }
        let ghost before = s@;
        s.internal_fns.push((lit("__testFallibleAsync"), sig));
        proof {
            assert(named_sigs_view(s.internal_fns@) =~= before.internal_fns.push(
                (
                    "__testFallibleAsync"@,
                    FreeFnSigView {
                        params: seq![TypeView::Bool],
                        ret: TypeView::ErrorsCapable { inner: Box::new(TypeView::Int) },
                    },
                ),
            ));
        }
        s
    }

    /// Look up a free function by name and argument count, internal intrinsics included
    /// (public entries win).
    pub fn lookup_free_fn_including_internal(&self, name: &str, arg_count: usize) -> (r: Option<&FreeFnSig>)
        ensures
            match r {
                Some(sig) => Some(sig@) == (match first_sig(self@.free_fns, name@, arg_count as nat) {
                    Some(s) => Some(s),
                    None => first_sig(self@.internal_fns, name@, arg_count as nat),
                }),
                None => first_sig(self@.free_fns, name@, arg_count as nat) is None && first_sig(
                    self@.internal_fns,
                    name@,
                    arg_count as nat,
                ) is None,
            },
    {
        match find_sig(&self.free_fns, name, arg_count, false) {
            Some(sig) => Some(sig),
            None => find_sig(&self.internal_fns, name, arg_count, false),
        }
    }

    /// Look up a free function by name and argument count (public registry entries only).
    pub fn lookup_free_fn(&self, name: &str, arg_count: usize) -> (r: Option<&FreeFnSig>)
        ensures
            match r {
                Some(sig) => first_sig(self@.free_fns, name@, arg_count as nat) == Some(sig@),
                None => first_sig(self@.free_fns, name@, arg_count as nat) is None,
            },
    {
        find_sig(&self.free_fns, name, arg_count, false)
    }

    /// All user-visible free-function names, ascending and without repeats (internal
    /// intrinsics excluded).
    pub fn free_fn_names(&self) -> (r: Vec<String>)
        ensures
            sorted_unique(string_views(r@)),
            string_views(r@).to_set() == sig_names(self@.free_fns),
    {
        sorted_names_of(&self.free_fns)
    }

    /// Whether `print` accepts a value of type `ty`.
    pub fn is_print_type(&self, ty: &Type) -> (r: bool)
        ensures
            r == self@.print_types.contains(ty@),
    {
        contains_type(&self.print_types, ty)
    }

    /// Look up a zero-argument method `receiver.name()`; its return type.
    pub fn lookup_method(&self, receiver: &Type, name: &str) -> (r: Option<Type>)
        ensures
            match r {
                Some(t) => first_method(self@.methods, receiver@, name@) == Some(t@),
                None => first_method(self@.methods, receiver@, name@) is None,
            },
    {
        let ghost v = methods_view(self.methods@);
        let mut i: usize = 0;
        proof {
            assert(v.subrange(0, v.len() as int) =~= v);
        }
        while i < self.methods.len()
            invariant
                i <= self.methods.len(),
                v == methods_view(self.methods@),
                v == self@.methods,
                first_method(v, receiver@, name@) == first_method(v.subrange(i as int, v.len() as int), receiver@, name@),
            decreases self.methods.len() - i,
        {
            proof {
                lemma_subrange_tail(v, i as int);
            }
            let m = &self.methods[i];
            if m.0.equals(receiver) && str_eq(m.1.as_str(), name) {
                return Some(m.2.duplicate());
            }
            i = i + 1;
        }
        None
    }

    /// Look up a one-argument method `receiver.name(arg)`; its (argument, return) types.
    pub fn lookup_method_1arg(&self, receiver: &Type, name: &str) -> (r: Option<(&Type, Type)>)
        ensures
            match r {
                Some(p) => first_method_1arg(self@.methods_1arg, receiver@, name@) == Some((p.0@, p.1@)),
                None => first_method_1arg(self@.methods_1arg, receiver@, name@) is None,
            },
    {
        let ghost v = methods_1arg_view(self.methods_1arg@);
        let mut i: usize = 0;
        proof {
            assert(v.subrange(0, v.len() as int) =~= v);
        }
        while i < self.methods_1arg.len()
            invariant
                i <= self.methods_1arg.len(),
                v == methods_1arg_view(self.methods_1arg@),
                v == self@.methods_1arg,
                first_method_1arg(v, receiver@, name@) == first_method_1arg(
                    v.subrange(i as int, v.len() as int),
                    receiver@,
                    name@,
                ),
            decreases self.methods_1arg.len() - i,
        {
            proof {
                lemma_subrange_tail(v, i as int);
            }
            let m = &self.methods_1arg[i];
            if m.0.equals(receiver) && str_eq(m.1.as_str(), name) {
                return Some((&m.2, m.3.duplicate()));
            }
            i = i + 1;
        }
        None
    }

    /// All zero-argument method names available on `ty`, in table order.
    pub fn methods_for_type(&self, ty: &Type) -> (r: Vec<String>)
        ensures
            string_views(r@) == method_names_for(self@.methods, ty@),
            forall|k: int|
                0 <= k < r@.len() ==> first_method(self@.methods, ty@, #[trigger] r@[k]@) is Some && all_method_names(
                    self@,
                ).contains(r@[k]@),
    {
        let ghost v = methods_view(self.methods@);
        let mut out: Vec<String> = Vec::new();
        let mut i: usize = 0;
        proof {
            assert(v.subrange(0, 0) =~= Seq::<(TypeView, Seq<char>, TypeView)>::empty());
            assert(string_views(out@) =~= Seq::<Seq<char>>::empty());
        }
        while i < self.methods.len()
            invariant
                i <= self.methods.len(),
                v == methods_view(self.methods@),
                v == self@.methods,
                string_views(out@) == method_names_for(v.subrange(0, i as int), ty@),
            decreases self.methods.len() - i,
        {
            proof {
                assert(v.subrange(0, i + 1).subrange(0, i as int) =~= v.subrange(0, i as int));
                assert(v.subrange(0, i + 1)[i as int] == v[i as int]);
            }
            let m = &self.methods[i];
            if m.0.equals(ty) {
                let ghost before = string_views(out@);
                out.push(m.1.clone());
                proof {
                    assert(string_views(out@) =~= before.push(m.1@));
                }
            }
            i = i + 1;
        }
        proof {
            assert(v.subrange(0, v.len() as int) =~= v);
            lemma_method_names_for(v, ty@);
            assert forall|k: int| 0 <= k < out@.len() implies first_method(v, ty@, #[trigger] out@[k]@) is Some
                && all_method_names(self@).contains(out@[k]@) by {
                let n = out@[k]@;
                assert(string_views(out@)[k] == n);
                assert(method_names_for(v, ty@)[k] == n);
                let j = choose|j: int| #![trigger v[j]] 0 <= j < v.len() && v[j].0 == ty@ && v[j].1 == n;
                lemma_first_method_some(v, ty@, n);
                assert(v[j].0 == ty@ && v[j].1 == n);
            }
        }
        out
    }

    /// Every scalar intrinsic method name (zero- and one-argument), ascending and without
    /// repeats — the methods that only read their receiver.
    pub fn all_scalar_intrinsic_method_names(&self) -> (r: Vec<String>)
        ensures
            sorted_unique(string_views(r@)),
            string_views(r@).to_set() == all_method_names(self@),
    {
        let ghost m0 = methods_view(self.methods@);
        let ghost m1 = methods_1arg_view(self.methods_1arg@);
        let mut out: Vec<String> = Vec::new();
        proof {
            assert(string_views(out@).to_set() =~= Set::<Seq<char>>::empty());
        }
        let mut i: usize = 0;
        while i < self.methods.len()
            invariant
                i <= self.methods.len(),
                m0 == methods_view(self.methods@),
                sorted_unique(string_views(out@)),
                string_views(out@).to_set() == Set::new(|n: Seq<char>| exists|j: int| 0 <= j < i && m0[j].1 == n),
            decreases self.methods.len() - i,
        {
            let ghost before = string_views(out@).to_set();
            insert_sorted_unique(&mut out, self.methods[i].1.clone());
            proof {
                assert(m0[i as int].1 == self.methods@[i as int].1@);
                assert(string_views(out@).to_set() =~= Set::new(
                    |n: Seq<char>| exists|j: int| 0 <= j < i + 1 && m0[j].1 == n,
                )) by {
                    assert forall|n: Seq<char>| (exists|j: int| 0 <= j < i + 1 && m0[j].1 == n) implies before.insert(
                        m0[i as int].1,
                    ).contains(n) by {
                        let j = choose|j: int| 0 <= j < i + 1 && m0[j].1 == n;
                        if j < i {
                            assert(exists|k: int| 0 <= k < i && m0[k].1 == n);
                        }
                    }
                }
            }
            i = i + 1;
        }
        let mut k: usize = 0;
        while k < self.methods_1arg.len()
            invariant
                k <= self.methods_1arg.len(),
                m0 == methods_view(self.methods@),
                m1 == methods_1arg_view(self.methods_1arg@),
                sorted_unique(string_views(out@)),
                string_views(out@).to_set() == Set::new(
                    |n: Seq<char>|
                        (exists|j: int| 0 <= j < m0.len() && m0[j].1 == n) || (exists|j: int|
                            0 <= j < k && m1[j].1 == n),
                ),
            decreases self.methods_1arg.len() - k,
        {
            let ghost before = string_views(out@).to_set();
            insert_sorted_unique(&mut out, self.methods_1arg[k].1.clone());
            proof {
                assert(m1[k as int].1 == self.methods_1arg@[k as int].1@);
                assert(string_views(out@).to_set() =~= Set::new(
                    |n: Seq<char>|
                        (exists|j: int| 0 <= j < m0.len() && m0[j].1 == n) || (exists|j: int|
                            0 <= j < k + 1 && m1[j].1 == n),
                )) by {
                    assert forall|n: Seq<char>|
                        ((exists|j: int| 0 <= j < m0.len() && m0[j].1 == n) || (exists|j: int|
                            0 <= j < k + 1 && m1[j].1 == n)) implies before.insert(m1[k as int].1).contains(n) by {
                        if !(exists|j: int| 0 <= j < m0.len() && m0[j].1 == n) {
                            let j = choose|j: int| 0 <= j < k + 1 && m1[j].1 == n;
                            if j < k {
                                assert(exists|q: int| 0 <= q < k && m1[q].1 == n);
                            }
                        }
                    }
                }
            }
            k = k + 1;
        }
        proof {
            assert(self@.methods == m0);
            assert(self@.methods_1arg == m1);
            assert(string_views(out@).to_set() =~= all_method_names(self@));
        }
        out
    }

    /// Look up a fixture intrinsic registered with [`PrimitiveIntrinsicTable::with_test_intrinsic`].
    pub fn lookup_test_fn(&self, name: &str) -> (r: Option<&FreeFnSig>)
        ensures
            match r {
                Some(sig) => first_named(self@.test_fns, name@) == Some(sig@),
                None => first_named(self@.test_fns, name@) is None,
            },
    {
        find_sig(&self.test_fns, name, 0, true)
    }

    /// Register a fixture intrinsic.
    pub fn with_test_intrinsic(self, name: &str, params: Vec<Type>, ret: Type) -> (t: Self)
        ensures
            t@ == (IntrinsicTableView {
                test_fns: self@.test_fns.push((name@, FreeFnSigView { params: view_types(params@), ret: ret@ })),
                ..self@
            }),
    {
        let mut s = self;
        let ghost before = s@;
        let ghost sv = FreeFnSigView { params: view_types(params@), ret: ret@ };
        s.test_fns.push((lit(name), FreeFnSig { params, ret }));
        proof {
            assert(named_sigs_view(s.test_fns@) =~= before.test_fns.push((name@, sv)));
        }
        s
    }
}

} // verus!
