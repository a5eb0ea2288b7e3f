//! Shape declarations resolved for type checking: the shape table, and the resolution of
//! a type as written in source against it.
use vstd::prelude::*;

use crate::diagnostics::{SourceSpan, SpanView};
use crate::names::{find_row, lookup, NameSet};
use crate::syntax::{AstType, FieldDecl, OwnershipModifier, ReceiverKind};
use crate::text::{join_with, lit, spec_join_with, spec_lex_lt, str_eq, str_lex_lt, string_views};
use crate::types::{lemma_view_types, type_view, view_types, Type, TypeView};

verus! {

/// A resolved field of a shape.
#[derive(Debug)]
pub struct FieldDef {
    pub name: String,
    pub ty: Type,
    pub is_hidden: bool,
    /// Inherited from a parent shape through `extends`.
    pub is_inherited: bool,
    pub defined_at: SourceSpan,
}

/// A bare contract method signature stored on its contract shape.
#[derive(Debug)]
pub struct ContractSigDef {
    pub name: String,
    /// Parameter types, `self` excluded.
    pub param_tys: Vec<Type>,
    /// Parameter names, `self` excluded.
    pub param_names: Vec<String>,
    /// The declared modifier of each parameter other than `self`.
    pub param_ownerships: Vec<Option<OwnershipModifier>>,
    /// The declared receiver kind; `None` for a bare or absent receiver.
    pub receiver: Option<ReceiverKind>,
    pub ret_ty: Type,
}

/// A resolved shape declaration: its own fields after the inherited ones.
#[derive(Debug)]
pub struct ShapeDef {
    pub name: String,
    pub is_base: bool,
    /// The parent shape named by `extends`.
    pub extends: Option<String>,
    /// The contracts this shape must satisfy.
    pub follows: Vec<String>,
    pub fields: Vec<FieldDef>,
    pub contract_sigs: Vec<ContractSigDef>,
    pub defined_at: SourceSpan,
}

impl ShapeDef {
    /// The first field named `name`.
    pub fn field(&self, name: &str) -> (r: Option<&FieldDef>)
        ensures
            match r {
                Some(f) => f.name@ == name@ && exists|i: int|
                    0 <= i < self.fields@.len() && self.fields@[i] == *f && forall|j: int|
                        0 <= j < i ==> #[trigger] self.fields@[j].name@ != name@,
                None => forall|i: int| 0 <= i < self.fields@.len() ==> #[trigger] self.fields@[i].name@ != name@,
            },
    {
        let mut i: usize = 0;
        while i < self.fields.len()
            invariant
                i <= self.fields@.len(),
                forall|j: int| 0 <= j < i ==> #[trigger] self.fields@[j].name@ != name@,
            decreases self.fields@.len() - i,
        {
            if str_eq(self.fields[i].name.as_str(), name) {
                return Some(&self.fields[i]);
            }
            i = i + 1;
        }
        None
    }
}

/// The shapes of a module (each name looked up at its first row), its union type
/// aliases, and the names of its options types.
#[derive(Debug)]
pub struct ShapeTable {
    pub shapes: Vec<(String, ShapeDef)>,
    /// Union aliases from `shape S = A | B` declarations, by alias name.
    pub union_aliases: Vec<(String, Type)>,
    /// The options type names visible to field type resolution.
    pub options_names: NameSet,
}

/// The table holds a shape named `n`.
pub open spec fn has_shape(t: ShapeTable, n: Seq<char>) -> bool {
    lookup(t.shapes@, n) is Some
}

impl ShapeTable {
    /// A table with no shapes, aliases or options names.
    pub fn empty() -> (t: ShapeTable)
        ensures
            t.shapes@.len() == 0,
            t.union_aliases@.len() == 0,
            t.options_names@ == Set::<Seq<char>>::empty(),
    {
        ShapeTable { shapes: Vec::new(), union_aliases: Vec::new(), options_names: NameSet::new() }
    }

    /// The shape named `name`.
    pub fn get(&self, name: &str) -> (r: Option<&ShapeDef>)
        ensures
            match r {
                Some(d) => lookup(self.shapes@, name@) == Some(*d),
                None => lookup(self.shapes@, name@) is None,
            },
    {
        match find_row(&self.shapes, name) {
            Some(i) => Some(&self.shapes[i].1),
            None => None,
        }
    }

    /// Is a shape named `name` in the table?
    pub fn contains(&self, name: &str) -> (b: bool)
        ensures
            b == has_shape(*self, name@),
    {
        find_row(&self.shapes, name).is_some()
    }
}

/// The short, identifier-safe name of a type as written, used to build the canonical
/// names of anonymous shapes.
pub open spec fn spec_short_name(t: AstType) -> Seq<char>
    decreases t,
{
    match t {
        AstType::Int => "int"@,
        AstType::Float => "float"@,
        AstType::Number { .. } => "number"@,
        AstType::Bool => "boolean"@,
        AstType::Named(n, _) => n@,
        AstType::Nothing => "nothing"@,
        AstType::Maybe { inner } => "maybe_"@ + spec_short_name(*inner),
        AstType::Generic { name, args, .. } => name@ + "__"@ + spec_join_with(spec_short_names(args@), "__"@),
        AstType::AnonShape { fields, .. } => spec_anon_name_of(spec_field_segments(fields@)),
        AstType::Union { variants } => "union_"@ + spec_join_with(spec_short_names(variants@), "_or_"@),
        AstType::ErrorCapable { inner } => "errors_"@ + spec_short_name(*inner),
        AstType::Sensitive(inner) => "sensitive_"@ + spec_short_name(*inner),
        _ => "unknown"@,
    }
}

/// The short names of a list of types.
pub open spec fn spec_short_names(s: Seq<AstType>) -> Seq<Seq<char>>
    decreases s,
{
    if s.len() == 0 {
        Seq::empty()
    } else {
        spec_short_names(s.subrange(0, s.len() - 1)).push(spec_short_name(s[s.len() - 1]))
    }
}

/// Each field's name with its `name_type` segment, in declaration order.
pub open spec fn spec_field_segments(fields: Seq<FieldDecl>) -> Seq<(Seq<char>, Seq<char>)>
    decreases fields,
{
    if fields.len() == 0 {
        Seq::empty()
    } else {
        let f = fields[fields.len() - 1];
        spec_field_segments(fields.subrange(0, fields.len() - 1)).push(
            (f.name@, f.name@ + "_"@ + spec_short_name(f.ty)),
        )
    }
}

/// Insert `p` after every entry whose name is not greater than its own.
pub open spec fn insert_by_name(s: Seq<(Seq<char>, Seq<char>)>, p: (Seq<char>, Seq<char>)) -> Seq<(Seq<char>, Seq<char>)>
    decreases s.len(),
{
    if s.len() == 0 {
        seq![p]
    } else if spec_lex_lt(p.0, s.last().0) {
        insert_by_name(s.drop_last(), p).push(s.last())
    } else {
        s.push(p)
    }
}

/// The entries stably sorted by name.
pub open spec fn sort_by_name(s: Seq<(Seq<char>, Seq<char>)>) -> Seq<(Seq<char>, Seq<char>)>
    decreases s.len(),
{
    if s.len() == 0 {
        s
    } else {
        insert_by_name(sort_by_name(s.drop_last()), s.last())
    }
}

/// `__anon__` followed by the segments sorted by field name, joined by `__`.
pub open spec fn spec_anon_name_of(segments: Seq<(Seq<char>, Seq<char>)>) -> Seq<char> {
    "__anon__"@ + spec_join_with(sort_by_name(segments).map_values(|p: (Seq<char>, Seq<char>)| p.1), "__"@)
}

/// The canonical synthetic name of an anonymous shape with these fields: the same for
/// any order of the same fields.
pub open spec fn spec_canonical_anon_name(fields: Seq<FieldDecl>) -> Seq<char> {
    spec_anon_name_of(spec_field_segments(fields))
}

proof fn lemma_insert_by_name_at(s: Seq<(Seq<char>, Seq<char>)>, p: (Seq<char>, Seq<char>), j: int)
    requires
        0 <= j <= s.len(),
        forall|k: int| j <= k < s.len() ==> spec_lex_lt(p.0, #[trigger] s[k].0),
        j == 0 || !spec_lex_lt(p.0, s[j - 1].0),
    ensures
        insert_by_name(s, p) == s.take(j).push(p) + s.skip(j),
    decreases s.len(),
{
    if s.len() == 0 {
        assert(s.take(j).push(p) + s.skip(j) =~= seq![p]);
    } else if j == s.len() {
        assert(!spec_lex_lt(p.0, s.last().0));
        assert(s.take(j).push(p) + s.skip(j) =~= s.push(p));
    } else {
        assert(spec_lex_lt(p.0, s.last().0)) by {
            assert(spec_lex_lt(p.0, s[s.len() - 1].0));
        }
        let d = s.drop_last();
        assert forall|k: int| j <= k < d.len() implies spec_lex_lt(p.0, #[trigger] d[k].0) by {
            assert(d[k] == s[k]);
        }
        if j > 0 {
            assert(d[j - 1] == s[j - 1]);
        }
        lemma_insert_by_name_at(d, p, j);
        assert(insert_by_name(s, p) == insert_by_name(d, p).push(s.last()));
        assert(d.take(j).push(p) + d.skip(j) + seq![s.last()] =~= s.take(j).push(p) + s.skip(j));
        assert(insert_by_name(d, p).push(s.last()) =~= d.take(j).push(p) + d.skip(j) + seq![s.last()]);
    }
}

pub(crate) fn insert_by_name_exec(v: &mut Vec<(String, String)>, p: (String, String))
    ensures
        final(v)@.map_values(|q: (String, String)| (q.0@, q.1@)) == insert_by_name(
            old(v)@.map_values(|q: (String, String)| (q.0@, q.1@)),
            (p.0@, p.1@),
        ),
{
    let ghost s = v@.map_values(|q: (String, String)| (q.0@, q.1@));
    let ghost pv = (p.0@, p.1@);
    let mut j: usize = v.len();
    while j > 0 && str_lex_lt(p.0.as_str(), v[j - 1].0.as_str())
        invariant
            j <= v@.len(),
            v@ == old(v)@,
            pv == (p.0@, p.1@),
            s == v@.map_values(|q: (String, String)| (q.0@, q.1@)),
            forall|k: int| j <= k < s.len() ==> spec_lex_lt(pv.0, #[trigger] s[k].0),
        decreases j,
    {
        proof {
            assert(s[j - 1] == (v@[j - 1].0@, v@[j - 1].1@));
        }
        j = j - 1;
    }
    proof {
        if j > 0 {
            assert(s[j - 1] == (v@[j - 1].0@, v@[j - 1].1@));
        }
        lemma_insert_by_name_at(s, pv, j as int);
    }
    v.insert(j, p);
    proof {
        assert(v@.map_values(|q: (String, String)| (q.0@, q.1@)) =~= s.take(j as int).push(pv) + s.skip(j as int));
    }
}

fn short_names(s: &Vec<AstType>) -> (r: Vec<String>)
    ensures
        string_views(r@) == spec_short_names(s@),
    decreases s,
{
    let mut out: Vec<String> = Vec::new();
    let mut i: usize = 0;
    proof {
        assert(s@.subrange(0, 0) =~= Seq::<AstType>::empty());
        assert(string_views(out@) =~= Seq::<Seq<char>>::empty());
    }
    while i < s.len()
        invariant
            i <= s@.len(),
            out@.len() == i,
            string_views(out@) == spec_short_names(s@.subrange(0, i as int)),
        decreases s@.len() - i,
    {
        proof {
            let pre = s@.subrange(0, i + 1);
            assert(pre.subrange(0, i as int) =~= s@.subrange(0, i as int));
            assert(pre[i as int] == s@[i as int]);
        }
        let ghost before = out@;
        out.push(ast_type_short_name(&s[i]));
        proof {
            assert(string_views(out@) =~= string_views(before).push(out@[i as int]@));
        }
        i = i + 1;
    }
    proof {
        assert(s@.subrange(0, s@.len() as int) =~= s@);
    }
    out
}

fn field_segments(fields: &Vec<FieldDecl>) -> (r: Vec<(String, String)>)
    ensures
        r@.map_values(|q: (String, String)| (q.0@, q.1@)) == spec_field_segments(fields@),
    decreases fields,
{
    let mut out: Vec<(String, String)> = Vec::new();
    let mut i: usize = 0;
    proof {
        assert(fields@.subrange(0, 0) =~= Seq::<FieldDecl>::empty());
        assert(out@.map_values(|q: (String, String)| (q.0@, q.1@)) =~= Seq::<(Seq<char>, Seq<char>)>::empty());
    }
    while i < fields.len()
        invariant
            i <= fields@.len(),
            out@.len() == i,
            out@.map_values(|q: (String, String)| (q.0@, q.1@)) == spec_field_segments(fields@.subrange(0, i as int)),
        decreases fields@.len() - i,
    {
        proof {
            let pre = fields@.subrange(0, i + 1);
            assert(pre.subrange(0, i as int) =~= fields@.subrange(0, i as int));
            assert(pre[i as int] == fields@[i as int]);
        }
        let f = &fields[i];
        let mut seg = lit(f.name.as_str());
        seg.append("_");
        seg.append(ast_type_short_name(&f.ty).as_str());
        let ghost before = out@;
        out.push((f.name.clone(), seg));
        proof {
            assert(out@.map_values(|q: (String, String)| (q.0@, q.1@)) =~= before.map_values(
                |q: (String, String)| (q.0@, q.1@),
            ).push((out@[i as int].0@, out@[i as int].1@)));
        }
        i = i + 1;
    }
    proof {
        assert(fields@.subrange(0, fields@.len() as int) =~= fields@);
    }
    out
}

/// The canonical synthetic name of an anonymous shape: `__anon__` followed by the
/// `name_type` segments of its fields, stably sorted by field name and joined by `__`.
pub fn canonical_anon_name(fields: &Vec<FieldDecl>) -> (r: String)
    ensures
        r@ == spec_canonical_anon_name(fields@),
{
    let segments = field_segments(fields);
    anon_name_of(&segments)
}

fn anon_name_of(segments: &Vec<(String, String)>) -> (r: String)
    ensures
        r@ == spec_anon_name_of(segments@.map_values(|q: (String, String)| (q.0@, q.1@))),
{
    let ghost segs = segments@.map_values(|q: (String, String)| (q.0@, q.1@));
    let mut sorted: Vec<(String, String)> = Vec::new();
    let mut i: usize = 0;
    proof {
        assert(segs.take(0) =~= Seq::<(Seq<char>, Seq<char>)>::empty());
        assert(sorted@.map_values(|q: (String, String)| (q.0@, q.1@)) =~= Seq::<(Seq<char>, Seq<char>)>::empty());
    }
    while i < segments.len()
        invariant
            i <= segments@.len(),
            segs == segments@.map_values(|q: (String, String)| (q.0@, q.1@)),
            sorted@.map_values(|q: (String, String)| (q.0@, q.1@)) == sort_by_name(segs.take(i as int)),
        decreases segments@.len() - i,
    {
        proof {
            assert(segs.take(i + 1).drop_last() =~= segs.take(i as int));
            assert(segs.take(i + 1).last() == segs[i as int]);
        }
        let q = (segments[i].0.clone(), segments[i].1.clone());
        insert_by_name_exec(&mut sorted, q);
        i = i + 1;
    }
    proof {
        assert(segs.take(segments@.len() as int) =~= segs);
    }
    let mut parts: Vec<String> = Vec::new();
    let mut k: usize = 0;
    while k < sorted.len()
        invariant
            k <= sorted@.len(),
            parts@.len() == k,
            forall|a: int| 0 <= a < k ==> #[trigger] parts@[a]@ == sorted@[a].1@,
        decreases sorted@.len() - k,
    {
        parts.push(sorted[k].1.clone());
        k = k + 1;
    }
    let joined = join_with(&parts, "__");
    let mut out = lit("__anon__");
    out.append(joined.as_str());
    proof {
        let sv = sorted@.map_values(|q: (String, String)| (q.0@, q.1@));
        assert(string_views(parts@) =~= sv.map_values(|p: (Seq<char>, Seq<char>)| p.1));
    }
    out
}

/// The short, identifier-safe name of a type as written.
pub fn ast_type_short_name(t: &AstType) -> (r: String)
    ensures
        r@ == spec_short_name(*t),
    decreases t,
{
    match t {
        AstType::Int => lit("int"),
        AstType::Float => lit("float"),
        AstType::Number { .. } => lit("number"),
        AstType::Bool => lit("boolean"),
        AstType::Named(n, _) => n.clone(),
        AstType::Nothing => lit("nothing"),
        AstType::Maybe { inner } => {
            let mut s = lit("maybe_");
            s.append(ast_type_short_name(inner).as_str());
            s
        },
        AstType::Generic { name, args, .. } => {
            let mut s = name.clone();
            s.append("__");
            s.append(join_with(&short_names(args), "__").as_str());
            s
        },
        AstType::AnonShape { fields, .. } => {
            let segments = field_segments(fields);
            anon_name_of(&segments)
        },
        AstType::Union { variants } => {
            let mut s = lit("union_");
            s.append(join_with(&short_names(variants), "_or_").as_str());
            s
        },
        AstType::ErrorCapable { inner } => {
            let mut s = lit("errors_");
            s.append(ast_type_short_name(inner).as_str());
            s
        },
        AstType::Sensitive(inner) => {
            let mut s = lit("sensitive_");
            s.append(ast_type_short_name(inner).as_str());
            s
        },
        _ => lit("unknown"),
    }
}

/// The first resolved argument, `Error` when there is none.
pub open spec fn first_or_error(r: Seq<TypeView>) -> TypeView {
    if r.len() > 0 {
        r[0]
    } else {
        TypeView::Error
    }
}

/// The second resolved argument, `Error` when there is none.
pub open spec fn second_or_error(r: Seq<TypeView>) -> TypeView {
    if r.len() > 1 {
        r[1]
    } else {
        TypeView::Error
    }
}

/// A type as written, resolved against the shape table: primitives map to themselves;
/// a bare name is `string`, a union alias, a shape, a compiler-synthesized shape
/// (`Frame`, `SourceLoc`), `range`, an options type, or an error, in that order; the
/// built-in generic collections take their first (and second) argument, `Error` when
/// missing; another generic name must be a shape; a union needs two variants; an
/// anonymous shape resolves to its canonical synthetic name.
pub open spec fn spec_resolve_in(c: ResolveCtx, a: AstType) -> TypeView
    decreases a,
{
    match a {
        AstType::Nothing => TypeView::Nothing,
        AstType::Int => TypeView::Int,
        AstType::Float => TypeView::Float,
        AstType::Number { precision } => TypeView::Number { precision },
        AstType::Bool => TypeView::Bool,
        AstType::Named(n, _) => if n@ == "string"@ {
            TypeView::String
        } else if c.aliases.contains_key(n@) {
            c.aliases[n@]
        } else if c.shapes.contains(n@) {
            TypeView::Shape { name: n@ }
        } else if n@ == "Frame"@ || n@ == "SourceLoc"@ {
            TypeView::Shape { name: n@ }
        } else if n@ == "range"@ {
            TypeView::Range { element: Box::new(TypeView::Int), end_inclusive: false }
        } else if c.options.contains(n@) {
            TypeView::Options { name: n@ }
        } else {
            TypeView::Error
        },
        AstType::AnonShape { fields, .. } => TypeView::Shape { name: spec_canonical_anon_name(fields@) },
        AstType::Dynamic { contract } => TypeView::Dynamic { contract: contract@ },
        AstType::Generic { name, args, .. } => {
            let r = spec_resolve_all_in(c, args@);
            if name@ == "array"@ {
                TypeView::BuiltinArray { elem: Box::new(first_or_error(r)) }
            } else if name@ == "fixed"@ {
                TypeView::BuiltinFixed { elem: Box::new(first_or_error(r)), size: None }
            } else if name@ == "map"@ {
                TypeView::BuiltinMap { key: Box::new(first_or_error(r)), val: Box::new(second_or_error(r)) }
            } else if name@ == "MapEntry"@ {
                TypeView::MapEntry { key: Box::new(first_or_error(r)), val: Box::new(second_or_error(r)) }
            } else if name@ == "channel"@ {
                TypeView::BuiltinChannel { elem: Box::new(first_or_error(r)) }
            } else if c.shapes.contains(name@) {
                TypeView::Generic { name: name@, args: r }
            } else {
                TypeView::Error
            }
        },
        AstType::Maybe { inner } => TypeView::Maybe { inner: Box::new(spec_resolve_in(c, *inner)) },
        AstType::Union { variants } => {
            let r = spec_resolve_all_in(c, variants@);
            if r.len() < 2 {
                TypeView::Error
            } else {
                TypeView::Union { variants: r }
            }
        },
        AstType::ErrorCapable { inner } => TypeView::ErrorsCapable { inner: Box::new(spec_resolve_in(c, *inner)) },
        AstType::Sensitive(inner) => TypeView::Sensitive { inner: Box::new(spec_resolve_in(c, *inner)) },
        _ => TypeView::Error,
    }
}

/// Each type of `s` resolved.
pub open spec fn spec_resolve_all_in(c: ResolveCtx, s: Seq<AstType>) -> Seq<TypeView>
    decreases s,
{
    if s.len() == 0 {
        Seq::empty()
    } else {
        spec_resolve_all_in(c, s.subrange(0, s.len() - 1)).push(spec_resolve_in(c, s[s.len() - 1]))
    }
}

/// What type resolution reads of a table: its shape names, its union aliases (each at its
/// first row) and its options type names.
pub struct ResolveCtx {
    pub shapes: Set<Seq<char>>,
    pub aliases: Map<Seq<char>, TypeView>,
    pub options: Set<Seq<char>>,
}

/// The resolution context of a shape table.
pub open spec fn table_ctx(t: ShapeTable) -> ResolveCtx {
    ResolveCtx {
        shapes: Set::new(|n: Seq<char>| has_shape(t, n)),
        aliases: Map::new(
            |n: Seq<char>| lookup(t.union_aliases@, n) is Some,
            |n: Seq<char>| type_view(lookup(t.union_aliases@, n)->0),
        ),
        options: t.options_names@,
    }
}

/// A type as written, resolved against the shape table (see [`spec_resolve_in`]).
pub open spec fn spec_resolve_ast_type(t: ShapeTable, a: AstType) -> TypeView {
    spec_resolve_in(table_ctx(t), a)
}

/// Each type of `s` resolved against the shape table.
pub open spec fn spec_resolve_all(t: ShapeTable, s: Seq<AstType>) -> Seq<TypeView> {
    spec_resolve_all_in(table_ctx(t), s)
}

proof fn lemma_resolve_all(c: ResolveCtx, s: Seq<AstType>)
    ensures
        spec_resolve_all_in(c, s).len() == s.len(),
        forall|i: int| 0 <= i < s.len() ==> #[trigger] spec_resolve_all_in(c, s)[i] == spec_resolve_in(c, s[i]),
    decreases s.len(),
{
    if s.len() > 0 {
        let d = s.subrange(0, s.len() - 1);
        lemma_resolve_all(c, d);
        assert forall|i: int| 0 <= i < s.len() implies #[trigger] spec_resolve_all_in(c, s)[i] == spec_resolve_in(c, s[i]) by {
            if i < s.len() - 1 {
                assert(d[i] == s[i]);
            }
        }
    }
}

fn is_str(s: &String, lit_text: &str) -> (b: bool)
    ensures
        b == (s@ == lit_text@),
{
    str_eq(s.as_str(), lit_text)
}

impl ShapeTable {
    fn resolve_all(&self, s: &Vec<AstType>) -> (r: Vec<Type>)
        ensures
            view_types(r@) == spec_resolve_all(*self, s@),
        decreases s, 0int,
    {
        let mut out: Vec<Type> = Vec::new();
        let mut i: usize = 0;
        while i < s.len()
            invariant
                i <= s@.len(),
                out@.len() == i,
                forall|j: int| 0 <= j < i ==> type_view(#[trigger] out@[j]) == spec_resolve_ast_type(*self, s@[j]),
            decreases s@.len() - i,
        {
            out.push(self.resolve_ast_type(&s[i]));
            i = i + 1;
        }
        proof {
            lemma_view_types(out@);
            lemma_resolve_all(table_ctx(*self), s@);
            assert(view_types(out@) =~= spec_resolve_all(*self, s@));
        }
        out
    }

    fn resolve_named(&self, n: &String) -> (r: Type)
        ensures
            r@ == spec_resolve_ast_type(*self, AstType::Named(*n, arbitrary())),
    {
        if is_str(n, "string") {
            return Type::String;
        }
        match find_row(&self.union_aliases, n.as_str()) {
            Some(i) => {
                return self.union_aliases[i].1.duplicate();
            },
            None => {},
        }
        let ghost spec_r = spec_resolve_ast_type(*self, AstType::Named(*n, arbitrary()));
        proof {
            assert(n@ != "string"@);
            assert(lookup(self.union_aliases@, n@) is None);
        }
        if self.contains(n.as_str()) || is_str(n, "Frame") || is_str(n, "SourceLoc") {
            let r = Type::Shape { name: n.clone() };
            proof {
                assert(spec_r == TypeView::Shape { name: n@ });
            }
            r
        } else if is_str(n, "range") {
            let r = Type::Range { element: Box::new(Type::Int), end_inclusive: false };
            proof {
                assert(spec_r == TypeView::Range { element: Box::new(TypeView::Int), end_inclusive: false });
                assert(type_view(Type::Int) == TypeView::Int);
                assert(r@ == TypeView::Range { element: Box::new(TypeView::Int), end_inclusive: false });
            }
            r
        } else if self.options_names.contains(n.as_str()) {
            let r = Type::Options { name: n.clone() };
            proof {
                assert(spec_r == TypeView::Options { name: n@ });
            }
            r
        } else {
            proof {
                assert(spec_r == TypeView::Error);
            }
            Type::Error
        }
    }

    fn resolve_generic(&self, name: &String, name_span: &SourceSpan, args: &Vec<AstType>) -> (r: Type)
        ensures
            r@ == spec_resolve_ast_type(*self, AstType::Generic { name: *name, name_span: *name_span, args: *args }),
        decreases args, 1int,
    {
        let r = self.resolve_all(args);
        proof {
            lemma_view_types(r@);
        }
        let first = if r.len() > 0 {
            r[0].duplicate()
        } else {
            Type::Error
        };
        if is_str(name, "array") {
            Type::BuiltinArray { elem: Box::new(first) }
        } else if is_str(name, "fixed") {
            Type::BuiltinFixed { elem: Box::new(first), size: None }
        } else if is_str(name, "map") || is_str(name, "MapEntry") {
            let second = if r.len() > 1 {
                r[1].duplicate()
            } else {
                Type::Error
            };
            if is_str(name, "map") {
                Type::BuiltinMap { key: Box::new(first), val: Box::new(second) }
            } else {
                Type::MapEntry { key: Box::new(first), val: Box::new(second) }
            }
        } else if is_str(name, "channel") {
            Type::BuiltinChannel { elem: Box::new(first) }
        } else if self.contains(name.as_str()) {
            Type::Generic { name: name.clone(), args: r }
        } else {
            Type::Error
        }
    }

    /// Resolve a type as written to a type pass type (see [`spec_resolve_ast_type`]).
    pub fn resolve_ast_type(&self, ast_ty: &AstType) -> (r: Type)
        ensures
            r@ == spec_resolve_ast_type(*self, *ast_ty),
        decreases ast_ty, 2int,
    {
        match ast_ty {
            AstType::Nothing => Type::Nothing,
            AstType::Int => Type::Int,
            AstType::Float => Type::Float,
            AstType::Number { precision } => Type::Number { precision: *precision },
            AstType::Bool => Type::Bool,
            AstType::Named(n, _) => self.resolve_named(n),
            AstType::AnonShape { fields, .. } => Type::Shape { name: canonical_anon_name(fields) },
            AstType::Dynamic { contract } => Type::Dynamic { contract: contract.clone() },
            AstType::Generic { name, name_span, args } => self.resolve_generic(name, name_span, args),
            AstType::Maybe { inner } => Type::Maybe { inner: Box::new(self.resolve_ast_type(inner)) },
            AstType::Union { variants } => {
                let r = self.resolve_all(variants);
                proof {
                    lemma_view_types(r@);
                }
                if r.len() < 2 {
                    Type::Error
                } else {
                    Type::Union { variants: r }
                }
            },
            AstType::ErrorCapable { inner } => Type::ErrorsCapable { inner: Box::new(self.resolve_ast_type(inner)) },
            AstType::Sensitive(inner) => Type::Sensitive { inner: Box::new(self.resolve_ast_type(inner)) },
            _ => Type::Error,
        }
    }
}

/// The model of a [`FieldDef`].
pub struct FieldView {
    pub name: Seq<char>,
    pub ty: TypeView,
    pub is_hidden: bool,
    pub is_inherited: bool,
    pub defined_at: SpanView,
}

impl View for FieldDef {
    type V = FieldView;

    open spec fn view(&self) -> FieldView {
        FieldView {
            name: self.name@,
            ty: self.ty@,
            is_hidden: self.is_hidden,
            is_inherited: self.is_inherited,
            defined_at: self.defined_at@,
        }
    }
}

/// The model of a [`ContractSigDef`].
pub struct ContractSigView {
    pub name: Seq<char>,
    pub param_tys: Seq<TypeView>,
    pub param_names: Seq<Seq<char>>,
    pub param_ownerships: Seq<Option<OwnershipModifier>>,
    pub receiver: Option<ReceiverKind>,
    pub ret_ty: TypeView,
}

impl View for ContractSigDef {
    type V = ContractSigView;

    open spec fn view(&self) -> ContractSigView {
        ContractSigView {
            name: self.name@,
            param_tys: view_types(self.param_tys@),
            param_names: string_views(self.param_names@),
            param_ownerships: self.param_ownerships@,
            receiver: self.receiver,
            ret_ty: self.ret_ty@,
        }
    }
}

/// The model of a [`ShapeDef`].
pub struct ShapeView {
    pub name: Seq<char>,
    pub is_base: bool,
    pub extends: Option<Seq<char>>,
    pub follows: Seq<Seq<char>>,
    pub fields: Seq<FieldView>,
    pub contract_sigs: Seq<ContractSigView>,
    pub defined_at: SpanView,
}

pub open spec fn field_views(s: Seq<FieldDef>) -> Seq<FieldView> {
    s.map_values(|f: FieldDef| f@)
}

pub open spec fn sig_views(s: Seq<ContractSigDef>) -> Seq<ContractSigView> {
    s.map_values(|c: ContractSigDef| c@)
}

impl View for ShapeDef {
    type V = ShapeView;

    open spec fn view(&self) -> ShapeView {
        ShapeView {
            name: self.name@,
            is_base: self.is_base,
            extends: match self.extends {
                Some(p) => Some(p@),
                None => None,
            },
            follows: string_views(self.follows@),
            fields: field_views(self.fields@),
            contract_sigs: sig_views(self.contract_sigs@),
            defined_at: self.defined_at@,
        }
    }
}

/// A copy of a list of names.
pub fn copy_strings(v: &Vec<String>) -> (r: Vec<String>)
    ensures
        string_views(r@) == string_views(v@),
{
    let mut r: Vec<String> = Vec::new();
    let mut i: usize = 0;
    while i < v.len()
        invariant
            i <= v@.len(),
            r@.len() == i,
            forall|j: int| 0 <= j < i ==> (#[trigger] r@[j])@ == v@[j]@,
        decreases v@.len() - i,
    {
        r.push(v[i].clone());
        i = i + 1;
    }
    proof {
        assert(string_views(r@) =~= string_views(v@));
    }
    r
}

impl FieldDef {
    /// An identical copy.
    pub fn duplicate(&self) -> (r: FieldDef)
        ensures
            r@ == self@,
    {
        FieldDef {
            name: self.name.clone(),
            ty: self.ty.duplicate(),
            is_hidden: self.is_hidden,
            is_inherited: self.is_inherited,
            defined_at: self.defined_at.duplicate(),
        }
    }
}

impl ContractSigDef {
    /// An identical copy.
    pub fn duplicate(&self) -> (r: ContractSigDef)
        ensures
            r@ == self@,
    {
        let mut ows: Vec<Option<OwnershipModifier>> = Vec::new();
        let mut i: usize = 0;
        while i < self.param_ownerships.len()
            invariant
                i <= self.param_ownerships@.len(),
                ows@ == self.param_ownerships@.take(i as int),
            decreases self.param_ownerships@.len() - i,
        {
            ows.push(self.param_ownerships[i]);
            proof {
                assert(self.param_ownerships@.take(i + 1) =~= self.param_ownerships@.take(i as int).push(
                    self.param_ownerships@[i as int],
                ));
            }
            i = i + 1;
        }
        proof {
            assert(self.param_ownerships@.take(self.param_ownerships@.len() as int) =~= self.param_ownerships@);
        }
        ContractSigDef {
            name: self.name.clone(),
            param_tys: crate::types::dup_types(&self.param_tys),
            param_names: copy_strings(&self.param_names),
            param_ownerships: ows,
            receiver: self.receiver,
            ret_ty: self.ret_ty.duplicate(),
        }
    }
}

impl ShapeDef {
    /// An identical copy.
    pub fn duplicate(&self) -> (r: ShapeDef)
        ensures
            r@ == self@,
    {
        let mut fields: Vec<FieldDef> = Vec::new();
        let mut i: usize = 0;
        while i < self.fields.len()
            invariant
                i <= self.fields@.len(),
                fields@.len() == i,
                forall|j: int| 0 <= j < i ==> (#[trigger] fields@[j])@ == self.fields@[j]@,
            decreases self.fields@.len() - i,
        {
            fields.push(self.fields[i].duplicate());
            i = i + 1;
        }
        let mut sigs: Vec<ContractSigDef> = Vec::new();
        let mut k: usize = 0;
        while k < self.contract_sigs.len()
            invariant
                k <= self.contract_sigs@.len(),
                sigs@.len() == k,
                forall|j: int| 0 <= j < k ==> (#[trigger] sigs@[j])@ == self.contract_sigs@[j]@,
            decreases self.contract_sigs@.len() - k,
        {
            sigs.push(self.contract_sigs[k].duplicate());
            k = k + 1;
        }
        let extends = match &self.extends {
            Some(p) => Some(p.clone()),
            None => None,
        };
        let r = ShapeDef {
            name: self.name.clone(),
            is_base: self.is_base,
            extends,
            follows: copy_strings(&self.follows),
            fields,
            contract_sigs: sigs,
            defined_at: self.defined_at.duplicate(),
        };
        proof {
            assert(field_views(r.fields@) =~= field_views(self.fields@));
            assert(sig_views(r.contract_sigs@) =~= sig_views(self.contract_sigs@));
        }
        r
    }
}

} // verus!
