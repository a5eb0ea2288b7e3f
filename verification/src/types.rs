use vstd::prelude::*;

use crate::text::{decimal_string, lit, spec_decimal};

verus! {

/// A type known to the type pass.
#[derive(Debug)]
pub enum Type {
    Int,
    Float,
    Bool,
    String,
    Nothing,
    Error,
    Number { precision: u32 },
    Range { element: Box<Type>, end_inclusive: bool },
    Options { name: String },
    Shape { name: String },
    BuiltinFixed { elem: Box<Type>, size: Option<u64> },
    BuiltinArray { elem: Box<Type> },
    BuiltinMap { key: Box<Type>, val: Box<Type> },
    MapEntry { key: Box<Type>, val: Box<Type> },
    Maybe { inner: Box<Type> },
    Sensitive { inner: Box<Type> },
    BuiltinChannel { elem: Box<Type> },
    BackgroundHandle { result: Box<Type>, msg_elem: Option<Box<Type>> },
    Dynamic { contract: String },
    Union { variants: Vec<Type> },
    ErrorsCapable { inner: Box<Type> },
    TypeParam { name: String },
    Generic { name: String, args: Vec<Type> },
}

/// The mathematical model of [`Type`]: names as character sequences.
pub enum TypeView {
    Int,
    Float,
    Bool,
    String,
    Nothing,
    Error,
    Number { precision: u32 },
    Range { element: Box<TypeView>, end_inclusive: bool },
    Options { name: Seq<char> },
    Shape { name: Seq<char> },
    BuiltinFixed { elem: Box<TypeView>, size: Option<u64> },
    BuiltinArray { elem: Box<TypeView> },
    BuiltinMap { key: Box<TypeView>, val: Box<TypeView> },
    MapEntry { key: Box<TypeView>, val: Box<TypeView> },
    Maybe { inner: Box<TypeView> },
    Sensitive { inner: Box<TypeView> },
    BuiltinChannel { elem: Box<TypeView> },
    BackgroundHandle { result: Box<TypeView>, msg_elem: Option<Box<TypeView>> },
    Dynamic { contract: Seq<char> },
    Union { variants: Seq<TypeView> },
    ErrorsCapable { inner: Box<TypeView> },
    TypeParam { name: Seq<char> },
    Generic { name: Seq<char>, args: Seq<TypeView> },
}

pub open spec fn view_types(s: Seq<Type>) -> Seq<TypeView>
    decreases s,
{
    if s.len() == 0 {
        Seq::empty()
    } else {
        seq![type_view(s[0])] + view_types(s.subrange(1, s.len() as int))
    }
}

pub open spec fn type_view(t: Type) -> TypeView
    decreases t,
{
    match t {
        Type::Int => TypeView::Int,
        Type::Float => TypeView::Float,
        Type::Bool => TypeView::Bool,
        Type::String => TypeView::String,
        Type::Nothing => TypeView::Nothing,
        Type::Error => TypeView::Error,
        Type::Number { precision } => TypeView::Number { precision },
        Type::Range { element, end_inclusive } => TypeView::Range { element: Box::new(type_view(*element)), end_inclusive },
        Type::Options { name } => TypeView::Options { name: name@ },
        Type::Shape { name } => TypeView::Shape { name: name@ },
        Type::BuiltinFixed { elem, size } => TypeView::BuiltinFixed { elem: Box::new(type_view(*elem)), size },
        Type::BuiltinArray { elem } => TypeView::BuiltinArray { elem: Box::new(type_view(*elem)) },
        Type::BuiltinMap { key, val } => TypeView::BuiltinMap { key: Box::new(type_view(*key)), val: Box::new(type_view(*val)) },
        Type::MapEntry { key, val } => TypeView::MapEntry { key: Box::new(type_view(*key)), val: Box::new(type_view(*val)) },
        Type::Maybe { inner } => TypeView::Maybe { inner: Box::new(type_view(*inner)) },
        Type::Sensitive { inner } => TypeView::Sensitive { inner: Box::new(type_view(*inner)) },
        Type::BuiltinChannel { elem } => TypeView::BuiltinChannel { elem: Box::new(type_view(*elem)) },
        Type::BackgroundHandle { result, msg_elem } => TypeView::BackgroundHandle {
            result: Box::new(type_view(*result)),
            msg_elem: match msg_elem { Some(m) => Some(Box::new(type_view(*m))), None => None },
        },
        Type::Dynamic { contract } => TypeView::Dynamic { contract: contract@ },
        Type::Union { variants } => TypeView::Union { variants: view_types(variants@) },
        Type::ErrorsCapable { inner } => TypeView::ErrorsCapable { inner: Box::new(type_view(*inner)) },
        Type::TypeParam { name } => TypeView::TypeParam { name: name@ },
        Type::Generic { name, args } => TypeView::Generic { name: name@, args: view_types(args@) },
    }
}

impl View for Type {
    type V = TypeView;

    open spec fn view(&self) -> TypeView {
        type_view(*self)
    }
}


/// Every element of `view_types(s)` is the view of the matching element of `s`.
pub proof fn lemma_view_types(s: Seq<Type>)
    ensures
        view_types(s).len() == s.len(),
        forall|i: int| 0 <= i < s.len() ==> #[trigger] view_types(s)[i] == type_view(s[i]),
    decreases s.len(),
{
    if s.len() > 0 {
        lemma_view_types(s.subrange(1, s.len() as int));
        assert forall|i: int| 0 <= i < s.len() implies #[trigger] view_types(s)[i] == type_view(s[i]) by {
            if i > 0 {
                assert(s.subrange(1, s.len() as int)[i - 1] == s[i]);
            }
        }
    }
}

/// Views of two type sequences agree exactly when they agree element-wise.
pub proof fn lemma_view_types_ext(a: Seq<Type>, b: Seq<Type>)
    ensures
        (view_types(a) == view_types(b)) <==> (a.len() == b.len() && forall|i: int|
            0 <= i < a.len() ==> type_view(#[trigger] a[i]) == type_view(b[i])),
{
    lemma_view_types(a);
    lemma_view_types(b);
    if a.len() == b.len() && forall|i: int| 0 <= i < a.len() ==> type_view(#[trigger] a[i]) == type_view(b[i]) {
        assert(view_types(a) =~= view_types(b));
    }
    if view_types(a) == view_types(b) {
        assert forall|i: int| 0 <= i < a.len() implies type_view(#[trigger] a[i]) == type_view(b[i]) by {
            assert(view_types(a)[i] == view_types(b)[i]);
        }
    }
}

pub fn dup_types(v: &Vec<Type>) -> (r: Vec<Type>)
    ensures
        view_types(r@) == view_types(v@),
    decreases v,
{
    let mut out: Vec<Type> = Vec::new();
    let mut i: usize = 0;
    while i < v.len()
        invariant
            i <= v.len(),
            out@.len() == i,
            forall|j: int| 0 <= j < i ==> type_view(#[trigger] out@[j]) == type_view(v@[j]),
        decreases v.len() - i,
    {
        out.push(v[i].duplicate());
        i = i + 1;
    }
    proof {
        lemma_view_types_ext(out@, v@);
    }
    out
}

pub fn types_eq(a: &Vec<Type>, b: &Vec<Type>) -> (r: bool)
    ensures
        r == (view_types(a@) == view_types(b@)),
    decreases a,
{
    proof {
        lemma_view_types_ext(a@, b@);
    }
    if a.len() != b.len() {
        return false;
    }
    let mut i: usize = 0;
    while i < a.len()
        invariant
            i <= a.len(),
            a.len() == b.len(),
            forall|j: int| 0 <= j < i ==> type_view(#[trigger] a@[j]) == type_view(b@[j]),
        decreases a.len() - i,
    {
        if !a[i].equals(&b[i]) {
            proof {
                lemma_view_types_ext(a@, b@);
            }
            return false;
        }
        i = i + 1;
    }
    true
}

impl Type {
    /// A structurally identical copy.
    pub fn duplicate(&self) -> (r: Type)
        ensures
            r@ == self@,
        decreases self,
    {
        match self {
            Type::Int => Type::Int,
            Type::Float => Type::Float,
            Type::Bool => Type::Bool,
            Type::String => Type::String,
            Type::Nothing => Type::Nothing,
            Type::Error => Type::Error,
            Type::Number { precision } => Type::Number { precision: *precision },
            Type::Range { element, end_inclusive } => Type::Range { element: Box::new((**element).duplicate()), end_inclusive: *end_inclusive },
            Type::Options { name } => Type::Options { name: name.clone() },
            Type::Shape { name } => Type::Shape { name: name.clone() },
            Type::BuiltinFixed { elem, size } => Type::BuiltinFixed { elem: Box::new((**elem).duplicate()), size: *size },
            Type::BuiltinArray { elem } => Type::BuiltinArray { elem: Box::new((**elem).duplicate()) },
            Type::BuiltinMap { key, val } => Type::BuiltinMap { key: Box::new((**key).duplicate()), val: Box::new((**val).duplicate()) },
            Type::MapEntry { key, val } => Type::MapEntry { key: Box::new((**key).duplicate()), val: Box::new((**val).duplicate()) },
            Type::Maybe { inner } => Type::Maybe { inner: Box::new((**inner).duplicate()) },
            Type::Sensitive { inner } => Type::Sensitive { inner: Box::new((**inner).duplicate()) },
            Type::BuiltinChannel { elem } => Type::BuiltinChannel { elem: Box::new((**elem).duplicate()) },
            Type::BackgroundHandle { result, msg_elem } => Type::BackgroundHandle {
                result: Box::new((**result).duplicate()),
                msg_elem: match msg_elem {
                    Some(m) => Some(Box::new((**m).duplicate())),
                    None => None,
                },
            },
            Type::Dynamic { contract } => Type::Dynamic { contract: contract.clone() },
            Type::Union { variants } => Type::Union { variants: dup_types(variants) },
            Type::ErrorsCapable { inner } => Type::ErrorsCapable { inner: Box::new((**inner).duplicate()) },
            Type::TypeParam { name } => Type::TypeParam { name: name.clone() },
            Type::Generic { name, args } => Type::Generic { name: name.clone(), args: dup_types(args) },
        }
    }

    /// Structural equality of two types.
    pub fn equals(&self, other: &Type) -> (r: bool)
        ensures
            r == (self@ == other@),
        decreases self,
    {
        match (self, other) {
            (Type::Int, Type::Int) => true,
            (Type::Float, Type::Float) => true,
            (Type::Bool, Type::Bool) => true,
            (Type::String, Type::String) => true,
            (Type::Nothing, Type::Nothing) => true,
            (Type::Error, Type::Error) => true,
            (Type::Number { precision: a }, Type::Number { precision: b }) => *a == *b,
            (Type::Range { element: a, end_inclusive: x }, Type::Range { element: b, end_inclusive: y }) =>
                *x == *y && (**a).equals(&**b),
            (Type::Options { name: a }, Type::Options { name: b }) => *a == *b,
            (Type::Shape { name: a }, Type::Shape { name: b }) => *a == *b,
            (Type::BuiltinFixed { elem: a, size: x }, Type::BuiltinFixed { elem: b, size: y }) => {
                let same_size = match (x, y) {
                    (Some(p), Some(q)) => *p == *q,
                    (None, None) => true,
                    _ => false,
                };
                same_size && (**a).equals(&**b)
            },
            (Type::BuiltinArray { elem: a }, Type::BuiltinArray { elem: b }) => (**a).equals(&**b),
            (Type::BuiltinMap { key: k1, val: v1 }, Type::BuiltinMap { key: k2, val: v2 }) =>
                (**k1).equals(&**k2) && (**v1).equals(&**v2),
            (Type::MapEntry { key: k1, val: v1 }, Type::MapEntry { key: k2, val: v2 }) =>
                (**k1).equals(&**k2) && (**v1).equals(&**v2),
            (Type::Maybe { inner: a }, Type::Maybe { inner: b }) => (**a).equals(&**b),
            (Type::Sensitive { inner: a }, Type::Sensitive { inner: b }) => (**a).equals(&**b),
            (Type::BuiltinChannel { elem: a }, Type::BuiltinChannel { elem: b }) => (**a).equals(&**b),
            (Type::BackgroundHandle { result: r1, msg_elem: m1 }, Type::BackgroundHandle { result: r2, msg_elem: m2 }) => {
                let same_msg = match (m1, m2) {
                    (Some(p), Some(q)) => (**p).equals(&**q),
                    (None, None) => true,
                    _ => false,
                };
                same_msg && (**r1).equals(&**r2)
            },
            (Type::Dynamic { contract: a }, Type::Dynamic { contract: b }) => *a == *b,
            (Type::Union { variants: a }, Type::Union { variants: b }) => types_eq(a, b),
            (Type::ErrorsCapable { inner: a }, Type::ErrorsCapable { inner: b }) => (**a).equals(&**b),
            (Type::TypeParam { name: a }, Type::TypeParam { name: b }) => *a == *b,
            (Type::Generic { name: a, args: x }, Type::Generic { name: b, args: y }) => *a == *b && types_eq(x, y),
            _ => false,
        }
    }
}


/// The user-facing rendering of a type, as diagnostics print it.
pub open spec fn spec_render_type(t: TypeView) -> Seq<char>
    decreases t,
{
    match t {
        TypeView::Int => "int"@,
        TypeView::Float => "float"@,
        TypeView::Bool => "bool"@,
        TypeView::String => "string"@,
        TypeView::Nothing => "nothing"@,
        TypeView::Error => "<error>"@,
        TypeView::Number { precision } => if precision == 34 {
            "number"@
        } else {
            "number("@ + spec_decimal(precision as nat) + ")"@
        },
        TypeView::Range { element, .. } => "range<"@ + spec_render_type(*element) + ">"@,
        TypeView::Options { name } => name,
        TypeView::Shape { name } => name,
        TypeView::BuiltinFixed { elem, .. } => "fixed<"@ + spec_render_type(*elem) + ">"@,
        TypeView::BuiltinArray { elem } => "array<"@ + spec_render_type(*elem) + ">"@,
        TypeView::BuiltinMap { key, val } => "map<"@ + spec_render_type(*key) + ", "@ + spec_render_type(*val) + ">"@,
        TypeView::MapEntry { key, val } => "entry<"@ + spec_render_type(*key) + ", "@ + spec_render_type(*val) + ">"@,
        TypeView::Maybe { inner } => "maybe<"@ + spec_render_type(*inner) + ">"@,
        TypeView::Sensitive { inner } => "sensitive "@ + spec_render_type(*inner),
        TypeView::BuiltinChannel { elem } => "channel<"@ + spec_render_type(*elem) + ">"@,
        TypeView::BackgroundHandle { result, .. } => "handle<"@ + spec_render_type(*result) + ">"@,
        TypeView::Dynamic { contract } => "dynamic "@ + contract,
        TypeView::Union { variants } => spec_join_rendered(variants, " | "@),
        TypeView::ErrorsCapable { inner } => spec_render_type(*inner) + " errors"@,
        TypeView::TypeParam { name } => name,
        TypeView::Generic { name, args } => name + "<"@ + spec_join_rendered(args, ", "@) + ">"@,
    }
}

/// The names of `ts`, separated by `sep`.
pub open spec fn spec_join_rendered(ts: Seq<TypeView>, sep: Seq<char>) -> Seq<char>
    decreases ts,
{
    if ts.len() == 0 {
        Seq::empty()
    } else if ts.len() == 1 {
        spec_render_type(ts[0])
    } else {
        spec_join_rendered(ts.subrange(0, ts.len() - 1), sep) + sep + spec_render_type(ts[ts.len() - 1])
    }
}

fn join_rendered(ts: &Vec<Type>, sep: &str) -> (r: String)
    ensures
        r@ == spec_join_rendered(view_types(ts@), sep@),
    decreases ts, 0nat,
{
    proof {
        lemma_view_types(ts@);
    }
    let ghost vs = view_types(ts@);
    let mut out = lit("");
    proof {
        reveal_strlit("");
        assert(vs.subrange(0, 0) =~= Seq::<TypeView>::empty());
    }
    let mut i: usize = 0;
    while i < ts.len()
        invariant
            i <= ts.len(),
            vs == view_types(ts@),
            vs.len() == ts@.len(),
            forall|j: int| 0 <= j < ts@.len() ==> #[trigger] vs[j] == type_view(ts@[j]),
            out@ == spec_join_rendered(vs.subrange(0, i as int), sep@),
        decreases ts.len() - i,
    {
        let piece = render_type(&ts[i]);
        if i > 0 {
            out.append(sep);
        }
        out.append(piece.as_str());
        proof {
            let pre = vs.subrange(0, i + 1);
            assert(pre.subrange(0, pre.len() - 1) =~= vs.subrange(0, i as int));
            assert(pre[pre.len() - 1] == vs[i as int]);
            if i == 0 {
                assert(vs.subrange(0, 0) =~= Seq::<TypeView>::empty());
                assert(out@ =~= spec_render_type(vs[0]));
            }
        }
        i = i + 1;
    }
    proof {
        assert(vs.subrange(0, ts@.len() as int) =~= vs);
    }
    out
}

/// Render `t` the way diagnostics print it (`array<int>`, `maybe<Point>`, `int errors`, …).
pub fn render_type(t: &Type) -> (r: String)
    ensures
        r@ == spec_render_type(t@),
    decreases t, 0nat,
{
    proof {
        reveal_strlit("");
    }
    match t {
        Type::Int => lit("int"),
        Type::Float => lit("float"),
        Type::Bool => lit("bool"),
        Type::String => lit("string"),
        Type::Nothing => lit("nothing"),
        Type::Error => lit("<error>"),
        Type::Number { precision } => {
            if *precision == 34 {
                lit("number")
            } else {
                let mut s = lit("number(");
                s.append(decimal_string(*precision as u64).as_str());
                s.append(")");
                s
            }
        },
        Type::Range { element, .. } => wrap("range<", &**element, ">"),
        Type::Options { name } => name.clone(),
        Type::Shape { name } => name.clone(),
        Type::BuiltinFixed { elem, .. } => wrap("fixed<", &**elem, ">"),
        Type::BuiltinArray { elem } => wrap("array<", &**elem, ">"),
        Type::BuiltinMap { key, val } => {
            let mut s = wrap("map<", &**key, ", ");
            s.append(render_type(&**val).as_str());
            s.append(">");
            s
        },
        Type::MapEntry { key, val } => {
            let mut s = wrap("entry<", &**key, ", ");
            s.append(render_type(&**val).as_str());
            s.append(">");
            s
        },
        Type::Maybe { inner } => wrap("maybe<", &**inner, ">"),
        Type::Sensitive { inner } => wrap("sensitive ", &**inner, ""),
        Type::BuiltinChannel { elem } => wrap("channel<", &**elem, ">"),
        Type::BackgroundHandle { result, .. } => wrap("handle<", &**result, ">"),
        Type::Dynamic { contract } => {
            let mut s = lit("dynamic ");
            s.append(contract.as_str());
            s
        },
        Type::Union { variants } => join_rendered(variants, " | "),
        Type::ErrorsCapable { inner } => wrap("", &**inner, " errors"),
        Type::TypeParam { name } => name.clone(),
        Type::Generic { name, args } => {
            let mut s = name.clone();
            s.append("<");
            s.append(join_rendered(args, ", ").as_str());
            s.append(">");
            s
        },
    }
}

fn wrap(before: &str, t: &Type, after: &str) -> (r: String)
    ensures
        r@ == before@ + spec_render_type(t@) + after@,
    decreases t, 1nat,
{
    let mut s = lit(before);
    s.append(render_type(t).as_str());
    s.append(after);
    s
}

} // verus!
