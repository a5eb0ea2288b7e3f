//! The registry of `options` types in scope: the two built-in ones (`SortOrder`,
//! `Comparison`) and every valid `options` declaration of a module, each with its variant
//! names in declaration order (a variant's tag is its position).
use vstd::prelude::*;

use crate::diagnostics::{diag_views, error_view, Diagnostic, DiagnosticView, SourceSpan, SpanView};
use crate::names::{find_row, first_at, lemma_first_exists, lemma_lookup_at, lemma_lookup_other, lookup};
use crate::syntax::{Item, Module, OptionsDecl};
use crate::text::{
    decimal_string, lemma_lex_trichotomy, lit, sorted_unique, spec_decimal, spec_lex_lt, str_eq, str_lex_lt,
    string_views,
};

verus! {

/// A registered `options` type.
#[derive(Debug)]
pub struct OptionsEntry {
    /// Variant names in declaration order; tags are 0, 1, 2, … in this order.
    pub variants: Vec<String>,
    /// Source span of the declaration, for diagnostics.
    pub decl_span: SourceSpan,
}

/// The model of an [`OptionsEntry`].
pub struct OptionsEntryView {
    pub variants: Seq<Seq<char>>,
    pub decl_span: SpanView,
}

impl View for OptionsEntry {
    type V = OptionsEntryView;

    open spec fn view(&self) -> OptionsEntryView {
        OptionsEntryView { variants: string_views(self.variants@), decl_span: self.decl_span@ }
    }
}

/// The span the built-in types are declared at.
impl OptionsEntry {
    /// An identical copy.
    pub fn duplicate(&self) -> (r: OptionsEntry)
        ensures
            r@ == self@,
    {
        OptionsEntry { variants: crate::shapes::copy_strings(&self.variants), decl_span: self.decl_span.duplicate() }
    }
}

pub open spec fn stdlib_span() -> SpanView {
    SpanView { file: "<stdlib>"@, start: 0, end: 0 }
}

/// The two built-in options types, always in scope.
pub open spec fn builtin_options() -> Map<Seq<char>, OptionsEntryView> {
    map![
        "SortOrder"@ => OptionsEntryView { variants: seq!["asc"@, "desc"@], decl_span: stdlib_span() },
        "Comparison"@ => OptionsEntryView { variants: seq!["equal"@, "greater"@, "less"@], decl_span: stdlib_span() },
    ]
}

/// The registry of options types, by name.
#[derive(Debug)]
pub struct OptionsTable {
    options: Vec<(String, OptionsEntry)>,
}

impl OptionsTable {
    #[verifier::type_invariant]
    spec fn names_distinct(self) -> bool {
        forall|i: int, j: int|
            0 <= i < self.options@.len() && 0 <= j < self.options@.len() && i != j ==> #[trigger] self.options@[i].0@
                != #[trigger] self.options@[j].0@
    }
}

impl View for OptionsTable {
    type V = Map<Seq<char>, OptionsEntryView>;

    closed spec fn view(&self) -> Map<Seq<char>, OptionsEntryView> {
        Map::new(|n: Seq<char>| lookup(self.options@, n) is Some, |n: Seq<char>| lookup(self.options@, n)->0@)
    }
}

/// The first position of `x` in `s`.
pub open spec fn first_index_of(s: Seq<Seq<char>>, x: Seq<char>) -> Option<int> {
    if exists|i: int| 0 <= i < s.len() && s[i] == x {
        Some(choose|i: int| 0 <= i < s.len() && s[i] == x && forall|j: int| 0 <= j < i ==> s[j] != x)
    } else {
        None
    }
}

/// The options types of `m` that have the variant `v`.
pub open spec fn shorthand_candidates(m: Map<Seq<char>, OptionsEntryView>, v: Seq<char>) -> Set<Seq<char>> {
    m.dom().filter(|n: Seq<char>| m[n].variants.contains(v))
}

/// The views of a vector of string slices.
pub open spec fn str_views(v: Seq<&str>) -> Seq<Seq<char>> {
    v.map_values(|s: &str| s@)
}

/// The outcome of resolving a bare variant name.
#[derive(Debug)]
pub enum ShorthandResult<'a> {
    /// Exactly this options type has the variant.
    Found(&'a str),
    /// Several options types have it, in ascending order.
    Ambiguous(Vec<&'a str>),
    /// No options type has it.
    NotFound,
}

impl OptionsTable {
    /// An empty table.
    pub fn new() -> (t: OptionsTable)
        ensures
            t@ == Map::<Seq<char>, OptionsEntryView>::empty(),
    {
        let t = OptionsTable { options: Vec::new() };
        proof {
            assert(t@ =~= Map::<Seq<char>, OptionsEntryView>::empty());
        }
        t
    }

    /// Register `entry` under `name`, replacing an entry already under that name.
    pub fn insert(&mut self, name: String, entry: OptionsEntry)
        ensures
            final(self)@ == old(self)@.insert(name@, entry@),
    {
        proof {
            use_type_invariant(&*self);
        }
        let ghost before = self.options@;
        let ghost nv = name@;
        let ghost ev = entry@;
        let mut rows: Vec<(String, OptionsEntry)> = Vec::new();
        std::mem::swap(&mut rows, &mut self.options);
        match find_row(&rows, name.as_str()) {
            Some(i) => {
                rows.set(i, (name, entry));
                proof {
                    let after = rows@;
                    assert forall|a: int, b: int|
                        0 <= a < after.len() && 0 <= b < after.len() && a != b implies #[trigger] after[a].0@
                            != #[trigger] after[b].0@ by {
                        if a != i && b != i {
                            assert(after[a] == before[a] && after[b] == before[b]);
                        } else if a == i {
                            assert(after[b] == before[b]);
                            assert(before[i as int].0@ == nv);
                        } else {
                            assert(after[a] == before[a]);
                            assert(before[i as int].0@ == nv);
                        }
                    }
                    assert(first_at(after, nv, i as int));
                    lemma_lookup_at(after, nv, i as int);
                    assert forall|m: Seq<char>| m != nv implies lookup(after, m) == lookup(before, m) by {
                        lemma_lookup_other(before, after, i as int, m);
                    }
                }
            },
            None => {
                rows.push((name, entry));
                proof {
                    let after = rows@;
                    let p = before.len() as int;
                    assert forall|j: int| 0 <= j < before.len() implies #[trigger] before[j].0@ != nv by {
                        if before[j].0@ == nv {
                            lemma_first_exists(before, nv, j);
                        }
                    }
                    assert forall|a: int, b: int|
                        0 <= a < after.len() && 0 <= b < after.len() && a != b implies #[trigger] after[a].0@
                            != #[trigger] after[b].0@ by {
                        if a < p && b < p {
                            assert(after[a] == before[a] && after[b] == before[b]);
                        } else if a == p {
                            assert(after[b] == before[b]);
                        } else {
                            assert(after[a] == before[a]);
                        }
                    }
                    assert forall|j: int| 0 <= j < p implies #[trigger] after[j].0@ != nv by {
                        assert(after[j] == before[j]);
                    }
                    assert(first_at(after, nv, p));
                    lemma_lookup_at(after, nv, p);
                    assert forall|m: Seq<char>| m != nv implies lookup(after, m) == lookup(before, m) by {
                        lemma_lookup_other(before, after, p, m);
                    }
                }
            },
        }
        self.options = rows;
        proof {
            assert(self@ =~= old(self)@.insert(nv, ev));
        }
    }

    /// A table holding the two built-in options types.
    pub fn with_builtins() -> (t: OptionsTable)
        ensures
            t@ == builtin_options(),
    {
        let mut t = OptionsTable::new();
        let mut sort_variants: Vec<String> = Vec::new();
        sort_variants.push(lit("asc"));
        sort_variants.push(lit("desc"));
        t.insert(lit("SortOrder"), OptionsEntry { variants: sort_variants, decl_span: SourceSpan::new("<stdlib>", 0, 0) });
        let mut cmp_variants: Vec<String> = Vec::new();
        cmp_variants.push(lit("equal"));
        cmp_variants.push(lit("greater"));
        cmp_variants.push(lit("less"));
        t.insert(
            lit("Comparison"),
            OptionsEntry { variants: cmp_variants, decl_span: SourceSpan::new("<stdlib>", 0, 0) },
        );
        proof {
            reveal_strlit("SortOrder");
            reveal_strlit("Comparison");
            assert("SortOrder"@ != "Comparison"@) by {
                assert("SortOrder"@[0] != "Comparison"@[0]);
            }
            let sv = seq!["asc"@, "desc"@];
            let cv = seq!["equal"@, "greater"@, "less"@];
            assert(string_views(sort_variants@) =~= sv);
            assert(string_views(cmp_variants@) =~= cv);
            assert(t@ =~= builtin_options());
        }
        t
    }

    /// Is an options type named `name` registered?
    pub fn contains(&self, name: &str) -> (b: bool)
        ensures
            b == self@.contains_key(name@),
    {
        find_row(&self.options, name).is_some()
    }

    /// The entry registered under `name`.
    pub fn get(&self, name: &str) -> (r: Option<&OptionsEntry>)
        ensures
            match r {
                Some(e) => self@.contains_key(name@) && self@[name@] == e@,
                None => !self@.contains_key(name@),
            },
    {
        match find_row(&self.options, name) {
            Some(i) => Some(&self.options[i].1),
            None => None,
        }
    }

    /// The tag (0-indexed position, as an `i8`) of `variant` in the options type
    /// `options_name`; `None` when the type is unknown or lacks the variant.
    pub fn tag_for(&self, options_name: &str, variant: &str) -> (r: Option<i8>)
        ensures
            r == match (if self@.contains_key(options_name@) {
                first_index_of(self@[options_name@].variants, variant@)
            } else {
                None
            }) {
                Some(i) => Some(i as i8),
                None => None,
            },
    {
        match self.get(options_name) {
            Some(entry) => {
                let ghost vs = entry@.variants;
                let mut i: usize = 0;
                while i < entry.variants.len()
                    invariant
                        i <= entry.variants@.len(),
                        vs == string_views(entry.variants@),
                        self@.contains_key(options_name@),
                        self@[options_name@] == entry@,
                        forall|j: int| 0 <= j < i ==> vs[j] != variant@,
                    decreases entry.variants@.len() - i,
                {
                    if str_eq(entry.variants[i].as_str(), variant) {
                        proof {
                            assert(vs[i as int] == variant@);
                            let c = choose|c: int| 0 <= c < vs.len() && vs[c] == variant@ && forall|j: int| 0 <= j < c ==> vs[j] != variant@;
                            if c < i {
                                assert(vs[c] != variant@);
                            }
                            if c > i {
                                assert(vs[i as int] != variant@);
                            }
                            assert(c == i);
                            assert(first_index_of(vs, variant@) == Some(i as int));
                        }
                        let t: i8 = #[verifier::truncate] (i as i8);
                        proof {
                            assert(t == (i as int) as i8);
                            assert(self@.contains_key(options_name@));
                            assert(self@[options_name@].variants == vs);
                        }
                        return Some(t);
                    }
                    i = i + 1;
                }
                None
            },
            None => None,
        }
    }
}

fn entry_has_variant(e: &OptionsEntry, variant: &str) -> (b: bool)
    ensures
        b == e@.variants.contains(variant@),
{
    let ghost vs = e@.variants;
    let mut i: usize = 0;
    while i < e.variants.len()
        invariant
            i <= e.variants@.len(),
            vs == string_views(e.variants@),
            forall|j: int| 0 <= j < i ==> vs[j] != variant@,
        decreases e.variants@.len() - i,
    {
        if str_eq(e.variants[i].as_str(), variant) {
            proof {
                assert(vs[i as int] == variant@);
            }
            return true;
        }
        i = i + 1;
    }
    false
}

/// Insert `name` into an ascending, duplicate-free vector of names (no-op when present).
#[verifier::rlimit(60)]
#[verifier::spinoff_prover]
fn insert_sorted_str<'a>(names: &mut Vec<&'a str>, name: &'a str)
    requires
        sorted_unique(str_views(old(names)@)),
    ensures
        sorted_unique(str_views(final(names)@)),
        str_views(final(names)@).to_set() == str_views(old(names)@).to_set().insert(name@),
{
    let ghost old_views = str_views(names@);
    let mut i: usize = 0;
    while i < names.len()
        invariant
            i <= names.len(),
            names@ == old(names)@,
            old_views == str_views(names@),
            sorted_unique(old_views),
            forall|j: int| 0 <= j < i ==> names@[j]@ != name@,
        decreases names.len() - i,
    {
        if str_eq(names[i], name) {
            proof {
                assert(old_views[i as int] == name@);
                assert(old_views.to_set().insert(name@) =~= old_views.to_set());
            }
            return;
        }
        i = i + 1;
    }
    let mut p: usize = 0;
    while p < names.len() && str_lex_lt(names[p], name)
        invariant
            p <= names.len(),
            names@ == old(names)@,
            old_views == str_views(names@),
            sorted_unique(old_views),
            forall|j: int| 0 <= j < names@.len() ==> names@[j]@ != name@,
            p > 0 ==> spec_lex_lt(names@[p - 1]@, name@),
        decreases names.len() - p,
    {
        p = p + 1;
    }
    proof {
        if p < names.len() {
            lemma_lex_trichotomy(names@[p as int]@, name@);
        }
    }
    let ghost nv = name@;
    names.insert(p, name);
    proof {
        let nw = str_views(names@);
        assert(nw =~= old_views.subrange(0, p as int).push(nv) + old_views.subrange(p as int, old_views.len() as int));
        assert forall|i: int| 0 <= i < nw.len() - 1 implies spec_lex_lt(#[trigger] nw[i], nw[i + 1]) by {
            if i < p - 1 {
                assert(nw[i] == old_views[i] && nw[i + 1] == old_views[i + 1]);
            } else if i == p - 1 {
            } else if i == p {
            } else {
                assert(nw[i] == old_views[i - 1] && nw[i + 1] == old_views[i]);
            }
        }
        assert(nw.to_set() =~= old_views.to_set().insert(nv)) by {
            assert forall|x: Seq<char>| nw.to_set().contains(x) implies old_views.to_set().insert(nv).contains(x) by {
                let k = choose|k: int| 0 <= k < nw.len() && nw[k] == x;
                if k < p {
                    assert(old_views[k] == x);
                } else if k > p {
                    assert(old_views[k - 1] == x);
                }
            }
            assert forall|x: Seq<char>| old_views.to_set().insert(nv).contains(x) implies nw.to_set().contains(x) by {
                if x == nv {
                    assert(nw[p as int] == x);
                } else {
                    let k = choose|k: int| 0 <= k < old_views.len() && old_views[k] == x;
                    if k < p {
                        assert(nw[k] == x);
                    } else {
                        assert(nw[k + 1] == x);
                    }
                }
            }
        }
    }
}

impl OptionsTable {
    /// Resolve a bare variant name: the expected type when it has the variant; otherwise
    /// the one options type that has it, every one of them (ascending) when several do,
    /// or none.
    pub fn resolve_shorthand<'a>(&'a self, variant: &str, expected_type: &'a str) -> (r: ShorthandResult<'a>)
        ensures
            ({
                let direct = self@.contains_key(expected_type@) && self@[expected_type@].variants.contains(variant@);
                let cands = shorthand_candidates(self@, variant@);
                match r {
                    ShorthandResult::Found(s) => (direct && s@ == expected_type@) || (!direct && cands == set![s@]),
                    ShorthandResult::Ambiguous(v) => !direct && v@.len() >= 2 && sorted_unique(str_views(v@))
                        && str_views(v@).to_set() == cands,
                    ShorthandResult::NotFound => !direct && cands == Set::<Seq<char>>::empty(),
                }
            }),
    {
        proof {
            use_type_invariant(self);
        }
        match self.get(expected_type) {
            Some(entry) => {
                if entry_has_variant(entry, variant) {
                    return ShorthandResult::Found(expected_type);
                }
            },
            None => {},
        }
        let ghost rows = self.options@;
        let ghost cands = shorthand_candidates(self@, variant@);
        let mut found: Vec<&'a str> = Vec::new();
        let mut i: usize = 0;
        proof {
            assert(str_views(found@) =~= Seq::<Seq<char>>::empty());
        }
        while i < self.options.len()
            invariant
                i <= rows.len(),
                rows == self.options@,
                cands == shorthand_candidates(self@, variant@),
                forall|a: int, b: int|
                    0 <= a < rows.len() && 0 <= b < rows.len() && a != b ==> #[trigger] rows[a].0@ != #[trigger] rows[b].0@,
                sorted_unique(str_views(found@)),
                forall|x: Seq<char>|
                    str_views(found@).to_set().contains(x) <==> exists|a: int|
                        0 <= a < i && #[trigger] rows[a].0@ == x && rows[a].1@.variants.contains(variant@),
            decreases rows.len() - i,
        {
            let ghost before = found@;
            if entry_has_variant(&self.options[i].1, variant) {
                insert_sorted_str(&mut found, self.options[i].0.as_str());
            }
            proof {
                assert forall|x: Seq<char>|
                    str_views(found@).to_set().contains(x) <==> exists|a: int|
                        0 <= a < i + 1 && #[trigger] rows[a].0@ == x && rows[a].1@.variants.contains(variant@) by {
                    if x == rows[i as int].0@ && rows[i as int].1@.variants.contains(variant@) {
                        assert(str_views(found@).to_set().contains(x));
                    }
                    if exists|a: int| 0 <= a < i + 1 && #[trigger] rows[a].0@ == x && rows[a].1@.variants.contains(variant@) {
                        let a = choose|a: int| 0 <= a < i + 1 && #[trigger] rows[a].0@ == x && rows[a].1@.variants.contains(variant@);
                        if a < i {
                            assert(str_views(before).to_set().contains(x));
                        }
                    }
                }
            }
            i = i + 1;
        }
        proof {
            assert forall|x: Seq<char>| str_views(found@).to_set().contains(x) <==> cands.contains(x) by {
                if cands.contains(x) {
                    assert(lookup(rows, x) is Some);
                    let j = choose|j: int| 0 <= j < rows.len() && #[trigger] rows[j].0@ == x;
                    lemma_first_exists(rows, x, j);
                    let k = choose|k: int| first_at(rows, x, k);
                    lemma_lookup_at(rows, x, k);
                    assert(rows[k].0@ == x && rows[k].1@.variants.contains(variant@));
                }
                if str_views(found@).to_set().contains(x) {
                    let a = choose|a: int| 0 <= a < rows.len() && #[trigger] rows[a].0@ == x && rows[a].1@.variants.contains(variant@);
                    assert forall|j: int| 0 <= j < a implies #[trigger] rows[j].0@ != x by {
                        assert(rows[j].0@ != rows[a].0@);
                    }
                    assert(first_at(rows, x, a));
                    lemma_lookup_at(rows, x, a);
                }
            }
            assert(str_views(found@).to_set() =~= cands);
        }
        let n = found.len();
        if n == 0 {
            proof {
                assert(cands =~= Set::<Seq<char>>::empty()) by {
                    assert forall|x: Seq<char>| !cands.contains(x) by {
                        if cands.contains(x) {
                            assert(str_views(found@).to_set().contains(x));
                            let k = choose|k: int| 0 <= k < str_views(found@).len() && str_views(found@)[k] == x;
                        }
                    }
                }
            }
            ShorthandResult::NotFound
        } else if n == 1 {
            let s = found[0];
            proof {
                assert(str_views(found@) =~= seq![s@]);
                assert(cands =~= set![s@]) by {
                    assert(seq![s@].to_set() =~= set![s@]) by {
                        assert forall|x: Seq<char>| seq![s@].to_set().contains(x) implies x == s@ by {
                            let k = choose|k: int| 0 <= k < 1 && seq![s@][k] == x;
                        }
                        assert(seq![s@][0] == s@);
                    }
                }
            }
            ShorthandResult::Found(s)
        } else {
            ShorthandResult::Ambiguous(found)
        }
    }
}

/// The first `k` variants of `o` that repeat an earlier variant's name, each reported at
/// its own span.
pub open spec fn duplicate_variant_diags(o: OptionsDecl, k: int) -> Seq<DiagnosticView>
    decreases k,
{
    if k <= 0 {
        Seq::empty()
    } else {
        let prev = duplicate_variant_diags(o, k - 1);
        let v = o.variants@[k - 1];
        if exists|j: int| 0 <= j < k - 1 && #[trigger] o.variants@[j].0@ == v.0@ {
            prev.push(
                error_view(
                    v.1@,
                    "Duplicate variant `"@ + v.0@ + "` in `options "@ + o.name@ + "`."@,
                    "Remove or rename one of the duplicate variants."@,
                    "Each variant in an options type must have a unique name."@,
                ),
            )
        } else {
            prev
        }
    }
}

/// The diagnostic for an options declaration without variants.
pub open spec fn no_variants_diag(o: OptionsDecl) -> DiagnosticView {
    error_view(
        o.span@,
        "`options "@ + o.name@ + "` has no variants."@,
        "Add at least 2 variants: `options Status { active, inactive }`"@,
        "An options type with no variants can never hold a value \u{2014} it's useless. Add at least 2 named variants."@,
    )
}

/// The diagnostic for an options declaration with a single variant.
pub open spec fn one_variant_diag(o: OptionsDecl) -> DiagnosticView {
    error_view(
        o.span@,
        "`options "@ + o.name@ + "` has only 1 variant \u{2014} options types need at least 2."@,
        "Add a second variant, or use a const if you only need one named value:\n`const ACTIVE: int = 0`"@,
        "A single-variant options type has only one possible value and carries no information. It is almost always the wrong tool."@,
    )
}

/// The diagnostic for an options declaration with 256 variants or more.
pub open spec fn too_many_variants_diag(o: OptionsDecl) -> DiagnosticView {
    error_view(
        o.span@,
        "`options "@ + o.name@ + "` has "@ + spec_decimal(o.variants@.len()) + " variants \u{2014} the limit is 255."@,
        "Split into multiple options types, or model as `int` if you need more values."@,
        "256+ variants almost always indicates a design smell. Options types work best for small, finite sets of named states."@,
    )
}

/// The diagnostic for an options type name declared twice.
pub open spec fn already_declared_diag(o: OptionsDecl) -> DiagnosticView {
    error_view(
        o.name_span@,
        "Options type `"@ + o.name@ + "` is already declared."@,
        "Use a different name for this options type."@,
        "Each options type must have a unique name in the module."@,
    )
}

/// The entry a valid declaration registers.
pub open spec fn declared_entry(o: OptionsDecl) -> OptionsEntryView {
    OptionsEntryView { variants: o.variants@.map_values(|p: (String, SourceSpan)| p.0@), decl_span: o.span@ }
}

/// One declaration's effect on the table and the diagnostics: an empty, single-variant or
/// oversized body, duplicate variants, or a name already registered is reported and
/// registers nothing; anything else is registered.
pub open spec fn options_step(
    acc: (Map<Seq<char>, OptionsEntryView>, Seq<DiagnosticView>),
    o: OptionsDecl,
) -> (Map<Seq<char>, OptionsEntryView>, Seq<DiagnosticView>) {
    let (m, ds) = acc;
    let n = o.variants@.len();
    if n == 0 {
        (m, ds.push(no_variants_diag(o)))
    } else if n == 1 {
        (m, ds.push(one_variant_diag(o)))
    } else if n >= 256 {
        (m, ds.push(too_many_variants_diag(o)))
    } else if duplicate_variant_diags(o, n as int).len() > 0 {
        (m, ds + duplicate_variant_diags(o, n as int))
    } else if m.contains_key(o.name@) {
        (m, ds.push(already_declared_diag(o)))
    } else {
        (m.insert(o.name@, declared_entry(o)), ds)
    }
}

/// The table and diagnostics after the options declarations among `items`, in order,
/// starting from the built-ins and the diagnostics `ds`.
pub open spec fn options_fold(items: Seq<Item>, ds: Seq<DiagnosticView>) -> (
    Map<Seq<char>, OptionsEntryView>,
    Seq<DiagnosticView>,
)
    decreases items.len(),
{
    if items.len() == 0 {
        (builtin_options(), ds)
    } else {
        let acc = options_fold(items.drop_last(), ds);
        match items.last() {
            Item::OptionsDecl(o) => options_step(acc, o),
            _ => acc,
        }
    }
}

fn report(diags: &mut Vec<Diagnostic>, span: &SourceSpan, what: String, instead: &str, why: &str)
    ensures
        diag_views(final(diags)@) == diag_views(old(diags)@).push(error_view(span@, what@, instead@, why@)),
{
    let d = Diagnostic::error(span.duplicate(), what, lit(instead), lit(why));
    diags.push(d);
    proof {
        assert(diag_views(diags@) =~= diag_views(old(diags)@).push(error_view(span@, what@, instead@, why@)));
    }
}

fn options_message(prefix: &str, name: &str, suffix: &str) -> (r: String)
    ensures
        r@ == prefix@ + name@ + suffix@,
{
    let mut m = lit(prefix);
    m.append(name);
    m.append(suffix);
    m
}

/// Report each variant of `o` that repeats an earlier name; true when any did.
fn report_duplicate_variants(o: &OptionsDecl, diags: &mut Vec<Diagnostic>) -> (found: bool)
    ensures
        diag_views(final(diags)@) == diag_views(old(diags)@) + duplicate_variant_diags(*o, o.variants@.len() as int),
        found == (duplicate_variant_diags(*o, o.variants@.len() as int).len() > 0),
{
    let ghost d0 = diag_views(diags@);
    let start = diags.len();
    let mut k: usize = 0;
    proof {
        assert(d0 + duplicate_variant_diags(*o, 0) =~= d0);
    }
    while k < o.variants.len()
        invariant
            k <= o.variants@.len(),
            diag_views(diags@) == d0 + duplicate_variant_diags(*o, k as int),
            d0 == diag_views(old(diags)@),
            start == d0.len(),
        decreases o.variants@.len() - k,
    {
        let mut j: usize = 0;
        let mut dup = false;
        while j < k
            invariant
                j <= k,
                k < o.variants@.len(),
                !dup ==> forall|q: int| 0 <= q < j ==> o.variants@[q].0@ != o.variants@[k as int].0@,
                dup ==> exists|q: int| 0 <= q < k && #[trigger] o.variants@[q].0@ == o.variants@[k as int].0@,
            decreases k - j,
        {
            if str_eq(o.variants[j].0.as_str(), o.variants[k].0.as_str()) {
                dup = true;
            }
            j = j + 1;
        }
        if dup {
            let mut what = lit("Duplicate variant `");
            what.append(o.variants[k].0.as_str());
            what.append("` in `options ");
            what.append(o.name.as_str());
            what.append("`.");
            report(
                diags,
                &o.variants[k].1,
                what,
                "Remove or rename one of the duplicate variants.",
                "Each variant in an options type must have a unique name.",
            );
        }
        proof {
            let v = o.variants@[k as int];
            assert(v == o.variants@[(k + 1) - 1]);
            if !dup {
                assert(!exists|q: int| 0 <= q < k && #[trigger] o.variants@[q].0@ == v.0@);
            }
            assert(diag_views(diags@) =~= d0 + duplicate_variant_diags(*o, k + 1));
        }
        k = k + 1;
    }
    proof {
        let s = duplicate_variant_diags(*o, o.variants@.len() as int);
        assert(s.len() == diag_views(diags@).len() - d0.len());
    }
    diags.len() > start
}

/// Collect the module's `options` declarations into a table over the built-ins,
/// reporting each declaration that is empty, has a single variant, has 256 or more,
/// repeats a variant, or reuses a registered name.
pub fn collect_options(module: &Module, diags: &mut Vec<Diagnostic>) -> (t: OptionsTable)
    ensures
        (t@, diag_views(final(diags)@)) == options_fold(module.items@, diag_views(old(diags)@)),
{
    let ghost d0 = diag_views(diags@);
    let mut table = OptionsTable::with_builtins();
    let mut i: usize = 0;
    while i < module.items.len()
        invariant
            i <= module.items@.len(),
            d0 == diag_views(old(diags)@),
            (table@, diag_views(diags@)) == options_fold(module.items@.take(i as int), d0),
        decreases module.items@.len() - i,
    {
        proof {
            assert(module.items@.take(i + 1).drop_last() =~= module.items@.take(i as int));
            assert(module.items@.take(i + 1).last() == module.items@[i as int]);
        }
        match &module.items[i] {
            Item::OptionsDecl(o) => {
                let n = o.variants.len();
                if n == 0 {
                    report(
                        diags,
                        &o.span,
                        options_message("`options ", o.name.as_str(), "` has no variants."),
                        "Add at least 2 variants: `options Status { active, inactive }`",
                        "An options type with no variants can never hold a value \u{2014} it's useless. Add at least 2 named variants.",
                    );
                } else if n == 1 {
                    report(
                        diags,
                        &o.span,
                        options_message("`options ", o.name.as_str(), "` has only 1 variant \u{2014} options types need at least 2."),
                        "Add a second variant, or use a const if you only need one named value:\n`const ACTIVE: int = 0`",
                        "A single-variant options type has only one possible value and carries no information. It is almost always the wrong tool.",
                    );
                } else if n >= 256 {
                    let mut what = lit("`options ");
                    what.append(o.name.as_str());
                    what.append("` has ");
                    what.append(decimal_string(n as u64).as_str());
                    what.append(" variants \u{2014} the limit is 255.");
                    report(
                        diags,
                        &o.span,
                        what,
                        "Split into multiple options types, or model as `int` if you need more values.",
                        "256+ variants almost always indicates a design smell. Options types work best for small, finite sets of named states.",
                    );
                } else if report_duplicate_variants(o, diags) {
                } else if table.contains(o.name.as_str()) {
                    report(
                        diags,
                        &o.name_span,
                        options_message("Options type `", o.name.as_str(), "` is already declared."),
                        "Use a different name for this options type.",
                        "Each options type must have a unique name in the module.",
                    );
                } else {
                    let mut variants: Vec<String> = Vec::new();
                    let mut k: usize = 0;
                    while k < o.variants.len()
                        invariant
                            k <= o.variants@.len(),
                            string_views(variants@) =~= o.variants@.take(k as int).map_values(|p: (String, SourceSpan)| p.0@),
                        decreases o.variants@.len() - k,
                    {
                        let ghost before = variants@;
                        variants.push(o.variants[k].0.clone());
                        proof {
                            assert(o.variants@.take(k + 1) =~= o.variants@.take(k as int).push(o.variants@[k as int]));
                            assert(string_views(variants@) =~= string_views(before).push(o.variants@[k as int].0@));
                            assert(o.variants@.take(k + 1).map_values(|p: (String, SourceSpan)| p.0@) =~= o.variants@.take(
                                k as int,
                            ).map_values(|p: (String, SourceSpan)| p.0@).push(o.variants@[k as int].0@));
                        }
                        k = k + 1;
                    }
                    proof {
                        assert(o.variants@.take(o.variants@.len() as int) =~= o.variants@);
                    }
                    table.insert(o.name.clone(), OptionsEntry { variants, decl_span: o.span.duplicate() });
                }
            },
            _ => {},
        }
        i = i + 1;
    }
    proof {
        assert(module.items@.take(module.items@.len() as int) =~= module.items@);
    }
    table
}

} // verus!
