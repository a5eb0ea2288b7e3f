//! The passes that finish a shape table once every declaration is resolved: `extends`
//! cycles reported, inherited fields prepended, direct field cycles reported, and union
//! aliases resolved; and `collect_shapes`, which runs the whole collection.
use vstd::prelude::*;

use crate::diagnostics::{diag_views, error_view, Diagnostic, DiagnosticView, SpanView};
use crate::call_graph::{index_names, on_cycle};
use crate::names::{first_at, lemma_first_exists, lemma_lookup_at, lookup, no_duplicates, NameSet};
use crate::types::{Type, TypeView};
use crate::options_table::OptionsEntry;
use crate::shape_collection::{
    anon_names, anon_views, collect_options_names, collect_synthetic_shapes, contains_string, declared_diags,
    declared_view, make_name_table, options_names_of, push_diag, resolve_declared_shape, resolve_synthetic_shape,
    shape_names_fold, shape_names_pass, synthetic_diags, synthetic_shapes, synthetic_view, Anon, AnonView,
};
use crate::shapes::spec_resolve_in;
use crate::syntax::Module;
use crate::shapes::{field_views, table_ctx, FieldDef, FieldView, ResolveCtx, ShapeDef, ShapeTable, ShapeView};
use crate::syntax::Item;
use crate::text::{join_with, lit, spec_join_with, str_eq, string_views};

verus! {

/// The models of named rows: each name with the model of its value.
pub open spec fn row_views<T: View>(rows: Seq<(String, T)>) -> Seq<(Seq<char>, T::V)> {
    rows.map_values(|r: (String, T)| (r.0@, r.1@))
}

/// The position of the first row named `n`, or -1 when no row is.
pub open spec fn row_index<V>(vs: Seq<(Seq<char>, V)>, n: Seq<char>) -> int {
    if exists|i: int| 0 <= i < vs.len() && #[trigger] vs[i].0 == n {
        choose|i: int| 0 <= i < vs.len() && vs[i].0 == n && forall|j: int| 0 <= j < i ==> #[trigger] vs[j].0 != n
    } else {
        -1
    }
}

/// The names that rows carry.
pub open spec fn row_names<V>(vs: Seq<(Seq<char>, V)>) -> Set<Seq<char>> {
    Set::new(|n: Seq<char>| row_index(vs, n) >= 0)
}

/// Each name with the value of its first row.
pub open spec fn row_map<V>(vs: Seq<(Seq<char>, V)>) -> Map<Seq<char>, V> {
    Map::new(|n: Seq<char>| row_index(vs, n) >= 0, |n: Seq<char>| vs[row_index(vs, n)].1)
}

/// Rows after setting `n` to `v`: the first row named `n` replaced, or a new row appended.
pub open spec fn put_view<V>(vs: Seq<(Seq<char>, V)>, n: Seq<char>, v: V) -> Seq<(Seq<char>, V)> {
    let k = row_index(vs, n);
    if k >= 0 {
        vs.update(k, (n, v))
    } else {
        vs.push((n, v))
    }
}

/// The first row named `n` is at `k`.
pub open spec fn first_in<V>(vs: Seq<(Seq<char>, V)>, n: Seq<char>, k: int) -> bool {
    0 <= k < vs.len() && vs[k].0 == n && forall|j: int| 0 <= j < k ==> #[trigger] vs[j].0 != n
}

proof fn lemma_row_index_first<V>(vs: Seq<(Seq<char>, V)>, n: Seq<char>, k: int)
    requires
        first_in(vs, n, k),
    ensures
        row_index(vs, n) == k,
{
    let k2 = choose|i: int| 0 <= i < vs.len() && vs[i].0 == n && forall|j: int| 0 <= j < i ==> #[trigger] vs[j].0 != n;
    assert(first_in(vs, n, k2));
    if k2 < k {
        assert(vs[k2].0 != n);
    }
    if k < k2 {
        assert(vs[k].0 != n);
    }
}

/// The row index is -1 exactly when no row carries the name, and otherwise the first row
/// that does.
pub proof fn lemma_row_index<V>(vs: Seq<(Seq<char>, V)>, n: Seq<char>)
    ensures
        row_index(vs, n) >= 0 <==> exists|i: int| 0 <= i < vs.len() && #[trigger] vs[i].0 == n,
        row_index(vs, n) >= 0 ==> first_in(vs, n, row_index(vs, n)),
        row_index(vs, n) >= -1,
{
    if exists|i: int| 0 <= i < vs.len() && #[trigger] vs[i].0 == n {
        let i = choose|i: int| 0 <= i < vs.len() && #[trigger] vs[i].0 == n;
        lemma_first_in_exists(vs, n, i);
        let k = choose|k: int| first_in(vs, n, k);
        lemma_row_index_first(vs, n, k);
    }
}

proof fn lemma_first_in_exists<V>(vs: Seq<(Seq<char>, V)>, n: Seq<char>, i: int)
    requires
        0 <= i < vs.len(),
        vs[i].0 == n,
    ensures
        exists|k: int| first_in(vs, n, k),
    decreases i,
{
    if exists|j: int| 0 <= j < i && #[trigger] vs[j].0 == n {
        let j = choose|j: int| 0 <= j < i && #[trigger] vs[j].0 == n;
        lemma_first_in_exists(vs, n, j);
    } else {
        assert(first_in(vs, n, i));
    }
}

/// The first row named `name`, found by a scan.
pub fn row_position<T: View>(rows: &Vec<(String, T)>, name: &str) -> (r: Option<usize>)
    ensures
        match r {
            Some(i) => i < rows@.len() && row_index(row_views(rows@), name@) == i as int,
            None => row_index(row_views(rows@), name@) == -1,
        },
{
    let ghost vs = row_views(rows@);
    let mut i: usize = 0;
    while i < rows.len()
        invariant
            i <= rows@.len(),
            vs == row_views(rows@),
            forall|j: int| 0 <= j < i ==> #[trigger] vs[j].0 != name@,
        decreases rows@.len() - i,
    {
        if str_eq(rows[i].0.as_str(), name) {
            proof {
                assert(first_in(vs, name@, i as int));
                lemma_row_index_first(vs, name@, i as int);
            }
            return Some(i);
        }
        i = i + 1;
    }
    proof {
        lemma_row_index(vs, name@);
        if row_index(vs, name@) >= 0 {
            let k = row_index(vs, name@);
            assert(vs[k].0 != name@);
        }
    }
    None
}

/// Set the row named `name` to `value`: the first such row is replaced, or a row appended.
pub fn put_row<T: View>(rows: &mut Vec<(String, T)>, name: String, value: T)
    ensures
        row_views(final(rows)@) == put_view(row_views(old(rows)@), name@, value@),
{
    let ghost vs = row_views(rows@);
    let pos = row_position(rows, name.as_str());
    let ghost n = name@;
    let ghost v = value@;
    match pos {
        Some(i) => {
            rows.set(i, (name, value));
            proof {
                assert(row_views(rows@) =~= vs.update(i as int, (n, v)));
            }
        },
        None => {
            rows.push((name, value));
            proof {
                assert(row_views(rows@) =~= vs.push((n, v)));
            }
        },
    }
}

/// The first-row lookup of the rows agrees with their models.
pub proof fn lemma_lookup_views<T: View>(rows: Seq<(String, T)>, n: Seq<char>)
    ensures
        (lookup(rows, n) is Some) == (row_index(row_views(rows), n) >= 0),
        lookup(rows, n) is Some ==> lookup(rows, n)->0@ == row_views(rows)[row_index(row_views(rows), n)].1,
{
    let vs = row_views(rows);
    lemma_row_index(vs, n);
    if exists|i: int| 0 <= i < rows.len() && #[trigger] rows[i].0@ == n {
        let i = choose|i: int| 0 <= i < rows.len() && #[trigger] rows[i].0@ == n;
        lemma_first_exists(rows, n, i);
        let k = choose|k: int| first_at(rows, n, k);
        lemma_lookup_at(rows, n, k);
        assert(first_in(vs, n, k)) by {
            assert forall|j: int| 0 <= j < k implies #[trigger] vs[j].0 != n by {
                assert(rows[j].0@ != n);
            }
        }
        lemma_row_index_first(vs, n, k);
    } else {
        if row_index(vs, n) >= 0 {
            let k = row_index(vs, n);
            assert(rows[k].0@ == n);
        }
    }
}

/// What type resolution reads of the rows of a table.
pub open spec fn ctx_of(
    shapes: Seq<(Seq<char>, crate::shapes::ShapeView)>,
    aliases: Seq<(Seq<char>, crate::types::TypeView)>,
    options: Set<Seq<char>>,
) -> ResolveCtx {
    ResolveCtx { shapes: row_names(shapes), aliases: row_map(aliases), options }
}

/// The resolution context of a table is read off the models of its rows.
pub proof fn lemma_table_ctx(t: ShapeTable)
    ensures
        table_ctx(t) == ctx_of(row_views(t.shapes@), row_views(t.union_aliases@), t.options_names@),
{
    let a = table_ctx(t);
    let b = ctx_of(row_views(t.shapes@), row_views(t.union_aliases@), t.options_names@);
    assert forall|n: Seq<char>| a.shapes.contains(n) <==> b.shapes.contains(n) by {
        lemma_lookup_views(t.shapes@, n);
    }
    assert(a.shapes =~= b.shapes);
    assert forall|n: Seq<char>| #[trigger] a.aliases.dom().contains(n) <==> b.aliases.dom().contains(n) by {
        lemma_lookup_views(t.union_aliases@, n);
    }
    assert forall|n: Seq<char>| #[trigger] a.aliases.dom().contains(n) implies a.aliases[n] == b.aliases[n] by {
        lemma_lookup_views(t.union_aliases@, n);
    }
    assert(a.aliases =~= b.aliases);
}

/// Rows after setting each of `adds` in turn.
pub open spec fn put_all<V>(vs: Seq<(Seq<char>, V)>, adds: Seq<(Seq<char>, V)>) -> Seq<(Seq<char>, V)>
    decreases adds.len(),
{
    if adds.len() == 0 {
        vs
    } else {
        put_view(put_all(vs, adds.drop_last()), adds.last().0, adds.last().1)
    }
}

/// The rows the synthetic shapes define.
pub open spec fn synthetic_rows(av: Seq<AnonView>, c: ResolveCtx) -> Seq<(Seq<char>, ShapeView)> {
    av.map_values(|a: AnonView| (a.0, synthetic_view(a, c)))
}

/// The diagnostics of the synthetic shapes, in order.
pub open spec fn synthetic_all_diags(av: Seq<AnonView>, c: ResolveCtx) -> Seq<DiagnosticView>
    decreases av.len(),
{
    if av.len() == 0 {
        Seq::empty()
    } else {
        synthetic_all_diags(av.drop_last(), c) + synthetic_diags(av.last().1, c)
    }
}

/// The rows the shape declarations named in `names` define, in order (an alias
/// declaration only when another shape took its name).
pub open spec fn declared_rows(items: Seq<Item>, names: Set<Seq<char>>, c: ResolveCtx) -> Seq<(Seq<char>, ShapeView)>
    decreases items.len(),
{
    if items.len() == 0 {
        Seq::empty()
    } else {
        let r = declared_rows(items.drop_last(), names, c);
        match items.last() {
            Item::ShapeDecl(s) => if names.contains(s.name@) {
                r.push((s.name@, declared_view(s, c)))
            } else {
                r
            },
            _ => r,
        }
    }
}

/// The diagnostics of those declarations, in order.
pub open spec fn declared_all_diags(items: Seq<Item>, names: Set<Seq<char>>, c: ResolveCtx) -> Seq<DiagnosticView>
    decreases items.len(),
{
    if items.len() == 0 {
        Seq::empty()
    } else {
        let r = declared_all_diags(items.drop_last(), names, c);
        match items.last() {
            Item::ShapeDecl(s) => if names.contains(s.name@) {
                r + declared_diags(s, names, c)
            } else {
                r
            },
            _ => r,
        }
    }
}

/// Seed the rows with the imported shapes, each set in turn.
fn seed_imported(rows: &mut Vec<(String, ShapeDef)>, imported: &Vec<(String, ShapeDef)>)
    ensures
        row_views(final(rows)@) == put_all(row_views(old(rows)@), row_views(imported@)),
{
    let ghost base = row_views(rows@);
    let ghost iv = row_views(imported@);
    let mut i: usize = 0;
    proof {
        assert(iv.take(0) =~= Seq::<(Seq<char>, ShapeView)>::empty());
    }
    while i < imported.len()
        invariant
            i <= imported@.len(),
            iv == row_views(imported@),
            row_views(rows@) == put_all(base, iv.take(i as int)),
        decreases imported@.len() - i,
    {
        proof {
            assert(iv.take(i + 1).drop_last() =~= iv.take(i as int));
        }
        put_row(rows, imported[i].0.clone(), imported[i].1.duplicate());
        i = i + 1;
    }
    proof {
        assert(iv.take(imported@.len() as int) =~= iv);
    }
}

/// Resolve and set each synthetic shape.
fn put_synthetic(
    rows: &mut Vec<(String, ShapeDef)>,
    syn: &Vec<Anon>,
    name_table: &ShapeTable,
    diags: &mut Vec<Diagnostic>,
)
    ensures
        row_views(final(rows)@) == put_all(
            row_views(old(rows)@),
            synthetic_rows(anon_views(syn@), table_ctx(*name_table)),
        ),
        diag_views(final(diags)@) == diag_views(old(diags)@) + synthetic_all_diags(
            anon_views(syn@),
            table_ctx(*name_table),
        ),
{
    let ghost c = table_ctx(*name_table);
    let ghost av = anon_views(syn@);
    let ghost base = row_views(rows@);
    let ghost d0 = diag_views(diags@);
    let mut k: usize = 0;
    proof {
        assert(av.take(0) =~= Seq::<AnonView>::empty());
        assert(synthetic_rows(av.take(0), c) =~= Seq::<(Seq<char>, ShapeView)>::empty());
        assert(diag_views(diags@) =~= d0 + synthetic_all_diags(av.take(0), c));
    }
    while k < syn.len()
        invariant
            k <= syn@.len(),
            av == anon_views(syn@),
            c == table_ctx(*name_table),
            row_views(rows@) == put_all(base, synthetic_rows(av.take(k as int), c)),
            diag_views(diags@) == d0 + synthetic_all_diags(av.take(k as int), c),
        decreases syn@.len() - k,
    {
        let d = resolve_synthetic_shape(&syn[k], name_table, diags);
        put_row(rows, syn[k].0.clone(), d);
        proof {
            let t = av.take(k + 1);
            assert(t.drop_last() =~= av.take(k as int));
            assert(synthetic_rows(t, c).drop_last() =~= synthetic_rows(av.take(k as int), c));
            assert(t.last() == (syn@[k as int].0@, syn@[k as int].1@, syn@[k as int].2@));
            assert(diag_views(diags@) =~= d0 + synthetic_all_diags(t, c));
        }
        k = k + 1;
    }
    proof {
        assert(av.take(syn@.len() as int) =~= av);
    }
}

/// Resolve and set each shape declaration whose name is in `names`.
fn put_declared(
    rows: &mut Vec<(String, ShapeDef)>,
    items: &Vec<Item>,
    names: &NameSet,
    name_table: &ShapeTable,
    diags: &mut Vec<Diagnostic>,
)
    ensures
        row_views(final(rows)@) == put_all(
            row_views(old(rows)@),
            declared_rows(items@, names@, table_ctx(*name_table)),
        ),
        diag_views(final(diags)@) == diag_views(old(diags)@) + declared_all_diags(
            items@,
            names@,
            table_ctx(*name_table),
        ),
{
    let ghost c = table_ctx(*name_table);
    let ghost base = row_views(rows@);
    let ghost d0 = diag_views(diags@);
    let mut i: usize = 0;
    proof {
        assert(items@.take(0) =~= Seq::<Item>::empty());
        assert(diag_views(diags@) =~= d0 + declared_all_diags(items@.take(0), names@, c));
    }
    while i < items.len()
        invariant
            i <= items@.len(),
            c == table_ctx(*name_table),
            row_views(rows@) == put_all(base, declared_rows(items@.take(i as int), names@, c)),
            diag_views(diags@) == d0 + declared_all_diags(items@.take(i as int), names@, c),
        decreases items@.len() - i,
    {
        proof {
            assert(items@.take(i + 1).drop_last() =~= items@.take(i as int));
            assert(items@.take(i + 1).last() == items@[i as int]);
        }
        match &items[i] {
            Item::ShapeDecl(s) => {
                if names.contains(s.name.as_str()) {
                    let d = resolve_declared_shape(s, names, name_table, diags);
                    put_row(rows, s.name.clone(), d);
                    proof {
                        let r = declared_rows(items@.take(i as int), names@, c);
                        assert(declared_rows(items@.take(i + 1), names@, c) == r.push((s.name@, declared_view(*s, c))));
                        assert(r.push((s.name@, declared_view(*s, c))).drop_last() =~= r);
                        assert(diag_views(diags@) =~= d0 + declared_all_diags(items@.take(i + 1), names@, c));
                    }
                }
            },
            _ => {},
        }
        i = i + 1;
    }
    proof {
        assert(items@.take(items@.len() as int) =~= items@);
    }
}

/// The value of the first row named `n`.
pub open spec fn row_get<V>(vs: Seq<(Seq<char>, V)>, n: Seq<char>) -> Option<V> {
    if row_index(vs, n) >= 0 {
        Some(vs[row_index(vs, n)].1)
    } else {
        None
    }
}

/// Following `extends` from the last name of `chain` for at most `fuel` steps: the chain
/// walked and the parent that is already on it, when the walk meets one. The walk stops
/// at a name without a shape or a shape without a parent.
#[verifier::opaque]
pub open spec fn extends_cycle_from(
    vs: Seq<(Seq<char>, ShapeView)>,
    chain: Seq<Seq<char>>,
    fuel: nat,
) -> Option<(Seq<Seq<char>>, Seq<char>)>
    decreases fuel,
{
    if fuel == 0 {
        None
    } else {
        match row_get(vs, chain.last()) {
            None => None,
            Some(d) => match d.extends {
                None => None,
                Some(p) => if chain.contains(p) {
                    Some((chain, p))
                } else {
                    extends_cycle_from(vs, chain.push(p), (fuel - 1) as nat)
                },
            },
        }
    }
}

/// The diagnostic for a shape whose `extends` chain comes back to a shape on it.
pub open spec fn extends_cycle_diag(
    n: Seq<char>,
    at: SpanView,
    chain: Seq<Seq<char>>,
    parent: Seq<char>,
) -> DiagnosticView {
    error_view(
        at,
        "`"@ + n + "` has a cyclic `extends` chain: "@ + spec_join_with(chain, " \u{2192} "@) + " \u{2192} "@ + parent,
        "Break the cycle by removing one of the `extends` declarations."@,
        "`extends` is for data inheritance \u{2014} a shape cannot inherit from itself, directly or through a chain."@,
    )
}

/// The cyclic-`extends` diagnostics of the first `k` rows, one for each row whose chain
/// (followed for at most as many steps as there are rows) comes back to a shape on it.
pub open spec fn extends_cycle_diags(vs: Seq<(Seq<char>, ShapeView)>, k: int) -> Seq<DiagnosticView>
    decreases k,
{
    if k <= 0 {
        Seq::empty()
    } else {
        let prev = extends_cycle_diags(vs, k - 1);
        match extends_cycle_from(vs, seq![vs[k - 1].0], vs.len()) {
            Some(found) => prev.push(extends_cycle_diag(vs[k - 1].0, vs[k - 1].1.defined_at, found.0, found.1)),
            None => prev,
        }
    }
}

fn walk_extends(rows: &Vec<(String, ShapeDef)>, chain: &mut Vec<String>, fuel: usize) -> (r: Option<String>)
    requires
        old(chain)@.len() >= 1,
    ensures
        match r {
            Some(p) => extends_cycle_from(row_views(rows@), string_views(old(chain)@), fuel as nat) == Some(
                (string_views(final(chain)@), p@),
            ),
            None => extends_cycle_from(row_views(rows@), string_views(old(chain)@), fuel as nat) is None,
        },
    decreases fuel,
{
    let ghost vs = row_views(rows@);
    let ghost c0 = string_views(chain@);
    proof {
        reveal(extends_cycle_from);
    }
    if fuel == 0 {
        return None;
    }
    let last = chain.len() - 1;
    proof {
        assert(c0.last() == chain@[last as int]@);
    }
    match row_position(rows, chain[last].as_str()) {
        None => None,
        Some(i) => {
            proof {
                assert(row_get(vs, c0.last()) == Some(rows@[i as int].1@));
            }
            match &rows[i].1.extends {
                None => None,
                Some(p) => {
                    if contains_string(chain, p.as_str()) {
                        Some(p.clone())
                    } else {
                        chain.push(p.clone());
                        proof {
                            assert(string_views(chain@) =~= c0.push(p@));
                        }
                        walk_extends(rows, chain, fuel - 1)
                    }
                },
            }
        },
    }
}

fn extends_cycle_message(name: &String, chain: &Vec<String>, p: &String) -> (r: String)
    ensures
        r@ == "`"@ + name@ + "` has a cyclic `extends` chain: "@ + spec_join_with(string_views(chain@), " \u{2192} "@)
            + " \u{2192} "@ + p@,
{
    let mut what = lit("`");
    what.append(name.as_str());
    what.append("` has a cyclic `extends` chain: ");
    let joined = join_with(chain, " \u{2192} ");
    what.append(joined.as_str());
    what.append(" \u{2192} ");
    what.append(p.as_str());
    proof {
        reveal_strlit("`");
    }
    what
}

/// Report each shape whose `extends` chain comes back to a shape already on it.
#[verifier::spinoff_prover]
fn detect_extends_cycles(rows: &Vec<(String, ShapeDef)>, diags: &mut Vec<Diagnostic>)
    ensures
        diag_views(final(diags)@) == diag_views(old(diags)@) + extends_cycle_diags(row_views(rows@), rows@.len() as int),
{
    let ghost vs = row_views(rows@);
    let ghost d0 = diag_views(diags@);
    let mut i: usize = 0;
    proof {
        assert(diag_views(diags@) =~= d0 + extends_cycle_diags(vs, 0));
    }
    while i < rows.len()
        invariant
            i <= rows@.len(),
            vs == row_views(rows@),
            diag_views(diags@) == d0 + extends_cycle_diags(vs, i as int),
        decreases rows@.len() - i,
    {
        let name = &rows[i].0;
        let mut chain: Vec<String> = Vec::new();
        chain.push(name.clone());
        proof {
            assert(string_views(chain@) =~= seq![vs[i as int].0]);
        }
        let found = walk_extends(rows, &mut chain, rows.len());
        proof {
            assert(rows@.len() as nat == vs.len());
        }
        match found {
            Some(p) => {
                let what = extends_cycle_message(name, &chain, &p);
                push_diag(
                    diags,
                    &rows[i].1.defined_at,
                    what,
                    lit("Break the cycle by removing one of the `extends` declarations."),
                    lit(
                        "`extends` is for data inheritance \u{2014} a shape cannot inherit from itself, directly or through a chain.",
                    ),
                );
                proof {
                    let dv = extends_cycle_diag(vs[i as int].0, vs[i as int].1.defined_at, string_views(chain@), p@);
                    assert(vs[i as int].1.defined_at == rows@[i as int].1.defined_at@);
                    assert(extends_cycle_diags(vs, i + 1) == extends_cycle_diags(vs, i as int).push(dv));
                    assert(diag_views(diags@) =~= d0 + extends_cycle_diags(vs, i + 1));
                }
            },
            None => {
                proof {
                    assert(extends_cycle_diags(vs, i + 1) == extends_cycle_diags(vs, i as int));
                }
            },
        }
        i = i + 1;
    }
}

/// One of the fields is named `n`.
pub open spec fn own_has(own: Seq<FieldView>, n: Seq<char>) -> bool {
    exists|i: int| 0 <= i < own.len() && #[trigger] own[i].name == n
}

/// A parent's field as the child holds it.
pub open spec fn as_inherited(f: FieldView) -> FieldView {
    FieldView { is_inherited: true, ..f }
}

/// The parent's fields `pf` that the child's own fields `own` do not override, marked
/// inherited, in order.
pub open spec fn inherit(pf: Seq<FieldView>, own: Seq<FieldView>) -> Seq<FieldView>
    decreases pf.len(),
{
    if pf.len() == 0 {
        Seq::empty()
    } else {
        let r = inherit(pf.drop_last(), own);
        if own_has(own, pf.last().name) {
            r
        } else {
            r.push(as_inherited(pf.last()))
        }
    }
}

/// The full field list of a shape: the fields it inherits through `extends` (followed for
/// at most `fuel` parents), then its own.
pub open spec fn flat_fields(vs: Seq<(Seq<char>, ShapeView)>, d: ShapeView, fuel: nat) -> Seq<FieldView>
    decreases fuel,
{
    if fuel == 0 {
        d.fields
    } else {
        match d.extends {
            Some(p) => match row_get(vs, p) {
                Some(pd) => inherit(flat_fields(vs, pd, (fuel - 1) as nat), d.fields) + d.fields,
                None => d.fields,
            },
            None => d.fields,
        }
    }
}

/// The rows with each shape's inherited fields prepended (parents followed for at most as
/// many steps as there are rows).
pub open spec fn flattened(vs: Seq<(Seq<char>, ShapeView)>) -> Seq<(Seq<char>, ShapeView)> {
    vs.map_values(|r: (Seq<char>, ShapeView)| (r.0, ShapeView { fields: flat_fields(vs, r.1, vs.len()), ..r.1 }))
}

fn field_named(fs: &Vec<FieldDef>, n: &str) -> (b: bool)
    ensures
        b == own_has(field_views(fs@), n@),
{
    let mut i: usize = 0;
    while i < fs.len()
        invariant
            i <= fs@.len(),
            forall|j: int| 0 <= j < i ==> #[trigger] fs@[j].name@ != n@,
        decreases fs@.len() - i,
    {
        if str_eq(fs[i].name.as_str(), n) {
            proof {
                assert(field_views(fs@)[i as int].name == n@);
            }
            return true;
        }
        i = i + 1;
    }
    proof {
        if own_has(field_views(fs@), n@) {
            let k = choose|k: int| 0 <= k < fs@.len() && #[trigger] field_views(fs@)[k].name == n@;
            assert(fs@[k].name@ != n@);
        }
    }
    false
}

fn dup_fields(fs: &Vec<FieldDef>) -> (r: Vec<FieldDef>)
    ensures
        field_views(r@) == field_views(fs@),
{
    let mut r: Vec<FieldDef> = Vec::new();
    let mut i: usize = 0;
    while i < fs.len()
        invariant
            i <= fs@.len(),
            r@.len() == i,
            forall|j: int| 0 <= j < i ==> (#[trigger] r@[j])@ == fs@[j]@,
        decreases fs@.len() - i,
    {
        r.push(fs[i].duplicate());
        i = i + 1;
    }
    proof {
        assert(field_views(r@) =~= field_views(fs@));
    }
    r
}

fn inherit_fields(pf: &Vec<FieldDef>, own: &Vec<FieldDef>) -> (r: Vec<FieldDef>)
    ensures
        field_views(r@) == inherit(field_views(pf@), field_views(own@)),
{
    let ghost pv = field_views(pf@);
    let ghost ov = field_views(own@);
    let mut r: Vec<FieldDef> = Vec::new();
    let mut i: usize = 0;
    proof {
        assert(pv.take(0) =~= Seq::<FieldView>::empty());
        assert(field_views(r@) =~= inherit(pv.take(0), ov));
    }
    while i < pf.len()
        invariant
            i <= pf@.len(),
            pv == field_views(pf@),
            ov == field_views(own@),
            field_views(r@) == inherit(pv.take(i as int), ov),
        decreases pf@.len() - i,
    {
        let ghost before = field_views(r@);
        proof {
            assert(pv.take(i + 1).drop_last() =~= pv.take(i as int));
            assert(pv.take(i + 1).last() == pf@[i as int]@);
        }
        if !field_named(own, pf[i].name.as_str()) {
            let f = &pf[i];
            r.push(
                FieldDef {
                    name: f.name.clone(),
                    ty: f.ty.duplicate(),
                    is_hidden: f.is_hidden,
                    is_inherited: true,
                    defined_at: f.defined_at.duplicate(),
                },
            );
            proof {
                assert(field_views(r@) =~= before.push(as_inherited(pf@[i as int]@)));
            }
        }
        i = i + 1;
    }
    proof {
        assert(pv.take(pf@.len() as int) =~= pv);
    }
    r
}

fn flat_fields_of(rows: &Vec<(String, ShapeDef)>, idx: usize, fuel: usize) -> (r: Vec<FieldDef>)
    requires
        idx < rows@.len(),
    ensures
        field_views(r@) == flat_fields(row_views(rows@), rows@[idx as int].1@, fuel as nat),
    decreases fuel,
{
    let ghost vs = row_views(rows@);
    let d = &rows[idx].1;
    if fuel == 0 {
        return dup_fields(&d.fields);
    }
    match &d.extends {
        None => dup_fields(&d.fields),
        Some(p) => match row_position(rows, p.as_str()) {
            None => dup_fields(&d.fields),
            Some(j) => {
                proof {
                    assert(row_get(vs, p@) == Some(rows@[j as int].1@));
                }
                let pf = flat_fields_of(rows, j, fuel - 1);
                let mut out = inherit_fields(&pf, &d.fields);
                let own = dup_fields(&d.fields);
                let ghost a = field_views(out@);
                let mut k: usize = 0;
                while k < own.len()
                    invariant
                        k <= own@.len(),
                        field_views(out@) == a + field_views(own@).take(k as int),
                    decreases own@.len() - k,
                {
                    let ghost before = field_views(out@);
                    out.push(own[k].duplicate());
                    proof {
                        assert(field_views(out@) =~= before.push(own@[k as int]@));
                        assert(field_views(own@).take(k + 1) =~= field_views(own@).take(k as int).push(own@[k as int]@));
                        assert(field_views(out@) =~= a + field_views(own@).take(k + 1));
                    }
                    k = k + 1;
                }
                proof {
                    assert(field_views(own@).take(own@.len() as int) =~= field_views(own@));
                }
                out
            },
        },
    }
}

fn set_fields(rows: &mut Vec<(String, ShapeDef)>, k: usize, f: Vec<FieldDef>)
    requires
        k < old(rows)@.len(),
    ensures
        final(rows)@.len() == old(rows)@.len(),
        row_views(final(rows)@)[k as int] == (
            old(rows)@[k as int].0@,
            ShapeView { fields: field_views(f@), ..old(rows)@[k as int].1@ },
        ),
        forall|j: int| 0 <= j < old(rows)@.len() && j != k ==> #[trigger] row_views(final(rows)@)[j] == row_views(old(rows)@)[j],
{
    rows[k].1.fields = f;
}

/// Prepend to each shape the fields it inherits.
fn flatten_inherited_fields(rows: &mut Vec<(String, ShapeDef)>)
    ensures
        row_views(final(rows)@) == flattened(row_views(old(rows)@)),
{
    let ghost vs = row_views(rows@);
    let n = rows.len();
    let mut news: Vec<Vec<FieldDef>> = Vec::new();
    let mut i: usize = 0;
    while i < n
        invariant
            i <= n,
            n == rows@.len(),
            vs == row_views(rows@),
            news@.len() == i,
            forall|j: int| 0 <= j < i ==> field_views((#[trigger] news@[j])@) == flat_fields(vs, vs[j].1, vs.len()),
        decreases n - i,
    {
        news.push(flat_fields_of(rows, i, n));
        i = i + 1;
    }
    let mut k: usize = 0;
    while k < n
        invariant
            k <= n,
            n == rows@.len(),
            news@.len() == n,
            vs.len() == n,
            forall|j: int| k <= j < n ==> field_views((#[trigger] news@[j])@) == flat_fields(vs, vs[j].1, vs.len()),
            forall|j: int| 0 <= j < k ==> #[trigger] row_views(rows@)[j] == flattened(vs)[j],
            forall|j: int| k <= j < n ==> #[trigger] row_views(rows@)[j] == vs[j],
        decreases n - k,
    {
        let ghost before = row_views(rows@);
        let ghost before_rows = rows@;
        let mut f: Vec<FieldDef> = Vec::new();
        std::mem::swap(&mut f, &mut news[k]);
        proof {
            assert(field_views(f@) == flat_fields(vs, vs[k as int].1, vs.len()));
        }
        let ghost fv = field_views(f@);
        set_fields(rows, k, f);
        proof {
            assert(before[k as int] == vs[k as int]);
            assert(before[k as int] == (before_rows[k as int].0@, before_rows[k as int].1@));
            assert(flattened(vs)[k as int] == (vs[k as int].0, ShapeView { fields: fv, ..vs[k as int].1 }));
            assert(row_views(rows@)[k as int] == flattened(vs)[k as int]);
            assert forall|j: int| 0 <= j < n && j != k implies #[trigger] row_views(rows@)[j] == before[j] by {}
        }
        k = k + 1;
    }
    proof {
        assert(row_views(rows@) =~= flattened(vs));
    }
}

/// No two rows carry the same name.
pub open spec fn distinct_names<V>(vs: Seq<(Seq<char>, V)>) -> bool {
    forall|i: int, j: int| 0 <= i < vs.len() && 0 <= j < vs.len() && i != j ==> #[trigger] vs[i].0 != #[trigger] vs[j].0
}

/// Setting a row keeps the names distinct.
pub proof fn lemma_put_distinct<V>(vs: Seq<(Seq<char>, V)>, n: Seq<char>, v: V)
    requires
        distinct_names(vs),
    ensures
        distinct_names(put_view(vs, n, v)),
{
    lemma_row_index(vs, n);
    let r = put_view(vs, n, v);
    if row_index(vs, n) < 0 {
        assert forall|i: int, j: int| 0 <= i < r.len() && 0 <= j < r.len() && i != j implies #[trigger] r[i].0
            != #[trigger] r[j].0 by {
            if i == vs.len() {
                assert(vs[j].0 != n);
            } else if j == vs.len() {
                assert(vs[i].0 != n);
            }
        }
    } else {
        let k = row_index(vs, n);
        assert forall|i: int, j: int| 0 <= i < r.len() && 0 <= j < r.len() && i != j implies #[trigger] r[i].0
            != #[trigger] r[j].0 by {
            if i == k {
                assert(vs[j].0 != vs[k].0);
            } else if j == k {
                assert(vs[i].0 != vs[k].0);
            }
        }
    }
}

/// Setting rows in turn keeps the names distinct.
pub proof fn lemma_put_all_distinct<V>(vs: Seq<(Seq<char>, V)>, adds: Seq<(Seq<char>, V)>)
    requires
        distinct_names(vs),
    ensures
        distinct_names(put_all(vs, adds)),
    decreases adds.len(),
{
    if adds.len() > 0 {
        lemma_put_all_distinct(vs, adds.drop_last());
        lemma_put_distinct(put_all(vs, adds.drop_last()), adds.last().0, adds.last().1);
    }
}

/// The shapes that some field has as its type.
pub open spec fn field_refs(fs: Seq<FieldView>) -> Set<Seq<char>> {
    Set::new(|m: Seq<char>| exists|i: int| 0 <= i < fs.len() && #[trigger] fs[i].ty == TypeView::Shape { name: m })
}

/// The field edges between shapes: from each shape to the shapes its fields have as types.
pub open spec fn field_edges(vs: Seq<(Seq<char>, ShapeView)>) -> spec_fn(Seq<char>) -> Set<Seq<char>> {
    |n: Seq<char>|
        match row_get(vs, n) {
            Some(d) => field_refs(d.fields),
            None => Set::empty(),
        }
}

/// The diagnostic for a shape that contains itself through its fields.
pub open spec fn field_cycle_diag(n: Seq<char>, at: SpanView) -> DiagnosticView {
    error_view(
        at,
        "`"@ + n + "` contains a direct field cycle."@,
        "Use a separate shape that holds a reference, or redesign to break the cycle."@,
        "A shape cannot directly contain itself (or a chain that leads back to itself) \u{2014} that would require infinite memory. Use indirection to express recursive structures."@,
    )
}

/// The field-cycle diagnostics of the first `k` rows: one for each shape that reaches
/// itself along field edges through the table's shapes.
pub open spec fn field_cycle_diags(vs: Seq<(Seq<char>, ShapeView)>, k: int) -> Seq<DiagnosticView>
    decreases k,
{
    if k <= 0 {
        Seq::empty()
    } else {
        let prev = field_cycle_diags(vs, k - 1);
        if on_cycle(row_names(vs), field_edges(vs), vs[k - 1].0) {
            prev.push(field_cycle_diag(vs[k - 1].0, vs[k - 1].1.defined_at))
        } else {
            prev
        }
    }
}

fn shape_refs(fs: &Vec<FieldDef>) -> (r: NameSet)
    ensures
        r@ == field_refs(field_views(fs@)),
{
    let ghost fv = field_views(fs@);
    let mut r = NameSet::new();
    let mut i: usize = 0;
    while i < fs.len()
        invariant
            i <= fs@.len(),
            fv == field_views(fs@),
            r@ == field_refs(fv.take(i as int)),
        decreases fs@.len() - i,
    {
        let ghost before = r@;
        let ghost t = fv.take(i + 1);
        proof {
            assert forall|j: int| 0 <= j < i implies #[trigger] t[j] == fv.take(i as int)[j] by {}
            assert(t[i as int] == fv[i as int]);
        }
        match &fs[i].ty {
            Type::Shape { name } => {
                r.insert(name.clone());
                proof {
                    assert(fv[i as int].ty == TypeView::Shape { name: name@ });
                    assert forall|m: Seq<char>| r@.contains(m) <==> field_refs(t).contains(m) by {
                        if field_refs(t).contains(m) {
                            let j = choose|j: int| 0 <= j < t.len() && #[trigger] t[j].ty == TypeView::Shape { name: m };
                            if j < i {
                                assert(fv.take(i as int)[j].ty == TypeView::Shape { name: m });
                            }
                        }
                        if before.contains(m) {
                            let j = choose|j: int|
                                0 <= j < fv.take(i as int).len() && #[trigger] fv.take(i as int)[j].ty == TypeView::Shape {
                                    name: m,
                                };
                            assert(t[j].ty == TypeView::Shape { name: m });
                        }
                        if m == name@ {
                            assert(t[i as int].ty == TypeView::Shape { name: m });
                        }
                    }
                }
            },
            _ => {
                proof {
                    assert forall|m: Seq<char>| r@.contains(m) <==> field_refs(t).contains(m) by {
                        if field_refs(t).contains(m) {
                            let j = choose|j: int| 0 <= j < t.len() && #[trigger] t[j].ty == TypeView::Shape { name: m };
                            if j < i {
                                assert(fv.take(i as int)[j].ty == TypeView::Shape { name: m });
                            }
                        }
                        if before.contains(m) {
                            let j = choose|j: int|
                                0 <= j < fv.take(i as int).len() && #[trigger] fv.take(i as int)[j].ty == TypeView::Shape {
                                    name: m,
                                };
                            assert(t[j].ty == TypeView::Shape { name: m });
                        }
                    }
                }
            },
        }
        proof {
            assert(r@ =~= field_refs(t));
        }
        i = i + 1;
    }
    proof {
        assert(fv.take(fs@.len() as int) =~= fv);
    }
    r
}

fn row_name_set(rows: &Vec<(String, ShapeDef)>) -> (s: NameSet)
    requires
        distinct_names(row_views(rows@)),
    ensures
        s.entries() == row_views(rows@).map_values(|r: (Seq<char>, ShapeView)| r.0),
        s@ == row_names(row_views(rows@)),
{
    let ghost vs = row_views(rows@);
    let ghost ns = vs.map_values(|r: (Seq<char>, ShapeView)| r.0);
    let mut s = NameSet::new();
    let mut i: usize = 0;
    while i < rows.len()
        invariant
            i <= rows@.len(),
            vs == row_views(rows@),
            ns == vs.map_values(|r: (Seq<char>, ShapeView)| r.0),
            distinct_names(vs),
            s.entries() == ns.take(i as int),
        decreases rows@.len() - i,
    {
        proof {
            if s@.contains(vs[i as int].0) {
                let j = choose|j: int| 0 <= j < s.entries().len() && s.entries()[j] == vs[i as int].0;
                assert(vs[j].0 == vs[i as int].0);
            }
        }
        s.insert(rows[i].0.clone());
        proof {
            assert(ns.take(i + 1) =~= ns.take(i as int).push(vs[i as int].0));
        }
        i = i + 1;
    }
    proof {
        assert(ns.take(rows@.len() as int) =~= ns);
        assert forall|n: Seq<char>| s@.contains(n) <==> row_names(vs).contains(n) by {
            lemma_row_index(vs, n);
            if s@.contains(n) {
                let j = choose|j: int| 0 <= j < s.entries().len() && s.entries()[j] == n;
                assert(vs[j].0 == n);
            }
            if row_names(vs).contains(n) {
                let j = row_index(vs, n);
                assert(s.entries()[j] == n);
            }
        }
        assert(s@ =~= row_names(vs));
    }
    s
}

/// Report each shape that contains itself through the types of its fields.
fn detect_field_cycles(rows: &Vec<(String, ShapeDef)>, diags: &mut Vec<Diagnostic>)
    requires
        distinct_names(row_views(rows@)),
    ensures
        diag_views(final(diags)@) == diag_views(old(diags)@) + field_cycle_diags(row_views(rows@), rows@.len() as int),
{
    let ghost vs = row_views(rows@);
    let ghost calls = field_edges(vs);
    let ghost d0 = diag_views(diags@);
    let names = row_name_set(rows);
    let ghost ns = names.entries();
    let n = rows.len();
    let mut succ: Vec<NameSet> = Vec::new();
    let mut i: usize = 0;
    while i < n
        invariant
            i <= n,
            n == rows@.len(),
            vs == row_views(rows@),
            succ@.len() == i,
            forall|j: int| 0 <= j < i ==> (#[trigger] succ@[j])@ == field_refs(vs[j].1.fields),
        decreases n - i,
    {
        succ.push(shape_refs(&rows[i].1.fields));
        i = i + 1;
    }
    let adj = index_names(&names, &succ);
    let ghost cs = succ@.map_values(|s: NameSet| s@);
    proof {
        assert forall|j: int| 0 <= j < ns.len() implies cs[j] == calls(#[trigger] ns[j]) by {
            assert(ns[j] == vs[j].0);
            assert(first_in(vs, vs[j].0, j)) by {
                assert forall|q: int| 0 <= q < j implies #[trigger] vs[q].0 != vs[j].0 by {}
            }
            lemma_row_index_first(vs, vs[j].0, j);
        }
    }
    let rec = crate::may_block::cycle_flags(&names, &adj, Ghost(cs), Ghost(calls));
    let mut k: usize = 0;
    proof {
        assert(diag_views(diags@) =~= d0 + field_cycle_diags(vs, 0));
    }
    while k < n
        invariant
            k <= n,
            n == rows@.len(),
            vs == row_views(rows@),
            ns == names.entries(),
            ns == vs.map_values(|r: (Seq<char>, ShapeView)| r.0),
            names@ == row_names(vs),
            calls == field_edges(vs),
            rec@.len() == ns.len(),
            forall|a: int| 0 <= a < rec@.len() ==> rec@[a] == on_cycle(names@, calls, #[trigger] ns[a]),
            diag_views(diags@) == d0 + field_cycle_diags(vs, k as int),
        decreases n - k,
    {
        proof {
            assert(ns[k as int] == vs[k as int].0);
        }
        if rec[k] {
            let mut what = lit("`");
            what.append(rows[k].0.as_str());
            what.append("` contains a direct field cycle.");
            push_diag(
                diags,
                &rows[k].1.defined_at,
                what,
                lit("Use a separate shape that holds a reference, or redesign to break the cycle."),
                lit(
                    "A shape cannot directly contain itself (or a chain that leads back to itself) \u{2014} that would require infinite memory. Use indirection to express recursive structures.",
                ),
            );
            proof {
                reveal_strlit("`");
                assert(diag_views(diags@) =~= d0 + field_cycle_diags(vs, k + 1));
            }
        } else {
            proof {
                assert(field_cycle_diags(vs, k + 1) == field_cycle_diags(vs, k as int));
            }
        }
        k = k + 1;
    }
}

/// The union aliases of the declarations `shape S = A | B`, in order, each resolved
/// against the shapes and the aliases before it.
pub open spec fn alias_rows(
    items: Seq<Item>,
    shapes: Seq<(Seq<char>, ShapeView)>,
    opts: Set<Seq<char>>,
) -> Seq<(Seq<char>, TypeView)>
    decreases items.len(),
{
    if items.len() == 0 {
        Seq::empty()
    } else {
        let al = alias_rows(items.drop_last(), shapes, opts);
        match items.last() {
            Item::ShapeDecl(s) => match s.alias_ty {
                Some(t) => put_view(al, s.name@, spec_resolve_in(ctx_of(shapes, al, opts), t)),
                None => al,
            },
            _ => al,
        }
    }
}

fn collect_union_aliases(items: &Vec<Item>, table: &mut ShapeTable)
    requires
        old(table).union_aliases@.len() == 0,
    ensures
        final(table).shapes == old(table).shapes,
        final(table).options_names == old(table).options_names,
        row_views(final(table).union_aliases@) == alias_rows(
            items@,
            row_views(old(table).shapes@),
            old(table).options_names@,
        ),
{
    let ghost vs = row_views(table.shapes@);
    let ghost opts = table.options_names@;
    let ghost shapes0 = table.shapes;
    let ghost options0 = table.options_names;
    let mut i: usize = 0;
    proof {
        assert(items@.take(0) =~= Seq::<Item>::empty());
        assert(row_views(table.union_aliases@) =~= alias_rows(items@.take(0), vs, opts));
    }
    while i < items.len()
        invariant
            i <= items@.len(),
            table.shapes == shapes0,
            table.options_names == options0,
            vs == row_views(shapes0@),
            opts == options0@,
            row_views(table.union_aliases@) == alias_rows(items@.take(i as int), vs, opts),
        decreases items@.len() - i,
    {
        proof {
            assert(items@.take(i + 1).drop_last() =~= items@.take(i as int));
            assert(items@.take(i + 1).last() == items@[i as int]);
        }
        match &items[i] {
            Item::ShapeDecl(s) => match &s.alias_ty {
                Some(t) => {
                    let ty = table.resolve_ast_type(t);
                    proof {
                        lemma_table_ctx(*table);
                    }
                    put_row(&mut table.union_aliases, s.name.clone(), ty);
                },
                None => {},
            },
            _ => {},
        }
        i = i + 1;
    }
    proof {
        assert(items@.take(items@.len() as int) =~= items@);
    }
}

/// What collecting a module's shapes yields: the shape rows, the union alias rows, the
/// options names, and the diagnostics in the order they are reported.
pub struct ShapesOutcome {
    pub shapes: Seq<(Seq<char>, ShapeView)>,
    pub aliases: Seq<(Seq<char>, TypeView)>,
    pub options: Set<Seq<char>>,
    pub diags: Seq<DiagnosticView>,
}

/// The shape rows before inherited fields are added: the imported shapes, then the
/// synthetic shapes, then the declarations, each set in turn.
pub open spec fn collected_rows(
    items: Seq<Item>,
    imported: Seq<(Seq<char>, ShapeView)>,
    names: Set<Seq<char>>,
    c: ResolveCtx,
) -> Seq<(Seq<char>, ShapeView)> {
    put_all(
        put_all(put_all(Seq::empty(), imported), synthetic_rows(synthetic_shapes(items), c)),
        declared_rows(items, names, c),
    )
}

/// Collecting the shapes of a module with the given imported shapes and options types.
/// Field types resolve against every shape name of the file (synthetic ones first) and
/// the options names; diagnostics come as: duplicate names, synthetic shapes,
/// declarations, cyclic `extends` chains, direct field cycles.
pub open spec fn spec_collect_shapes(
    items: Seq<Item>,
    imported: Seq<(Seq<char>, ShapeView)>,
    imported_options: Seq<(String, OptionsEntry)>,
) -> ShapesOutcome {
    let opts = options_names_of(items, imported_options);
    let syn = synthetic_shapes(items);
    let (names, d1) = shape_names_fold(items, anon_names(syn));
    let c = ResolveCtx { shapes: names, aliases: Map::empty(), options: opts };
    let vs1 = collected_rows(items, imported, names, c);
    let vs2 = flattened(vs1);
    ShapesOutcome {
        shapes: vs2,
        aliases: alias_rows(items, vs2, opts),
        options: opts,
        diags: d1 + synthetic_all_diags(syn, c) + declared_all_diags(items, names, c) + extends_cycle_diags(
            vs1,
            vs1.len() as int,
        ) + field_cycle_diags(vs2, vs2.len() as int),
    }
}

/// Collect all shape declarations of a module into a shape table.
///
/// Inline anonymous shapes are hoisted to synthetic shapes named by their content; field
/// types may refer to shapes declared later in the file; inherited fields are prepended
/// to each child's own. Duplicate names, unknown `extends` parents and `follows`
/// contracts, unknown field types, hidden fields without a default, duplicate fields,
/// cyclic `extends` chains and direct field cycles are reported.
#[verifier::spinoff_prover]
#[verifier::rlimit(90)]
pub fn collect_shapes(
    module: &Module,
    imported_shapes: &Vec<(String, ShapeDef)>,
    imported_options: &Vec<(String, OptionsEntry)>,
    diags: &mut Vec<Diagnostic>,
) -> (table: ShapeTable)
    ensures
        ({
            let o = spec_collect_shapes(module.items@, row_views(imported_shapes@), imported_options@);
            &&& row_views(table.shapes@) == o.shapes
            &&& row_views(table.union_aliases@) == o.aliases
            &&& table.options_names@ == o.options
            &&& diag_views(final(diags)@) == diag_views(old(diags)@) + o.diags
        }),
{
    let ghost items = module.items@;
    let ghost d0 = diag_views(diags@);
    let opts = collect_options_names(&module.items, imported_options);
    let syn = collect_synthetic_shapes(&module.items);
    let names = shape_names_pass(&module.items, &syn, diags);
    let ghost d1 = diag_views(diags@);
    let name_table = make_name_table(&names, &opts);
    let ghost c = table_ctx(name_table);
    let mut rows: Vec<(String, ShapeDef)> = Vec::new();
    proof {
        assert(row_views(rows@) =~= Seq::<(Seq<char>, ShapeView)>::empty());
    }
    seed_imported(&mut rows, imported_shapes);
    put_synthetic(&mut rows, &syn, &name_table, diags);
    put_declared(&mut rows, &module.items, &names, &name_table, diags);
    let ghost vs1 = row_views(rows@);
    let ghost d2 = diag_views(diags@);
    detect_extends_cycles(&rows, diags);
    flatten_inherited_fields(&mut rows);
    let ghost vs2 = row_views(rows@);
    proof {
        let e = Seq::<(Seq<char>, ShapeView)>::empty();
        lemma_put_all_distinct(e, row_views(imported_shapes@));
        lemma_put_all_distinct(put_all(e, row_views(imported_shapes@)), synthetic_rows(synthetic_shapes(items), c));
        lemma_put_all_distinct(
            put_all(put_all(e, row_views(imported_shapes@)), synthetic_rows(synthetic_shapes(items), c)),
            declared_rows(items, names@, c),
        );
        assert(distinct_names(vs1));
        assert forall|i: int, j: int| 0 <= i < vs2.len() && 0 <= j < vs2.len() && i != j implies #[trigger] vs2[i].0
            != #[trigger] vs2[j].0 by {
            assert(vs2[i].0 == vs1[i].0);
            assert(vs2[j].0 == vs1[j].0);
        }
    }
    detect_field_cycles(&rows, diags);
    let mut table = ShapeTable { shapes: rows, union_aliases: Vec::new(), options_names: opts };
    collect_union_aliases(&module.items, &mut table);
    proof {
        let o = spec_collect_shapes(items, row_views(imported_shapes@), imported_options@);
        assert(anon_names(anon_views(syn@)) == anon_names(synthetic_shapes(items)));
        assert(c == (ResolveCtx { shapes: names@, aliases: Map::empty(), options: opts@ }));
        assert(vs1 == collected_rows(items, row_views(imported_shapes@), names@, c));
        assert(diag_views(diags@) =~= d0 + o.diags);
    }
    table
}

} // verus!
