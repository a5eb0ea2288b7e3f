//! False-sharing auto-padding: which shape types cross a `background` boundary, and which
//! of them this module may pad to a cache line (declared here and not exported) versus
//! decline with a lint (exported, declared elsewhere, or an inline structural shape).
use vstd::prelude::*;

use crate::diagnostics::SourceSpan;
use crate::names::NameSet;
use crate::shape_passes::{lemma_row_index, row_get, row_index, row_names, row_position, row_views};
use crate::syntax::{Item, Module};
use crate::text::{insert_sorted_unique, sorted_unique, str_starts_with, string_views};
use crate::types::{lemma_view_types, type_view, view_types, Type, TypeView};

verus! {

/// The user shape names reachable inside a type through the containers a value can cross
/// a `background` boundary in.
pub open spec fn shape_names_in(t: TypeView) -> Set<Seq<char>>
    decreases t,
{
    match t {
        TypeView::Shape { name } => set![name],
        TypeView::BuiltinChannel { elem } => shape_names_in(*elem),
        TypeView::BuiltinArray { elem } => shape_names_in(*elem),
        TypeView::BuiltinFixed { elem, .. } => shape_names_in(*elem),
        TypeView::Maybe { inner } => shape_names_in(*inner),
        TypeView::ErrorsCapable { inner } => shape_names_in(*inner),
        TypeView::BuiltinMap { key, val } => shape_names_in(*key).union(shape_names_in(*val)),
        TypeView::MapEntry { key, val } => shape_names_in(*key).union(shape_names_in(*val)),
        TypeView::Generic { args, .. } => shape_names_in_all(args),
        _ => Set::empty(),
    }
}

pub open spec fn shape_names_in_all(ts: Seq<TypeView>) -> Set<Seq<char>>
    decreases ts,
{
    if ts.len() == 0 {
        Set::empty()
    } else {
        shape_names_in_all(ts.subrange(0, ts.len() - 1)).union(shape_names_in(ts[ts.len() - 1]))
    }
}

/// Add to `out` every user shape name reachable inside `ty`.
pub fn collect_shape_type_names(ty: &Type, out: &mut NameSet)
    ensures
        final(out)@ == old(out)@.union(shape_names_in(ty@)),
    decreases ty,
{
    let ghost start = out@;
    match ty {
        Type::Shape { name } => {
            out.insert(name.clone());
            proof {
                assert(out@ =~= start.union(set![name@]));
            }
        },
        Type::BuiltinChannel { elem } => collect_shape_type_names(elem, out),
        Type::BuiltinArray { elem } => collect_shape_type_names(elem, out),
        Type::BuiltinFixed { elem, .. } => collect_shape_type_names(elem, out),
        Type::Maybe { inner } => collect_shape_type_names(inner, out),
        Type::ErrorsCapable { inner } => collect_shape_type_names(inner, out),
        Type::BuiltinMap { key, val } | Type::MapEntry { key, val } => {
            collect_shape_type_names(key, out);
            collect_shape_type_names(val, out);
            proof {
                assert(out@ =~= start.union(shape_names_in(key@).union(shape_names_in(val@))));
            }
        },
        Type::Generic { args, .. } => collect_shape_type_names_all(args, out),
        _ => {
            proof {
                assert(out@ =~= start.union(Set::empty()));
            }
        },
    }
}

fn collect_shape_type_names_all(args: &Vec<Type>, out: &mut NameSet)
    ensures
        final(out)@ == old(out)@.union(shape_names_in_all(view_types(args@))),
    decreases args,
{
    let ghost start = out@;
    let ghost vs = view_types(args@);
    proof {
        lemma_view_types(args@);
        assert(vs.subrange(0, 0) =~= Seq::<TypeView>::empty());
        assert(start.union(Set::empty()) =~= start);
    }
    let mut i: usize = 0;
    while i < args.len()
        invariant
            i <= args.len(),
            vs == view_types(args@),
            vs.len() == args@.len(),
            forall|j: int| 0 <= j < args@.len() ==> #[trigger] vs[j] == type_view(args@[j]),
            out@ == start.union(shape_names_in_all(vs.subrange(0, i as int))),
        decreases args.len() - i,
    {
        collect_shape_type_names(&args[i], out);
        proof {
            let pre = vs.subrange(0, i + 1);
            assert(pre.subrange(0, i as int) =~= vs.subrange(0, i as int));
            assert(pre[i as int] == vs[i as int]);
            assert(out@ =~= start.union(shape_names_in_all(pre)));
        }
        i = i + 1;
    }
    proof {
        assert(vs.subrange(0, args.len() as int) =~= vs);
    }
}

/// Why a cross-thread shape cannot be padded by this module, if it cannot.
pub open spec fn spec_decline_reason(items: Seq<Item>, name: Seq<char>) -> Option<Seq<char>> {
    if name.len() >= 7 && name.subrange(0, 7) == "__anon_"@ {
        Some("it is an inline shape whose layout is shared by structure across files"@)
    } else {
        match local_shape_decl(items, name) {
            Some(exported) => if exported {
                Some("it is exported"@)
            } else {
                None
            },
            None => Some("it is declared in another file"@),
        }
    }
}

/// Whether the first shape declaration named `name` in `items` is exported, if one exists.
pub open spec fn local_shape_decl(items: Seq<Item>, name: Seq<char>) -> Option<bool>
    decreases items.len(),
{
    if items.len() == 0 {
        None
    } else {
        match items[0] {
            Item::ShapeDecl(s) => if s.name@ == name {
                Some(s.is_exported)
            } else {
                local_shape_decl(items.subrange(1, items.len() as int), name)
            },
            _ => local_shape_decl(items.subrange(1, items.len() as int), name),
        }
    }
}

fn find_local_shape(items: &Vec<Item>, name: &str) -> (r: Option<bool>)
    ensures
        r == local_shape_decl(items@, name@),
{
    let mut i: usize = 0;
    proof {
        assert(items@.subrange(0, items@.len() as int) =~= items@);
    }
    while i < items.len()
        invariant
            i <= items.len(),
            local_shape_decl(items@, name@) == local_shape_decl(items@.subrange(i as int, items@.len() as int), name@),
        decreases items.len() - i,
    {
        proof {
            let rest = items@.subrange(i as int, items@.len() as int);
            assert(rest[0] == items@[i as int]);
            assert(rest.subrange(1, rest.len() as int) =~= items@.subrange(i + 1, items@.len() as int));
        }
        match &items[i] {
            Item::ShapeDecl(s) => {
                if crate::text::str_eq(s.name.as_str(), name) {
                    return Some(s.is_exported);
                }
            },
            _ => {},
        }
        i = i + 1;
    }
    None
}

/// Why the cross-thread shape `name` cannot be padded here (`None` when it can).
pub fn decline_reason(module: &Module, name: &str) -> (r: Option<&'static str>)
    ensures
        match r {
            Some(s) => spec_decline_reason(module.items@, name@) == Some(s@),
            None => spec_decline_reason(module.items@, name@) is None,
        },
{
    if str_starts_with(name, "__anon_") {
        proof {
            reveal_strlit("__anon_");
        }
        return Some("it is an inline shape whose layout is shared by structure across files");
    }
    proof {
        reveal_strlit("__anon_");
    }
    match find_local_shape(&module.items, name) {
        Some(exported) => if exported {
            Some("it is exported")
        } else {
            None
        },
        None => Some("it is declared in another file"),
    }
}

/// The false-sharing partition of one module: shapes to pad, and shapes declined with
/// the reason the lint gives, in ascending name order.
pub struct FalseSharingPartition {
    pub padded: NameSet,
    pub declined: Vec<(String, &'static str)>,
}

/// Partition the cross-thread shapes `cross_thread` (the names the spawn sites recorded)
/// into padded and declined ones. Shapes unknown to the shape table (`known_shapes`) are
/// skipped; nothing is padded or declined when padding is switched off (`enabled` false:
/// kernel mode or the sequential posture).
pub fn partition_false_sharing(
    cross_thread: &NameSet,
    module: &Module,
    known_shapes: &NameSet,
    enabled: bool,
) -> (r: FalseSharingPartition)
    ensures
        !enabled ==> r.padded@.is_empty() && r.declined@.len() == 0,
        enabled ==> forall|n: Seq<char>|
            r.padded@.contains(n) <==> cross_thread@.contains(n) && known_shapes@.contains(n)
                && spec_decline_reason(module.items@, n) is None,
        enabled ==> forall|k: int|
            0 <= k < r.declined@.len() ==> cross_thread@.contains((#[trigger] r.declined@[k]).0@)
                && known_shapes@.contains(r.declined@[k].0@) && spec_decline_reason(module.items@, r.declined@[k].0@)
                == Some(r.declined@[k].1@),
        enabled ==> forall|n: Seq<char>|
            cross_thread@.contains(n) && known_shapes@.contains(n) && spec_decline_reason(module.items@, n) is Some
                ==> exists|k: int| 0 <= k < r.declined@.len() && #[trigger] r.declined@[k].0@ == n,
        sorted_unique(Seq::new(r.declined@.len(), |k: int| r.declined@[k].0@)),
{
    let mut padded = NameSet::new();
    let mut declined: Vec<(String, &'static str)> = Vec::new();
    if !enabled {
        proof {
            assert(Seq::new(declined@.len(), |k: int| declined@[k].0@) =~= Seq::<Seq<char>>::empty());
        }
        return FalseSharingPartition { padded, declined };
    }
    let mut sorted: Vec<String> = Vec::new();
    let n = cross_thread.len();
    let mut i: usize = 0;
    while i < n
        invariant
            i <= n,
            n == cross_thread.entries().len(),
            sorted_unique(string_views(sorted@)),
            string_views(sorted@).to_set() == cross_thread.entries().subrange(0, i as int).to_set(),
        decreases n - i,
    {
        insert_sorted_unique(&mut sorted, cross_thread.name_at(i).clone());
        proof {
            let a = cross_thread.entries().subrange(0, i + 1);
            let b = cross_thread.entries().subrange(0, i as int);
            assert(a.to_set() =~= b.to_set().insert(cross_thread.entries()[i as int])) by {
                assert forall|x: Seq<char>| a.to_set().contains(x) implies b.to_set().insert(cross_thread.entries()[i as int]).contains(x) by {
                    let k = choose|k: int| 0 <= k < a.len() && a[k] == x;
                    if k < i {
                        assert(b[k] == x);
                    }
                }
                assert forall|x: Seq<char>| b.to_set().insert(cross_thread.entries()[i as int]).contains(x) implies a.to_set().contains(x) by {
                    if x == cross_thread.entries()[i as int] {
                        assert(a[i as int] == x);
                    } else {
                        let k = choose|k: int| 0 <= k < b.len() && b[k] == x;
                        assert(a[k] == x);
                    }
                }
            }
        }
        i = i + 1;
    }
    proof {
        assert(cross_thread.entries().subrange(0, n as int) =~= cross_thread.entries());
    }
    let ghost sv = string_views(sorted@);
    let ghost mut pos: Seq<int> = Seq::empty();
    let mut j: usize = 0;
    while j < sorted.len()
        invariant
            j <= sorted.len(),
            sv == string_views(sorted@),
            sv.len() == sorted@.len(),
            sorted_unique(sv),
            sv.to_set() == cross_thread@,
            forall|x: Seq<char>|
                padded@.contains(x) <==> exists|q: int|
                    0 <= q < j && #[trigger] sv[q] == x && known_shapes@.contains(x) && spec_decline_reason(
                        module.items@,
                        x,
                    ) is None,
            pos.len() == declined@.len(),
            forall|k: int|
                0 <= k < declined@.len() ==> 0 <= #[trigger] pos[k] < j && sv[pos[k]] == declined@[k].0@
                    && known_shapes@.contains(sv[pos[k]]) && spec_decline_reason(module.items@, sv[pos[k]]) == Some(
                    declined@[k].1@,
                ),
            forall|a: int, b: int| 0 <= a < b < pos.len() ==> #[trigger] pos[a] < #[trigger] pos[b],
            forall|q: int|
                0 <= q < j && known_shapes@.contains(#[trigger] sv[q]) && spec_decline_reason(module.items@, sv[q]) is Some
                    ==> exists|k: int| 0 <= k < declined@.len() && #[trigger] declined@[k].0@ == sv[q],
        decreases sorted.len() - j,
    {
        let ghost before = padded@;
        let ghost dbefore = declined@;
        let name = &sorted[j];
        if known_shapes.contains(name.as_str()) {
            match decline_reason(module, name.as_str()) {
                None => {
                    padded.insert(name.clone());
                },
                Some(reason) => {
                    declined.push((name.clone(), reason));
                    proof {
                        pos = pos.push(j as int);
                    }
                },
            }
        }
        proof {
            assert(sv[j as int] == name@);
            assert forall|x: Seq<char>|
                padded@.contains(x) <==> exists|q: int|
                    0 <= q < j + 1 && #[trigger] sv[q] == x && known_shapes@.contains(x) && spec_decline_reason(
                        module.items@,
                        x,
                    ) is None by {
                if exists|q: int|
                    0 <= q < j + 1 && #[trigger] sv[q] == x && known_shapes@.contains(x) && spec_decline_reason(
                        module.items@,
                        x,
                    ) is None {
                    let q = choose|q: int|
                        0 <= q < j + 1 && #[trigger] sv[q] == x && known_shapes@.contains(x) && spec_decline_reason(
                            module.items@,
                            x,
                        ) is None;
                    if q < j {
                        assert(before.contains(x));
                    }
                }
            }
            assert forall|k: int| 0 <= k < declined@.len() implies 0 <= #[trigger] pos[k] < j + 1 && sv[pos[k]]
                == declined@[k].0@ && known_shapes@.contains(sv[pos[k]]) && spec_decline_reason(
                module.items@,
                sv[pos[k]],
            ) == Some(declined@[k].1@) by {
                if k < dbefore.len() {
                    assert(declined@[k] == dbefore[k]);
                }
            }
            assert forall|q: int|
                0 <= q < j + 1 && known_shapes@.contains(#[trigger] sv[q]) && spec_decline_reason(module.items@, sv[q]) is Some
                    implies exists|k: int| 0 <= k < declined@.len() && #[trigger] declined@[k].0@ == sv[q] by {
                if q < j {
                    let k = choose|k: int| 0 <= k < dbefore.len() && #[trigger] dbefore[k].0@ == sv[q];
                    assert(declined@[k] == dbefore[k]);
                } else {
                    assert(declined@[declined@.len() - 1].0@ == sv[q]);
                }
            }
        }
        j = j + 1;
    }
    proof {
        let names = Seq::new(declined@.len(), |k: int| declined@[k].0@);
        assert forall|k: int| 0 <= k < names.len() - 1 implies crate::text::spec_lex_lt(#[trigger] names[k], names[k + 1]) by {
            assert(pos[k] < pos[k + 1]);
            crate::text::lemma_sorted_lt(sv, pos[k], pos[k + 1]);
        }
        assert forall|a: int, b: int| 0 <= a < names.len() && 0 <= b < names.len() && a != b implies names[a] != names[b] by {
            if a < b {
                assert(pos[a] < pos[b]);
            } else {
                assert(pos[b] < pos[a]);
            }
        }
        assert forall|x: Seq<char>| padded@.contains(x) implies cross_thread@.contains(x) by {
            let q = choose|q: int| 0 <= q < sorted@.len() && #[trigger] sv[q] == x && known_shapes@.contains(x)
                && spec_decline_reason(module.items@, x) is None;
            assert(sv.to_set().contains(sv[q]));
        }
        assert forall|x: Seq<char>| cross_thread@.contains(x) && known_shapes@.contains(x) && spec_decline_reason(
            module.items@,
            x,
        ) is None implies padded@.contains(x) by {
            assert(sv.to_set().contains(x));
            let q = choose|q: int| 0 <= q < sv.len() && sv[q] == x;
            assert(sv[q] == x);
        }
        assert forall|k: int| 0 <= k < declined@.len() implies cross_thread@.contains((#[trigger] declined@[k]).0@)
            && known_shapes@.contains(declined@[k].0@) && spec_decline_reason(module.items@, declined@[k].0@) == Some(
            declined@[k].1@,
        ) by {
            assert(0 <= pos[k] < sv.len());
            assert(sv[pos[k]] == declined@[k].0@);
            assert(sv.to_set().contains(sv[pos[k]]));
        }
        assert forall|x: Seq<char>|
            cross_thread@.contains(x) && known_shapes@.contains(x) && spec_decline_reason(module.items@, x) is Some
                implies exists|k: int| 0 <= k < declined@.len() && #[trigger] declined@[k].0@ == x by {
            assert(sv.to_set().contains(x));
            let q = choose|q: int| 0 <= q < sv.len() && sv[q] == x;
            assert(sv[q] == x);
            assert(known_shapes@.contains(sv[q]));
            assert(spec_decline_reason(module.items@, sv[q]) is Some);
            let k = choose|k: int| 0 <= k < declined@.len() && #[trigger] declined@[k].0@ == sv[q];
            assert(declined@[k].0@ == x);
        }
    }
    FalseSharingPartition { padded, declined }
}

/// The finalized false-sharing outcome of a module.
pub struct FalseSharingOutcome {
    /// The shapes whose layout is padded.
    pub padded: NameSet,
    /// Each declined shape, with why and the first spawn site that crossed it (where its
    /// lint points).
    pub declined: Vec<(String, &'static str, SourceSpan)>,
}

/// Finalize the cross-thread shapes the spawn sites recorded (each name with the first
/// spawn site that crossed it): under kernel mode or the sequential posture nothing is
/// padded or declined; otherwise they are partitioned, each declined shape anchored at
/// its recorded spawn site.
#[verifier::spinoff_prover]
#[verifier::rlimit(40)]
pub fn finalize_false_sharing(
    cross_thread: &Vec<(String, SourceSpan)>,
    module: &Module,
    known_shapes: &NameSet,
    kernel_mode: bool,
    no_auto_parallel: bool,
) -> (r: FalseSharingOutcome)
    ensures
        kernel_mode || no_auto_parallel ==> r.padded@.is_empty() && r.declined@.len() == 0,
        !(kernel_mode || no_auto_parallel) ==> forall|n: Seq<char>|
            r.padded@.contains(n) <==> row_names(row_views(cross_thread@)).contains(n) && known_shapes@.contains(n)
                && spec_decline_reason(module.items@, n) is None,
        !(kernel_mode || no_auto_parallel) ==> forall|k: int|
            0 <= k < r.declined@.len() ==> row_names(row_views(cross_thread@)).contains((#[trigger] r.declined@[k]).0@)
                && known_shapes@.contains(r.declined@[k].0@) && spec_decline_reason(module.items@, r.declined@[k].0@)
                == Some(r.declined@[k].1@) && row_get(row_views(cross_thread@), r.declined@[k].0@) == Some(
                r.declined@[k].2@,
            ),
        !(kernel_mode || no_auto_parallel) ==> forall|n: Seq<char>|
            row_names(row_views(cross_thread@)).contains(n) && known_shapes@.contains(n) && spec_decline_reason(
                module.items@,
                n,
            ) is Some ==> exists|k: int| 0 <= k < r.declined@.len() && #[trigger] r.declined@[k].0@ == n,
        sorted_unique(Seq::new(r.declined@.len(), |k: int| r.declined@[k].0@)),
{
    let ghost vs = row_views(cross_thread@);
    let mut names = NameSet::new();
    let mut i: usize = 0;
    while i < cross_thread.len()
        invariant
            i <= cross_thread@.len(),
            vs == row_views(cross_thread@),
            forall|n: Seq<char>| names@.contains(n) <==> exists|t: int| 0 <= t < i && #[trigger] vs[t].0 == n,
        decreases cross_thread@.len() - i,
    {
        names.insert(cross_thread[i].0.clone());
        proof {
            assert(vs[i as int].0 == cross_thread@[i as int].0@);
            assert forall|n: Seq<char>| names@.contains(n) <==> exists|t: int| 0 <= t < i + 1 && #[trigger] vs[t].0 == n by {
                if n == vs[i as int].0 {
                    assert(exists|t: int| 0 <= t < i + 1 && #[trigger] vs[t].0 == n);
                }
                if exists|t: int| 0 <= t < i + 1 && #[trigger] vs[t].0 == n {
                    let t = choose|t: int| 0 <= t < i + 1 && #[trigger] vs[t].0 == n;
                    if t < i {
                        assert(exists|u: int| 0 <= u < i && #[trigger] vs[u].0 == n);
                    }
                }
            }
        }
        i = i + 1;
    }
    proof {
        assert forall|n: Seq<char>| names@.contains(n) <==> row_names(vs).contains(n) by {
            lemma_row_index(vs, n);
        }
        assert(names@ =~= row_names(vs));
    }
    let enabled = !(kernel_mode || no_auto_parallel);
    let part = partition_false_sharing(&names, module, known_shapes, enabled);
    let mut declined: Vec<(String, &'static str, SourceSpan)> = Vec::new();
    let mut k: usize = 0;
    while k < part.declined.len()
        invariant
            k <= part.declined@.len(),
            vs == row_views(cross_thread@),
            enabled ==> forall|q: int|
                0 <= q < part.declined@.len() ==> names@.contains((#[trigger] part.declined@[q]).0@),
            forall|n: Seq<char>| names@.contains(n) <==> row_names(vs).contains(n),
            declined@.len() == k,
            forall|q: int|
                0 <= q < k ==> (#[trigger] declined@[q]).0@ == part.declined@[q].0@ && declined@[q].1 == part.declined@[q].1
                    && row_get(vs, declined@[q].0@) == Some(declined@[q].2@),
            !enabled ==> part.declined@.len() == 0,
        decreases part.declined@.len() - k,
    {
        let name = &part.declined[k].0;
        proof {
            lemma_row_index(vs, name@);
        }
        match row_position(cross_thread, name.as_str()) {
            Some(p) => {
                let span = cross_thread[p].1.duplicate();
                declined.push((name.clone(), part.declined[k].1, span));
            },
            None => {
                proof {
                    assert(names@.contains(name@));
                    assert(false);
                }
            },
        }
        k = k + 1;
    }
    proof {
        assert(Seq::new(declined@.len(), |q: int| declined@[q].0@) =~= Seq::new(
            part.declined@.len(),
            |q: int| part.declined@[q].0@,
        ));
        if enabled {
            assert forall|n: Seq<char>|
                row_names(vs).contains(n) && known_shapes@.contains(n) && spec_decline_reason(module.items@, n) is Some
                implies exists|q: int| 0 <= q < declined@.len() && #[trigger] declined@[q].0@ == n by {
                assert(names@.contains(n));
                let q = choose|q: int| 0 <= q < part.declined@.len() && #[trigger] part.declined@[q].0@ == n;
                assert(declined@[q].0@ == n);
            }
        }
    }
    FalseSharingOutcome { padded: part.padded, declined }
}

} // verus!
