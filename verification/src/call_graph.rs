//! Call graphs over function names: walks along call edges, and the indexed form of a
//! call graph that the fixpoint in `graph` runs on.
use vstd::prelude::*;

use crate::graph::{graph_wf, is_seed_path, reaches_seed};
use crate::names::{no_duplicates, NameSet};

verus! {

/// `p` is a walk through the functions `local` along the call edges `calls`.
pub open spec fn is_walk(
    local: Set<Seq<char>>,
    calls: spec_fn(Seq<char>) -> Set<Seq<char>>,
    p: Seq<Seq<char>>,
) -> bool {
    &&& p.len() >= 1
    &&& forall|k: int| 0 <= k < p.len() ==> local.contains(#[trigger] p[k])
    &&& forall|k: int| 0 <= k < p.len() - 1 ==> calls(#[trigger] p[k]).contains(p[k + 1])
}

/// From `n`, a function satisfying `target` is reachable along call edges (`n` itself
/// included).
pub open spec fn reaches(
    local: Set<Seq<char>>,
    calls: spec_fn(Seq<char>) -> Set<Seq<char>>,
    target: spec_fn(Seq<char>) -> bool,
    n: Seq<char>,
) -> bool {
    exists|p: Seq<Seq<char>>| #[trigger] is_walk(local, calls, p) && p[0] == n && target(p[p.len() - 1])
}

/// `n` lies on a call cycle: it calls a function from which `n` is reachable again
/// (a function that calls itself is the cycle of length one).
pub open spec fn on_cycle(local: Set<Seq<char>>, calls: spec_fn(Seq<char>) -> Set<Seq<char>>, n: Seq<char>) -> bool {
    exists|c: Seq<char>|
        #[trigger] calls(n).contains(c) && local.contains(c) && reaches(local, calls, |x: Seq<char>| x == n, c)
}

/// A function that calls a function from which a target is reachable reaches it too.
pub proof fn lemma_reaches_prepend(
    local: Set<Seq<char>>,
    calls: spec_fn(Seq<char>) -> Set<Seq<char>>,
    target: spec_fn(Seq<char>) -> bool,
    f: Seq<char>,
    g: Seq<char>,
)
    requires
        local.contains(f),
        calls(f).contains(g),
        reaches(local, calls, target, g),
    ensures
        reaches(local, calls, target, f),
{
    let p = choose|p: Seq<Seq<char>>| #[trigger] is_walk(local, calls, p) && p[0] == g && target(p[p.len() - 1]);
    let q = seq![f] + p;
    assert forall|k: int| 0 <= k < q.len() implies local.contains(#[trigger] q[k]) by {
        if k > 0 {
            assert(q[k] == p[k - 1]);
        }
    }
    assert forall|k: int| 0 <= k < q.len() - 1 implies calls(#[trigger] q[k]).contains(q[k + 1]) by {
        if k > 0 {
            assert(q[k] == p[k - 1]);
            assert(q[k + 1] == p[k]);
        }
    }
    assert(q[q.len() - 1] == p[p.len() - 1]);
    assert(is_walk(local, calls, q));
}

/// Reaching a target is monotone in the target.
pub proof fn lemma_reaches_weaken(
    local: Set<Seq<char>>,
    calls: spec_fn(Seq<char>) -> Set<Seq<char>>,
    t1: spec_fn(Seq<char>) -> bool,
    t2: spec_fn(Seq<char>) -> bool,
    n: Seq<char>,
)
    requires
        reaches(local, calls, t1, n),
        forall|x: Seq<char>| #[trigger] t1(x) ==> t2(x),
    ensures
        reaches(local, calls, t2, n),
{
    let p = choose|p: Seq<Seq<char>>| #[trigger] is_walk(local, calls, p) && p[0] == n && t1(p[p.len() - 1]);
    assert(t2(p[p.len() - 1]));
}

/// `b` is reachable from `a` along call edges.
pub open spec fn reaches_name(
    local: Set<Seq<char>>,
    calls: spec_fn(Seq<char>) -> Set<Seq<char>>,
    a: Seq<char>,
    b: Seq<char>,
) -> bool {
    reaches(local, calls, |x: Seq<char>| x == b, a)
}

/// `a` and `b` each reach the other: they lie in one strongly connected component.
pub open spec fn mutually_reachable(
    local: Set<Seq<char>>,
    calls: spec_fn(Seq<char>) -> Set<Seq<char>>,
    a: Seq<char>,
    b: Seq<char>,
) -> bool {
    reaches_name(local, calls, a, b) && reaches_name(local, calls, b, a)
}

/// Every function reaches itself.
pub proof fn lemma_reaches_name_refl(local: Set<Seq<char>>, calls: spec_fn(Seq<char>) -> Set<Seq<char>>, a: Seq<char>)
    requires
        local.contains(a),
    ensures
        reaches_name(local, calls, a, a),
{
    let p = seq![a];
    assert(is_walk(local, calls, p));
}

/// Reachability composes.
pub proof fn lemma_reaches_name_trans(
    local: Set<Seq<char>>,
    calls: spec_fn(Seq<char>) -> Set<Seq<char>>,
    a: Seq<char>,
    b: Seq<char>,
    c: Seq<char>,
)
    requires
        reaches_name(local, calls, a, b),
        reaches_name(local, calls, b, c),
    ensures
        reaches_name(local, calls, a, c),
{
    let p = choose|p: Seq<Seq<char>>| #[trigger] is_walk(local, calls, p) && p[0] == a && (|x: Seq<char>| x == b)(
        p[p.len() - 1],
    );
    let q = choose|q: Seq<Seq<char>>| #[trigger] is_walk(local, calls, q) && q[0] == b && (|x: Seq<char>| x == c)(
        q[q.len() - 1],
    );
    let r = p + q.subrange(1, q.len() as int);
    assert forall|k: int| 0 <= k < r.len() implies local.contains(#[trigger] r[k]) by {
        if k >= p.len() {
            assert(r[k] == q[k - p.len() + 1]);
        }
    }
    assert forall|k: int| 0 <= k < r.len() - 1 implies calls(#[trigger] r[k]).contains(r[k + 1]) by {
        if k < p.len() - 1 {
            assert(r[k] == p[k] && r[k + 1] == p[k + 1]);
        } else if k == p.len() - 1 {
            assert(r[k] == q[0]);
            assert(r[k + 1] == q[1]);
        } else {
            assert(r[k] == q[k - p.len() + 1]);
            assert(r[k + 1] == q[k - p.len() + 2]);
        }
    }
    assert(is_walk(local, calls, r));
    if q.len() == 1 {
        assert(r =~= p);
    } else {
        assert(r[r.len() - 1] == q[q.len() - 1]);
    }
}

/// Both ends of a walk are among the functions it walks through.
pub proof fn lemma_reaches_name_ends(
    local: Set<Seq<char>>,
    calls: spec_fn(Seq<char>) -> Set<Seq<char>>,
    a: Seq<char>,
    b: Seq<char>,
)
    requires
        reaches_name(local, calls, a, b),
    ensures
        local.contains(a),
        local.contains(b),
{
    let p = choose|p: Seq<Seq<char>>| #[trigger] is_walk(local, calls, p) && p[0] == a && (|x: Seq<char>| x == b)(
        p[p.len() - 1],
    );
    assert(local.contains(p[0]));
    assert(local.contains(p[p.len() - 1]));
}

/// Lying in one strongly connected component is transitive.
pub proof fn lemma_mutually_reachable_trans(
    local: Set<Seq<char>>,
    calls: spec_fn(Seq<char>) -> Set<Seq<char>>,
    a: Seq<char>,
    b: Seq<char>,
    c: Seq<char>,
)
    requires
        mutually_reachable(local, calls, a, b),
        mutually_reachable(local, calls, b, c),
    ensures
        mutually_reachable(local, calls, a, c),
{
    lemma_reaches_name_trans(local, calls, a, b, c);
    lemma_reaches_name_trans(local, calls, c, b, a);
}

/// `adj` holds, for each name `ns[i]`, the positions of the names among `ns` that it calls
/// according to `cs[i]`.
pub open spec fn indexes(ns: Seq<Seq<char>>, cs: Seq<Set<Seq<char>>>, adj: Seq<Seq<usize>>) -> bool {
    &&& adj.len() == ns.len()
    &&& cs.len() == ns.len()
    &&& forall|i: int, k: int| 0 <= i < adj.len() && 0 <= k < adj[i].len() ==> (#[trigger] adj[i][k]) < adj.len()
    &&& forall|i: int, j: int|
        0 <= i < ns.len() && 0 <= j < ns.len() ==> (adj[i].contains(j as usize) <==> #[trigger] cs[i].contains(
            ns[j],
        ))
}

spec fn position_of(ns: Seq<Seq<char>>, x: Seq<char>) -> int {
    choose|j: int| 0 <= j < ns.len() && ns[j] == x
}

/// A seed is reachable from position `i` of the indexed graph exactly when a target is
/// reachable from the name `ns[i]` in the call graph it indexes.
pub proof fn lemma_reaches_indexed(
    ns: Seq<Seq<char>>,
    cs: Seq<Set<Seq<char>>>,
    calls: spec_fn(Seq<char>) -> Set<Seq<char>>,
    adj: Seq<Seq<usize>>,
    seeds: Seq<bool>,
    target: spec_fn(Seq<char>) -> bool,
    i: int,
)
    requires
        no_duplicates(ns),
        indexes(ns, cs, adj),
        forall|j: int| 0 <= j < ns.len() ==> cs[j] == calls(#[trigger] ns[j]),
        seeds.len() == ns.len(),
        forall|j: int| 0 <= j < ns.len() ==> seeds[j] == target(#[trigger] ns[j]),
        0 <= i < ns.len(),
    ensures
        graph_wf(adj, seeds),
        reaches_seed(adj, seeds, i) <==> reaches(ns.to_set(), calls, target, ns[i]),
{
    let local = ns.to_set();
    if reaches_seed(adj, seeds, i) {
        let p = choose|p: Seq<int>| #[trigger] is_seed_path(adj, seeds, p) && p[0] == i;
        let q = Seq::new(p.len(), |k: int| ns[p[k]]);
        assert forall|k: int| 0 <= k < q.len() implies local.contains(#[trigger] q[k]) by {
            assert(0 <= p[k] < ns.len());
            assert(ns.contains(ns[p[k]]));
        }
        assert forall|k: int| 0 <= k < q.len() - 1 implies calls(#[trigger] q[k]).contains(q[k + 1]) by {
            assert(adj[p[k]].contains(p[k + 1] as usize));
            assert(0 <= p[k + 1] < ns.len());
            assert(cs[p[k]].contains(ns[p[k + 1]]));
            assert(cs[p[k]] == calls(ns[p[k]]));
        }
        assert(is_walk(local, calls, q));
        assert(target(q[q.len() - 1]));
    }
    if reaches(local, calls, target, ns[i]) {
        let q = choose|q: Seq<Seq<char>>| #[trigger] is_walk(local, calls, q) && q[0] == ns[i] && target(q[q.len() - 1]);
        let p = Seq::new(q.len(), |k: int| position_of(ns, q[k]));
        assert forall|k: int| 0 <= k < q.len() implies 0 <= #[trigger] p[k] < ns.len() && ns[p[k]] == q[k] by {
            assert(local.contains(q[k]));
        }
        assert(p[0] == i) by {
            assert(ns[p[0]] == ns[i]);
        }
        assert forall|k: int| 0 <= k < p.len() - 1 implies adj[#[trigger] p[k]].contains(p[k + 1] as usize) by {
            assert(ns[p[k]] == q[k]);
            assert(ns[p[k + 1]] == q[k + 1]);
            assert(calls(q[k]).contains(q[k + 1]));
            assert(cs[p[k]].contains(ns[p[k + 1]]));
        }
        assert(seeds[p[p.len() - 1]]) by {
            assert(ns[p[p.len() - 1]] == q[q.len() - 1]);
        }
        assert(is_seed_path(adj, seeds, p));
    }
}

/// The adjacency lists of the graph whose node `i` is `names.entries()[i]` and whose
/// successors of node `i` are the names of `succ[i]` that are nodes.
pub fn index_names(names: &NameSet, succ: &Vec<NameSet>) -> (adj: Vec<Vec<usize>>)
    requires
        succ@.len() == names.entries().len(),
    ensures
        indexes(names.entries(), succ@.map_values(|s: NameSet| s@), adj@.map_values(|v: Vec<usize>| v@)),
{
    let n = names.len();
    let ghost ns = names.entries();
    let ghost cs = succ@.map_values(|s: NameSet| s@);
    let mut adj: Vec<Vec<usize>> = Vec::new();
    let mut i: usize = 0;
    while i < n
        invariant
            i <= n,
            n == ns.len(),
            no_duplicates(ns),
            ns == names.entries(),
            cs == succ@.map_values(|s: NameSet| s@),
            succ@.len() == n,
            adj@.len() == i,
            forall|a: int, k: int| 0 <= a < i && 0 <= k < adj@[a]@.len() ==> (#[trigger] adj@[a]@[k]) < n,
            forall|a: int, j: int|
                0 <= a < i && 0 <= j < n ==> (adj@[a]@.contains(j as usize) <==> #[trigger] cs[a].contains(ns[j])),
        decreases n - i,
    {
        let direct = &succ[i];
        let dn = direct.len();
        let mut row: Vec<usize> = Vec::new();
        let mut k: usize = 0;
        while k < dn
            invariant
                k <= dn,
                dn == direct.entries().len(),
                n == ns.len(),
                no_duplicates(ns),
                ns == names.entries(),
                forall|q: int| 0 <= q < row@.len() ==> (#[trigger] row@[q]) < n,
                forall|j: int|
                    #![trigger ns[j]]
                    0 <= j < n ==> (row@.contains(j as usize) <==> exists|k2: int|
                        0 <= k2 < k && #[trigger] direct.entries()[k2] == ns[j]),
            decreases dn - k,
        {
            let ghost before = row@;
            let found = names.index_of(direct.name_at(k).as_str());
            match found {
                Some(j) => {
                    row.push(j);
                },
                None => {},
            }
            proof {
                assert(found is None ==> row@ == before);
                assert(found is Some ==> row@ == before.push(found->0));
                assert forall|j: int|
                    #![trigger ns[j]]
                    0 <= j < n implies (row@.contains(j as usize) <==> exists|k2: int|
                        0 <= k2 < k + 1 && #[trigger] direct.entries()[k2] == ns[j]) by {
                    if row@.contains(j as usize) && !before.contains(j as usize) {
                        if found is None {
                            assert(row@ == before);
                        }
                        assert(row@ == before.push(found->0));
                        let q = choose|q: int| 0 <= q < row@.len() && row@[q] == j as usize;
                        if q < before.len() {
                            assert(before[q] == j as usize);
                        }
                        assert(found->0 == j as usize);
                        assert(direct.entries()[k as int] == ns[j]);
                    }
                    if exists|k2: int| 0 <= k2 < k + 1 && #[trigger] direct.entries()[k2] == ns[j] {
                        let k2 = choose|k2: int| 0 <= k2 < k + 1 && #[trigger] direct.entries()[k2] == ns[j];
                        if k2 < k {
                            assert(before.contains(j as usize));
                            let q = choose|q: int| 0 <= q < before.len() && before[q] == j as usize;
                            assert(row@[q] == j as usize);
                        } else {
                            assert(ns.contains(ns[j]));
                            assert(names@.contains(direct.entries()[k as int]));
                            let jj = found->0 as int;
                            assert(ns[jj] == ns[j]);
                            assert(row@[row@.len() - 1] == j as usize);
                        }
                    }
                }
            }
            k = k + 1;
        }
        proof {
            assert forall|j: int| 0 <= j < n implies (row@.contains(j as usize) <==> cs[i as int].contains(ns[j])) by {
                if cs[i as int].contains(ns[j]) {
                    let k2 = choose|k2: int| 0 <= k2 < direct.entries().len() && direct.entries()[k2] == ns[j];
                    assert(direct.entries()[k2] == ns[j]);
                }
            }
        }
        adj.push(row);
        i = i + 1;
    }
    proof {
        let m = adj@.map_values(|v: Vec<usize>| v@);
        assert forall|a: int, k: int| 0 <= a < m.len() && 0 <= k < m[a].len() implies (#[trigger] m[a][k]) < m.len() by {
            assert(m[a] == adj@[a]@);
        }
        assert forall|a: int, j: int| 0 <= a < ns.len() && 0 <= j < ns.len() implies (m[a].contains(j as usize)
            <==> #[trigger] cs[a].contains(ns[j])) by {
            assert(m[a] == adj@[a]@);
        }
    }
    adj
}

} // verus!
