//! Least fixpoints over a call graph given by adjacency lists: which nodes reach a seed.
use vstd::prelude::*;

verus! {

/// Every adjacency entry names a node of the graph, and every node has a seed flag.
pub open spec fn graph_wf(adj: Seq<Seq<usize>>, seeds: Seq<bool>) -> bool {
    &&& adj.len() == seeds.len()
    &&& forall|i: int, k: int| 0 <= i < adj.len() && 0 <= k < adj[i].len() ==> (#[trigger] adj[i][k]) < adj.len()
}

/// `p` is a walk along edges that ends at a seed.
pub open spec fn is_seed_path(adj: Seq<Seq<usize>>, seeds: Seq<bool>, p: Seq<int>) -> bool {
    &&& p.len() >= 1
    &&& forall|k: int| 0 <= k < p.len() ==> 0 <= #[trigger] p[k] < adj.len()
    &&& forall|k: int| 0 <= k < p.len() - 1 ==> adj[#[trigger] p[k]].contains(p[k + 1] as usize)
    &&& seeds[p[p.len() - 1]]
}

/// Node `i` can reach a seed by following zero or more edges.
pub open spec fn reaches_seed(adj: Seq<Seq<usize>>, seeds: Seq<bool>, i: int) -> bool {
    exists|p: Seq<int>| #[trigger] is_seed_path(adj, seeds, p) && p[0] == i
}

pub open spec fn count_false(s: Seq<bool>) -> nat
    decreases s.len(),
{
    if s.len() == 0 {
        0
    } else {
        count_false(s.subrange(0, s.len() - 1)) + if s[s.len() - 1] {
            0nat
        } else {
            1nat
        }
    }
}

proof fn lemma_count_false_flip(s: Seq<bool>, i: int)
    requires
        0 <= i < s.len(),
        !s[i],
    ensures
        count_false(s.update(i, true)) + 1 == count_false(s),
    decreases s.len(),
{
    let t = s.update(i, true);
    if i == s.len() - 1 {
        assert(t.subrange(0, t.len() - 1) =~= s.subrange(0, s.len() - 1));
    } else {
        let ps = s.subrange(0, s.len() - 1);
        lemma_count_false_flip(ps, i);
        assert(t.subrange(0, t.len() - 1) =~= ps.update(i, true));
    }
}

proof fn lemma_seed_path_extend(adj: Seq<Seq<usize>>, seeds: Seq<bool>, i: int, c: int)
    requires
        0 <= i < adj.len(),
        adj[i].contains(c as usize),
        0 <= c,
        reaches_seed(adj, seeds, c),
    ensures
        reaches_seed(adj, seeds, i),
{
    let p = choose|p: Seq<int>| #[trigger] is_seed_path(adj, seeds, p) && p[0] == c;
    let q = seq![i] + p;
    assert(q[0] == i);
    assert forall|k: int| 0 <= k < q.len() implies 0 <= #[trigger] q[k] < adj.len() by {
        if k > 0 {
            assert(q[k] == p[k - 1]);
        }
    }
    assert forall|k: int| 0 <= k < q.len() - 1 implies adj[#[trigger] q[k]].contains(q[k + 1] as usize) by {
        if k > 0 {
            assert(q[k] == p[k - 1]);
            assert(q[k + 1] == p[k]);
        }
    }
    assert(q[q.len() - 1] == p[p.len() - 1]);
    assert(is_seed_path(adj, seeds, q));
}

proof fn lemma_seed_path_complete(adj: Seq<Seq<usize>>, seeds: Seq<bool>, m: Seq<bool>, p: Seq<int>, k: int)
    requires
        m.len() == adj.len(),
        is_seed_path(adj, seeds, p),
        0 <= k < p.len(),
        forall|j: int| 0 <= j < m.len() && seeds[j] ==> m[j],
        forall|j: int, c: int|
            0 <= j < m.len() && 0 <= c < m.len() && #[trigger] adj[j].contains(c as usize) && m[c] ==> m[j],
    ensures
        m[p[k]],
    decreases p.len() - k,
{
    if k < p.len() - 1 {
        lemma_seed_path_complete(adj, seeds, m, p, k + 1);
        assert(adj[p[k]].contains(p[k + 1] as usize));
    }
}

pub fn any_member(succ: &Vec<usize>, m: &Vec<bool>) -> (r: bool)
    requires
        forall|k: int| 0 <= k < succ@.len() ==> (#[trigger] succ@[k]) < m@.len(),
    ensures
        r == exists|k: int| 0 <= k < succ@.len() && m@[succ@[k] as int],
{
    let mut k: usize = 0;
    while k < succ.len()
        invariant
            k <= succ.len(),
            forall|q: int| 0 <= q < succ@.len() ==> (#[trigger] succ@[q]) < m@.len(),
            forall|q: int| 0 <= q < k ==> !m@[#[trigger] succ@[q] as int],
        decreases succ.len() - k,
    {
        if m[succ[k]] {
            return true;
        }
        k = k + 1;
    }
    false
}

/// The least set of nodes that holds every seed and every node with an edge into the set:
/// exactly the nodes from which some seed is reachable.
pub fn least_fixpoint(adj: &Vec<Vec<usize>>, seeds: &Vec<bool>) -> (m: Vec<bool>)
    requires
        graph_wf(adj@.map_values(|v: Vec<usize>| v@), seeds@),
    ensures
        m@.len() == adj@.len(),
        forall|i: int| 0 <= i < adj@.len() ==> (m@[i] <==> reaches_seed(adj@.map_values(|v: Vec<usize>| v@), seeds@, i)),
{
    let ghost g = adj@.map_values(|v: Vec<usize>| v@);
    let n = adj.len();
    let mut m: Vec<bool> = Vec::new();
    let mut i: usize = 0;
    while i < n
        invariant
            i <= n,
            n == adj@.len(),
            g == adj@.map_values(|v: Vec<usize>| v@),
            graph_wf(g, seeds@),
            m@ == seeds@.subrange(0, i as int),
        decreases n - i,
    {
        m.push(seeds[i]);
        proof {
            assert(seeds@.subrange(0, i + 1) =~= seeds@.subrange(0, i as int).push(seeds@[i as int]));
        }
        i = i + 1;
    }
    proof {
        assert(seeds@.subrange(0, n as int) =~= seeds@);
        assert forall|j: int| 0 <= j < n && m@[j] implies reaches_seed(g, seeds@, j) by {
            let p = seq![j];
            assert(is_seed_path(g, seeds@, p));
        }
    }
    loop
        invariant
            n == adj@.len(),
            g == adj@.map_values(|v: Vec<usize>| v@),
            graph_wf(g, seeds@),
            m@.len() == n,
            forall|j: int| 0 <= j < n && seeds@[j] ==> m@[j],
            forall|j: int| 0 <= j < n && m@[j] ==> reaches_seed(g, seeds@, j),
        decreases count_false(m@),
    {
        let ghost start = m@;
        let mut changed = false;
        let mut i: usize = 0;
        while i < n
            invariant
                i <= n,
                n == adj@.len(),
                g == adj@.map_values(|v: Vec<usize>| v@),
                graph_wf(g, seeds@),
                m@.len() == n,
                forall|j: int| 0 <= j < n && seeds@[j] ==> m@[j],
                forall|j: int| 0 <= j < n && m@[j] ==> reaches_seed(g, seeds@, j),
                !changed ==> m@ == start,
                changed ==> count_false(m@) < count_false(start),
                !changed ==> forall|j: int, c: int|
                    0 <= j < i && 0 <= c < n && #[trigger] g[j].contains(c as usize) && m@[c] ==> m@[j],
            decreases n - i,
        {
            proof {
                assert(g[i as int] == adj@[i as int]@);
                assert forall|k: int| 0 <= k < adj@[i as int]@.len() implies (#[trigger] adj@[i as int]@[k]) < m@.len() by {
                    assert(g[i as int][k] < g.len());
                }
            }
            if !m[i] && any_member(&adj[i], &m) {
                proof {
                    let k = choose|k: int| 0 <= k < adj@[i as int]@.len() && m@[adj@[i as int]@[k] as int];
                    let c = adj@[i as int]@[k] as int;
                    assert(g[i as int].contains(c as usize));
                    lemma_seed_path_extend(g, seeds@, i as int, c);
                    lemma_count_false_flip(m@, i as int);
                }
                m.set(i, true);
                changed = true;
            } else {
                proof {
                    if !changed && !m@[i as int] {
                        assert forall|c: int| 0 <= c < n && #[trigger] g[i as int].contains(c as usize) implies !m@[c] by {
                            if m@[c] {
                                let k = choose|k: int| 0 <= k < g[i as int].len() && g[i as int][k] == c as usize;
                                assert(adj@[i as int]@[k] as int == c);
                            }
                        }
                    }
                }
            }
            i = i + 1;
        }
        if !changed {
            proof {
                assert forall|j: int| 0 <= j < n implies (m@[j] <==> reaches_seed(g, seeds@, j)) by {
                    if reaches_seed(g, seeds@, j) {
                        let p = choose|p: Seq<int>| #[trigger] is_seed_path(g, seeds@, p) && p[0] == j;
                        lemma_seed_path_complete(g, seeds@, m@, p, 0);
                    }
                }
            }
            return m;
        }
    }
}

} // verus!
