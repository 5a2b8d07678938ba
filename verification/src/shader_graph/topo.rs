//! Kahn's topological sort over node indices, the way the graph evaluator
//! walks a graph: the nodes without incoming wires enter the queue in
//! ascending ID order, and each processed node releases its targets in wire
//! order. The walk reaches every node exactly when the wires admit a ranking
//! of the nodes that every wire climbs, that is, when the graph has no cycle.
use vstd::prelude::*;

verus! {

/// Directed edges between node indices.
pub type Edges = Seq<(usize, usize)>;

/// Edges among the first `k` that end at `v` and start outside `done`.
pub open spec fn in_count(edges: Edges, v: usize, done: Set<usize>, k: int) -> nat
    decreases k,
{
    if k <= 0 {
        0
    } else {
        in_count(edges, v, done, k - 1) + if edges[k - 1].1 == v && !done.contains(edges[k - 1].0) {
            1nat
        } else {
            0nat
        }
    }
}

/// Edges among the first `k` that go from `u` to `v`.
pub open spec fn pair_count(edges: Edges, u: usize, v: usize, k: int) -> nat
    decreases k,
{
    if k <= 0 {
        0
    } else {
        pair_count(edges, u, v, k - 1) + if edges[k - 1] == (u, v) {
            1nat
        } else {
            0nat
        }
    }
}

/// Elements of `s` whose key is below `key`.
pub open spec fn count_less(keys: Seq<u32>, s: Seq<usize>, key: u32) -> nat
    decreases s.len(),
{
    if s.len() == 0 {
        0
    } else {
        count_less(keys, s.drop_last(), key) + if keys[s.last() as int] < key {
            1nat
        } else {
            0nat
        }
    }
}

/// Insertion of `v` into a key-ascending sequence.
pub open spec fn sorted_insert(keys: Seq<u32>, s: Seq<usize>, v: usize) -> Seq<usize> {
    s.insert(count_less(keys, s, keys[v as int]) as int, v)
}

/// Number of incoming edges of every node.
pub open spec fn initial_degrees(n: nat, edges: Edges) -> Seq<usize> {
    Seq::new(n, |v: int| in_count(edges, v as usize, Set::empty(), edges.len() as int) as usize)
}

/// The nodes among the first `k` without incoming edges, in ascending key order.
pub open spec fn initial_queue(keys: Seq<u32>, deg: Seq<usize>, k: int) -> Seq<usize>
    decreases k,
{
    if k <= 0 {
        Seq::empty()
    } else {
        let q = initial_queue(keys, deg, k - 1);
        if deg[k - 1] == 0 {
            sorted_insert(keys, q, (k - 1) as usize)
        } else {
            q
        }
    }
}

/// Processing node `u`: the first `k` edges out of `u` decrement their
/// targets' degrees; a target whose degree reaches zero joins the release list.
pub open spec fn relax(edges: Edges, u: usize, deg: Seq<usize>, k: int) -> (Seq<usize>, Seq<usize>)
    decreases k,
{
    if k <= 0 {
        (deg, Seq::empty())
    } else {
        let (d, p) = relax(edges, u, deg, k - 1);
        let e = edges[k - 1];
        if e.0 == u {
            let d2 = d.update(e.1 as int, (d[e.1 as int] - 1) as usize);
            (d2, if d2[e.1 as int] == 0 { p.push(e.1) } else { p })
        } else {
            (d, p)
        }
    }
}

/// Walk state: (queue, visited order, remaining degrees).
pub type Walk = (Seq<usize>, Seq<usize>, Seq<usize>);

pub open spec fn walk_start(keys: Seq<u32>, edges: Edges) -> Walk {
    let deg = initial_degrees(keys.len(), edges);
    (initial_queue(keys, deg, keys.len() as int), Seq::empty(), deg)
}

/// One step: pop the queue's front, visit it, and queue what it releases.
pub open spec fn walk_step(edges: Edges, s: Walk) -> Walk {
    if s.0.len() == 0 {
        s
    } else {
        let u = s.0[0];
        let (d, p) = relax(edges, u, s.2, edges.len() as int);
        (s.0.drop_first() + p, s.1.push(u), d)
    }
}

pub open spec fn walk_run(edges: Edges, s: Walk, steps: nat) -> Walk
    decreases steps,
{
    if steps == 0 {
        s
    } else {
        walk_run(edges, walk_step(edges, s), (steps - 1) as nat)
    }
}

/// The visiting order of the walk over `keys.len()` nodes.
pub open spec fn walk_order(keys: Seq<u32>, edges: Edges) -> Seq<usize> {
    walk_run(edges, walk_start(keys, edges), keys.len()).1
}

pub open spec fn edges_in_range(n: nat, edges: Edges) -> bool {
    forall|k: int| 0 <= k < edges.len() ==> (#[trigger] edges[k]).0 < n && edges[k].1 < n
}

/// Some ranking of the `n` nodes increases along every edge: the edges form no cycle.
pub open spec fn has_ranking(n: nat, edges: Edges) -> bool {
    exists|rank: Seq<nat>| #![trigger rank.len()]
        rank.len() == n && forall|k: int|
            0 <= k < edges.len() ==> rank[(#[trigger] edges[k]).0 as int] < rank[edges[k].1 as int]
}

/// The walk's invariant over `n` nodes.
pub open spec fn walk_inv(n: nat, edges: Edges, s: Walk) -> bool {
    let seen = s.1 + s.0;
    &&& s.2.len() == n
    &&& forall|v: usize| v < n ==> #[trigger] s.2[v as int] as nat == in_count(edges, v, s.1.to_set(), edges.len() as int)
    &&& seen.no_duplicates()
    &&& forall|i: int| 0 <= i < seen.len() ==> #[trigger] seen[i] < n
    &&& forall|v: usize| v < n ==> (#[trigger] seen.contains(v) <==> s.2[v as int] == 0)
    &&& forall|k: int, j: int| 0 <= k < edges.len() && 0 <= j < s.1.len() && #[trigger] s.1[j] == (#[trigger] edges[k]).1
        ==> exists|i: int| 0 <= i < j && s.1[i] == edges[k].0
}

proof fn lemma_in_count_insert(edges: Edges, done: Set<usize>, u: usize, v: usize, k: int)
    requires
        !done.contains(u),
        k <= edges.len(),
    ensures
        in_count(edges, v, done.insert(u), k) + pair_count(edges, u, v, k) == in_count(edges, v, done, k),
    decreases k,
{
    if k > 0 {
        lemma_in_count_insert(edges, done, u, v, k - 1);
    }
}

proof fn lemma_pair_count_mono(edges: Edges, u: usize, v: usize, k: int, k2: int)
    requires
        k <= k2,
    ensures
        pair_count(edges, u, v, k) <= pair_count(edges, u, v, k2),
    decreases k2 - k,
{
    if k < k2 {
        lemma_pair_count_mono(edges, u, v, k, k2 - 1);
    }
}

/// No edge into `v` from outside `done` exactly when its count is zero.
proof fn lemma_in_count_zero(edges: Edges, v: usize, done: Set<usize>, k: int)
    requires
        k <= edges.len(),
    ensures
        in_count(edges, v, done, k) == 0 <==> forall|j: int| 0 <= j < k && (#[trigger] edges[j]).1 == v ==> done.contains(edges[j].0),
    decreases k,
{
    if k > 0 {
        lemma_in_count_zero(edges, v, done, k - 1);
        if in_count(edges, v, done, k) == 0 {
            assert forall|j: int| 0 <= j < k && (#[trigger] edges[j]).1 == v implies done.contains(edges[j].0) by {
                if j < k - 1 {
                } 
            }
        }
    }
}

proof fn lemma_relax(n: nat, edges: Edges, s: Walk, k: int)
    requires
        walk_inv(n, edges, s),
        edges_in_range(n, edges),
        s.0.len() > 0,
        0 <= k <= edges.len(),
    ensures
        ({
            let (d, p) = relax(edges, s.0[0], s.2, k);
            let seen = s.1 + s.0 + p;
            &&& d.len() == n
            &&& forall|v: usize| v < n ==> #[trigger] d[v as int] + pair_count(edges, s.0[0], v, k)
                == in_count(edges, v, s.1.to_set(), edges.len() as int)
            &&& seen.no_duplicates()
            &&& forall|i: int| 0 <= i < seen.len() ==> #[trigger] seen[i] < n
            &&& forall|v: usize| v < n ==> (#[trigger] seen.contains(v) <==> d[v as int] == 0)
        }),
    decreases k,
{
    let u = s.0[0];
    let done = s.1.to_set();
    let m = edges.len() as int;
    assert((s.1 + s.0)[s.1.len() as int] == u);
    assert(!s.1.contains(u)) by {
        if s.1.contains(u) {
            let i = choose|i: int| 0 <= i < s.1.len() && s.1[i] == u;
            assert((s.1 + s.0)[i] == u);
        }
    }
    if k == 0 {
        assert(s.1 + s.0 + Seq::<usize>::empty() =~= s.1 + s.0);
        assert forall|v: usize| v < n implies #[trigger] s.2[v as int] + pair_count(edges, u, v, 0)
            == in_count(edges, v, done, m) by {
        }
    } else {
        lemma_relax(n, edges, s, k - 1);
        let (d, p) = relax(edges, u, s.2, k - 1);
        let e = edges[k - 1];
        if e.0 == u {
            let v = e.1;
            lemma_in_count_insert(edges, done, u, v, m);
            lemma_pair_count_mono(edges, u, v, k, m);
            assert(d[v as int] >= 1);
            let d2 = d.update(v as int, (d[v as int] - 1) as usize);
            let seen = s.1 + s.0 + p;
            assert(!seen.contains(v));
            if d2[v as int] == 0 {
                let p2 = p.push(v);
                assert(s.1 + s.0 + p2 =~= seen.push(v));
                assert forall|x: usize| x < n implies (#[trigger] (s.1 + s.0 + p2).contains(x) <==> d2[x as int] == 0) by {
                    if x != v {
                        if (s.1 + s.0 + p2).contains(x) {
                            let i = choose|i: int| 0 <= i < (s.1 + s.0 + p2).len() && (s.1 + s.0 + p2)[i] == x;
                            assert(seen[i] == x);
                        }
                        if seen.contains(x) {
                            let i = choose|i: int| 0 <= i < seen.len() && seen[i] == x;
                            assert((s.1 + s.0 + p2)[i] == x);
                        }
                    } else {
                        assert((s.1 + s.0 + p2)[seen.len() as int] == x);
                    }
                }
            }
            assert forall|x: usize| x < n implies #[trigger] d2[x as int] + pair_count(edges, u, x, k)
                == in_count(edges, x, done, m) by {
                assert(d[x as int] + pair_count(edges, u, x, k - 1) == in_count(edges, x, done, m));
                if x == v {
                    assert(edges[k - 1] == (u, x));
                } else {
                    assert(edges[k - 1].1 != x);
                }
            }
        } else {
            assert forall|x: usize| x < n implies #[trigger] d[x as int] + pair_count(edges, u, x, k)
                == in_count(edges, x, done, m) by {
                assert(d[x as int] + pair_count(edges, u, x, k - 1) == in_count(edges, x, done, m));
            }
        }
    }
}

proof fn lemma_walk_step(n: nat, edges: Edges, s: Walk)
    requires
        walk_inv(n, edges, s),
        edges_in_range(n, edges),
    ensures
        walk_inv(n, edges, walk_step(edges, s)),
{
    if s.0.len() > 0 {
        let m = edges.len() as int;
        let u = s.0[0];
        let done = s.1.to_set();
        lemma_relax(n, edges, s, m);
        let (d, p) = relax(edges, u, s.2, m);
        let t = walk_step(edges, s);
        assert(t.1 + t.0 =~= s.1 + s.0 + p);
        assert(!s.1.contains(u)) by {
            assert((s.1 + s.0)[s.1.len() as int] == u);
            if s.1.contains(u) {
                let i = choose|i: int| 0 <= i < s.1.len() && s.1[i] == u;
                assert((s.1 + s.0)[i] == u);
            }
        }
        assert(t.1.to_set() =~= done.insert(u)) by {
            s.1.lemma_push_to_set_commute(u);
        }
        assert forall|v: usize| v < n implies #[trigger] t.2[v as int] as nat == in_count(edges, v, t.1.to_set(), m) by {
            lemma_in_count_insert(edges, done, u, v, m);
        }
        // u had no incoming edge from outside the visited prefix.
        assert(u < n) by {
            assert((s.1 + s.0)[s.1.len() as int] == u);
        }
        assert((s.1 + s.0).contains(u)) by {
            assert((s.1 + s.0)[s.1.len() as int] == u);
        }
        lemma_in_count_zero(edges, u, done, m);
        assert forall|k: int, j: int| 0 <= k < edges.len() && 0 <= j < t.1.len() && #[trigger] t.1[j] == (#[trigger] edges[k]).1
            implies exists|i: int| 0 <= i < j && t.1[i] == edges[k].0 by {
            if j < s.1.len() {
                assert(s.1[j] == edges[k].1);
                let i = choose|i: int| 0 <= i < j && s.1[i] == edges[k].0;
                assert(t.1[i] == edges[k].0);
            } else {
                assert(edges[k].1 == u);
                assert(done.contains(edges[k].0));
                let i = choose|i: int| 0 <= i < s.1.len() && s.1[i] == edges[k].0;
                assert(t.1[i] == edges[k].0);
            }
        }
    }
}

proof fn lemma_usize_range(n: nat)
    ensures
        Set::new(|x: usize| x < n).finite(),
        n <= usize::MAX + 1 ==> Set::new(|x: usize| x < n).len() == n,
    decreases n,
{
    if n == 0 {
        assert(Set::new(|x: usize| x < n) =~= Set::empty());
    } else {
        lemma_usize_range((n - 1) as nat);
        if n <= usize::MAX + 1 {
            assert(Set::new(|x: usize| x < (n - 1) as nat).insert((n - 1) as usize) =~= Set::new(|x: usize| x < n));
        } else {
            assert(Set::new(|x: usize| x < (n - 1) as nat) =~= Set::new(|x: usize| x < n));
        }
    }
}

/// A duplicate-free sequence of indices below `n` has at most `n` elements,
/// and holds every index below `n` when it has exactly `n`.
proof fn lemma_indices(s: Seq<usize>, n: nat)
    requires
        s.no_duplicates(),
        n <= usize::MAX,
        forall|i: int| 0 <= i < s.len() ==> #[trigger] s[i] < n,
    ensures
        s.len() <= n,
        s.len() == n ==> forall|v: usize| v < n ==> s.contains(v),
{
    let r = Set::new(|x: usize| x < n);
    lemma_usize_range(n);
    s.unique_seq_to_set();
    assert(s.to_set().subset_of(r));
    vstd::set_lib::lemma_len_subset(s.to_set(), r);
    if s.len() == n {
        vstd::set_lib::lemma_subset_equality(s.to_set(), r);
        assert forall|v: usize| v < n implies s.contains(v) by {
            assert(r.contains(v));
        }
    }
}

proof fn lemma_in_count_le(edges: Edges, v: usize, done: Set<usize>, k: int)
    requires
        0 <= k,
    ensures
        in_count(edges, v, done, k) <= k,
    decreases k,
{
    if k > 0 {
        lemma_in_count_le(edges, v, done, k - 1);
    }
}

proof fn lemma_count_less_le(keys: Seq<u32>, s: Seq<usize>, key: u32)
    ensures
        count_less(keys, s, key) <= s.len(),
    decreases s.len(),
{
    if s.len() > 0 {
        lemma_count_less_le(keys, s.drop_last(), key);
    }
}

proof fn lemma_sorted_insert(keys: Seq<u32>, q: Seq<usize>, v: usize)
    requires
        q.no_duplicates(),
        !q.contains(v),
    ensures
        sorted_insert(keys, q, v).no_duplicates(),
        sorted_insert(keys, q, v).len() == q.len() + 1,
        forall|x: usize| #[trigger] sorted_insert(keys, q, v).contains(x) <==> (q.contains(x) || x == v),
{
    lemma_count_less_le(keys, q, keys[v as int]);
    let c = count_less(keys, q, keys[v as int]) as int;
    let r = sorted_insert(keys, q, v);
    assert forall|i: int| 0 <= i < r.len() implies #[trigger] r[i] == (if i < c { q[i] } else if i == c { v } else { q[i - 1] }) by {}
    assert forall|x: usize| #[trigger] r.contains(x) <==> (q.contains(x) || x == v) by {
        if q.contains(x) {
            let i = choose|i: int| 0 <= i < q.len() && q[i] == x;
            if i < c { assert(r[i] == x); } else { assert(r[i + 1] == x); }
        }
        if x == v { assert(r[c] == x); }
        if r.contains(x) {
            let i = choose|i: int| 0 <= i < r.len() && r[i] == x;
            if i < c { assert(q[i] == x); } else if i > c { assert(q[i - 1] == x); }
        }
    }
    assert forall|i: int, j: int| 0 <= i < r.len() && 0 <= j < r.len() && i != j implies r[i] != r[j] by {
        if i == c { assert(q.contains(r[j])); } else if j == c { assert(q.contains(r[i])); }
    }
}

proof fn lemma_initial_queue(keys: Seq<u32>, deg: Seq<usize>, k: int)
    requires
        0 <= k <= deg.len(),
        deg.len() <= usize::MAX,
    ensures
        initial_queue(keys, deg, k).no_duplicates(),
        forall|i: int| 0 <= i < initial_queue(keys, deg, k).len() ==> #[trigger] initial_queue(keys, deg, k)[i] < k,
        forall|v: usize| #[trigger] initial_queue(keys, deg, k).contains(v) <==> (v < k && deg[v as int] == 0),
    decreases k,
{
    if k > 0 {
        lemma_initial_queue(keys, deg, k - 1);
        let q = initial_queue(keys, deg, k - 1);
        if deg[k - 1] == 0 {
            lemma_sorted_insert(keys, q, (k - 1) as usize);
            let r = initial_queue(keys, deg, k);
            assert forall|i: int| 0 <= i < r.len() implies #[trigger] r[i] < k by {
                assert(r.contains(r[i]));
            }
        }
    }
}

proof fn lemma_walk_start(keys: Seq<u32>, edges: Edges)
    requires
        edges_in_range(keys.len(), edges),
        keys.len() <= usize::MAX,
        edges.len() <= usize::MAX,
    ensures
        walk_inv(keys.len(), edges, walk_start(keys, edges)),
{
    let n = keys.len();
    let s = walk_start(keys, edges);
    let deg = initial_degrees(n, edges);
    lemma_initial_queue(keys, deg, n as int);
    assert(s.1 + s.0 =~= s.0);
    assert(s.1.to_set() =~= Set::<usize>::empty());
    assert forall|v: usize| v < n implies #[trigger] s.2[v as int] as nat == in_count(edges, v, s.1.to_set(), edges.len() as int) by {
        lemma_in_count_le(edges, v, Set::empty(), edges.len() as int);
    }
}

proof fn lemma_run(n: nat, edges: Edges, s: Walk, f: nat)
    requires
        walk_inv(n, edges, s),
        edges_in_range(n, edges),
    ensures
        walk_inv(n, edges, walk_run(edges, s, f)),
        walk_run(edges, s, f).0.len() == 0 || walk_run(edges, s, f).1.len() == s.1.len() + f,
        s.0.len() == 0 ==> walk_run(edges, s, f) == s,
    decreases f,
{
    if f > 0 {
        lemma_walk_step(n, edges, s);
        lemma_run(n, edges, walk_step(edges, s), (f - 1) as nat);
    }
}

pub proof fn lemma_run_split(edges: Edges, s: Walk, a: nat, b: nat)
    ensures
        walk_run(edges, s, a + b) == walk_run(edges, walk_run(edges, s, a), b),
    decreases a,
{
    if a > 0 {
        lemma_run_split(edges, walk_step(edges, s), (a - 1) as nat, b);
        assert((a + b - 1) as nat == (a - 1) as nat + b);
    }
}

/// After `n` steps the walk over `n` nodes has stopped: its queue is empty.
proof fn lemma_walk_ends(keys: Seq<u32>, edges: Edges)
    requires
        edges_in_range(keys.len(), edges),
        keys.len() <= usize::MAX,
        edges.len() <= usize::MAX,
    ensures
        walk_inv(keys.len(), edges, walk_run(edges, walk_start(keys, edges), keys.len())),
        walk_run(edges, walk_start(keys, edges), keys.len()).0.len() == 0,
{
    let n = keys.len();
    lemma_walk_start(keys, edges);
    lemma_run(n, edges, walk_start(keys, edges), n);
    let t = walk_run(edges, walk_start(keys, edges), n);
    lemma_indices(t.1 + t.0, n);
}

/// Every node outside a finished walk has an incoming edge from outside it.
proof fn lemma_unvisited_has_source(n: nat, edges: Edges, t: Walk, w: usize)
    requires
        walk_inv(n, edges, t),
        edges_in_range(n, edges),
        t.0.len() == 0,
        w < n,
        !t.1.contains(w),
    ensures
        exists|j: int| 0 <= j < edges.len() && (#[trigger] edges[j]).1 == w && !t.1.contains(edges[j].0),
{
    assert(t.1 + t.0 =~= t.1);
    lemma_in_count_zero(edges, w, t.1.to_set(), edges.len() as int);
}

proof fn lemma_descent(n: nat, edges: Edges, t: Walk, rank: Seq<nat>, v0: usize, steps: nat)
    requires
        walk_inv(n, edges, t),
        edges_in_range(n, edges),
        t.0.len() == 0,
        v0 < n,
        !t.1.contains(v0),
        rank.len() == n,
        forall|k: int| 0 <= k < edges.len() ==> rank[(#[trigger] edges[k]).0 as int] < rank[edges[k].1 as int],
    ensures
        exists|w: usize| w < n && !t.1.contains(w) && rank[w as int] + steps <= rank[v0 as int],
    decreases steps,
{
    if steps > 0 {
        lemma_descent(n, edges, t, rank, v0, (steps - 1) as nat);
        let w = choose|w: usize| w < n && !t.1.contains(w) && rank[w as int] + (steps - 1) as nat <= rank[v0 as int];
        lemma_unvisited_has_source(n, edges, t, w);
        let j = choose|j: int| 0 <= j < edges.len() && (#[trigger] edges[j]).1 == w && !t.1.contains(edges[j].0);
        let x = edges[j].0;
        assert(rank[x as int] < rank[w as int]);
    }
}

/// The walk visits each node at most once, visits only nodes, and visits
/// every node exactly when some ranking of the nodes climbs along every edge.
pub proof fn lemma_walk_visits_all_iff_ranked(keys: Seq<u32>, edges: Edges)
    requires
        edges_in_range(keys.len(), edges),
        keys.len() <= usize::MAX,
        edges.len() <= usize::MAX,
    ensures
        walk_order(keys, edges).no_duplicates(),
        forall|i: int| 0 <= i < walk_order(keys, edges).len() ==> #[trigger] walk_order(keys, edges)[i] < keys.len(),
        walk_order(keys, edges).len() <= keys.len(),
        walk_order(keys, edges).len() == keys.len() <==> has_ranking(keys.len(), edges),
        walk_order(keys, edges).len() == keys.len() ==> forall|v: usize| v < keys.len() ==> walk_order(keys, edges).contains(v),
{
    let n = keys.len();
    lemma_walk_ends(keys, edges);
    let t = walk_run(edges, walk_start(keys, edges), n);
    let order = t.1;
    assert(t.1 + t.0 =~= order);
    lemma_indices(order, n);
    if order.len() == n {
        let rank = Seq::new(n, |v: int| order.index_of(v as usize) as nat);
        assert forall|k: int| 0 <= k < edges.len() implies rank[(#[trigger] edges[k]).0 as int] < rank[edges[k].1 as int] by {
            let a = edges[k].0;
            let b = edges[k].1;
            assert(order.contains(b));
            let jb = order.index_of(b);
            let i = choose|i: int| 0 <= i < jb && order[i] == edges[k].0;
            assert(order.contains(a));
            assert(order.index_of(a) == i);
        }
        assert(rank.len() == n);
        assert(has_ranking(n, edges)) by {
            assert(rank.len() == n && forall|k: int| 0 <= k < edges.len() ==> rank[(#[trigger] edges[k]).0 as int] < rank[edges[k].1 as int]);
        }
    } else {
        let r = Set::new(|x: usize| x < n);
        lemma_usize_range(n);
        order.unique_seq_to_set();
        if forall|v: usize| v < n ==> order.contains(v) {
            assert(r.subset_of(order.to_set()));
            vstd::set_lib::lemma_len_subset(r, order.to_set());
        }
        let v0 = choose|v: usize| v < n && !order.contains(v);
        if has_ranking(n, edges) {
            let rank = choose|rank: Seq<nat>| rank.len() == n && forall|k: int|
                0 <= k < edges.len() ==> rank[(#[trigger] edges[k]).0 as int] < rank[edges[k].1 as int];
            lemma_descent(n, edges, t, rank, v0, rank[v0 as int] + 1);
        }
    }
}

proof fn lemma_relax_positive(n: nat, edges: Edges, s: Walk, k: int)
    requires
        walk_inv(n, edges, s),
        edges_in_range(n, edges),
        s.0.len() > 0,
        0 <= k < edges.len(),
        edges[k].0 == s.0[0],
    ensures
        relax(edges, s.0[0], s.2, k).0[edges[k].1 as int] >= 1,
{
    let u = s.0[0];
    let v = edges[k].1;
    let m = edges.len() as int;
    lemma_relax(n, edges, s, k);
    assert(!s.1.contains(u)) by {
        assert((s.1 + s.0)[s.1.len() as int] == u);
        if s.1.contains(u) {
            let i = choose|i: int| 0 <= i < s.1.len() && s.1[i] == u;
            assert((s.1 + s.0)[i] == u);
        }
    }
    lemma_in_count_insert(edges, s.1.to_set(), u, v, m);
    lemma_pair_count_mono(edges, u, v, k + 1, m);
}

fn count_less_exec(keys: &Vec<u32>, q: &Vec<usize>, key: u32) -> (c: usize)
    requires
        forall|i: int| 0 <= i < q.len() ==> #[trigger] q[i] < keys.len(),
    ensures
        c == count_less(keys@, q@, key),
{
    let mut c: usize = 0;
    let mut j: usize = 0;
    while j < q.len()
        invariant
            j <= q.len(),
            c <= j,
            c == count_less(keys@, q@.take(j as int), key),
            forall|i: int| 0 <= i < q.len() ==> #[trigger] q[i] < keys.len(),
        decreases q.len() - j,
    {
        assert(q@.take(j + 1).drop_last() =~= q@.take(j as int));
        if keys[q[j]] < key {
            c = c + 1;
        }
        j = j + 1;
    }
    assert(q@.take(q.len() as int) =~= q@);
    c
}

/// The visiting order of Kahn's walk over `keys.len()` nodes and `edges`.
pub fn walk(keys: &Vec<u32>, edges: &Vec<(usize, usize)>) -> (order: Vec<usize>)
    requires
        edges_in_range(keys.len() as nat, edges@),
    ensures
        order@ == walk_order(keys@, edges@),
{
    let n = keys.len();
    let m = edges.len();
    let ghost ks = keys@;
    let ghost es = edges@;
    let mut deg: Vec<usize> = Vec::new();
    let mut v: usize = 0;
    while v < n
        invariant
            v <= n,
            deg@.len() == v,
            forall|i: int| 0 <= i < v ==> deg@[i] == 0,
        decreases n - v,
    {
        deg.push(0);
        v = v + 1;
    }
    let mut k: usize = 0;
    while k < m
        invariant
            k <= m,
            m == es.len(),
            n == ks.len(),
            ks == keys@,
            es == edges@,
            edges_in_range(n as nat, es),
            deg@.len() == n,
            forall|x: usize| x < n ==> #[trigger] deg@[x as int] as nat == in_count(es, x, Set::empty(), k as int),
        decreases m - k,
    {
        let t = edges[k].1;
        proof {
            lemma_in_count_le(es, t, Set::empty(), k as int);
        }
        let d = deg[t];
        let ghost before = deg@;
        deg.set(t, d + 1);
        k = k + 1;
        proof {
            assert forall|x: usize| x < n implies #[trigger] deg@[x as int] as nat == in_count(es, x, Set::empty(), k as int) by {
                if x != t {
                    assert(deg@[x as int] == before[x as int]);
                }
            }
        }
    }
    proof {
        assert(deg@ =~= initial_degrees(n as nat, es));
    }
    let ghost deg0 = deg@;
    let mut queue: Vec<usize> = Vec::new();
    let mut v: usize = 0;
    while v < n
        invariant
            v <= n,
            n == ks.len(),
            ks == keys@,
            es == edges@,
            deg@ == deg0,
            deg0.len() == n,
            queue@ == initial_queue(ks, deg0, v as int),
        decreases n - v,
    {
        proof {
            lemma_initial_queue(ks, deg0, v as int);
        }
        if deg[v] == 0 {
            let c = count_less_exec(keys, &queue, keys[v]);
            proof {
                lemma_count_less_le(ks, queue@, ks[v as int]);
            }
            queue.insert(c, v);
        }
        v = v + 1;
    }
    let ghost start = walk_start(ks, es);
    assert(queue@ == start.0);
    proof {
        lemma_walk_start(ks, es);
        assert(queue@.subrange(0, queue@.len() as int) =~= queue@);
        assert(deg@ == start.2);
    }
    let mut order: Vec<usize> = Vec::new();
    let mut head: usize = 0;
    assert(order@ == start.1);
    while head < queue.len()
        invariant
            head <= queue.len(),
            n == ks.len(),
            ks == keys@,
            es == edges@,
            m == es.len(),
            edges_in_range(n as nat, es),
            walk_run(es, start, order@.len() as nat) == (queue@.subrange(head as int, queue@.len() as int), order@, deg@),
            walk_inv(n as nat, es, (queue@.subrange(head as int, queue@.len() as int), order@, deg@)),
        decreases n - order@.len(),
    {
        let ghost s = (queue@.subrange(head as int, queue@.len() as int), order@, deg@);
        proof {
            lemma_indices(s.1 + s.0, n as nat);
        }
        let u = queue[head];
        assert(u == s.0[0]);
        let ghost q0 = queue@.len();
        let ghost qb = queue@;
        let mut k: usize = 0;
        while k < m
            invariant
                k <= m,
                m == es.len(),
                n == ks.len(),
                ks == keys@,
                es == edges@,
            ks == keys@,
            es == edges@,
                edges_in_range(n as nat, es),
                walk_inv(n as nat, es, s),
                s.0.len() > 0,
                u == s.0[0],
                q0 <= queue@.len(),
                queue@.subrange(0, q0 as int) == qb,
                qb.len() == q0,
                queue@.len() == q0 + relax(es, u, s.2, k as int).1.len(),
                (deg@, queue@.subrange(q0 as int, queue@.len() as int)) == relax(es, u, s.2, k as int),
            decreases m - k,
        {
            let e = edges[k];
            if e.0 == u {
                proof {
                    lemma_relax(n as nat, es, s, k as int);
                    lemma_relax_positive(n as nat, es, s, k as int);
                }
                let d = deg[e.1];
                deg.set(e.1, d - 1);
                if d - 1 == 0 {
                    queue.push(e.1);
                }
            }
            k = k + 1;
            proof {
                assert(queue@.subrange(q0 as int, queue@.len() as int) =~= relax(es, u, s.2, k as int).1);
                assert(queue@.subrange(0, q0 as int) =~= qb);
            }
        }
        order.push(u);
        head = head + 1;
        proof {
            let t = walk_step(es, s);
            assert(queue@.subrange(head as int, queue@.len() as int) =~= t.0);
            assert(order@ =~= t.1);
            assert(deg@ == t.2);
            assert(t == (queue@.subrange(head as int, queue@.len() as int), order@, deg@));
            lemma_run_split(es, start, (order@.len() - 1) as nat, 1);
            assert(walk_run(es, s, 1) == walk_step(es, s)) by {
                reveal_with_fuel(walk_run, 2);
            }
            lemma_walk_step(n as nat, es, s);
        }
    }
    proof {
        let s = (queue@.subrange(head as int, queue@.len() as int), order@, deg@);
        lemma_indices(s.1 + s.0, n as nat);
        lemma_run(n as nat, es, s, (n - order@.len()) as nat);
        lemma_run_split(es, start, order@.len() as nat, (n - order@.len()) as nat);
    }
    order
}

/// Each node is visited after every node with an edge into it: for any edge
/// whose target stands at position `j` of the visiting order, its source
/// stands at an earlier position.
pub proof fn lemma_walk_respects_edges(keys: Seq<u32>, edges: Edges)
    requires
        edges_in_range(keys.len(), edges),
        keys.len() <= usize::MAX,
        edges.len() <= usize::MAX,
    ensures
        forall|k: int, j: int| 0 <= k < edges.len() && 0 <= j < walk_order(keys, edges).len()
            && #[trigger] walk_order(keys, edges)[j] == (#[trigger] edges[k]).1
            ==> exists|i: int| 0 <= i < j && walk_order(keys, edges)[i] == edges[k].0,
{
    lemma_walk_ends(keys, edges);
}

} // verus!
