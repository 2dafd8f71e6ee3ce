//! Dependency-respecting ordering of the nodes `0..n` of a graph, always taking the
//! lowest-numbered node whose dependencies are already placed.
use vstd::prelude::*;
use vstd::set_lib::{lemma_int_range, lemma_len_subset, set_int_range};

verus! {

/// Node `p` of `adj` is not yet placed in `done`, and every node it depends on is.
pub open spec fn ready(adj: Seq<Seq<usize>>, done: Seq<usize>, p: usize) -> bool {
    &&& p < adj.len()
    &&& !done.contains(p)
    &&& forall|k: int| 0 <= k < adj[p as int].len() ==> done.contains(#[trigger] adj[p as int][k])
}

/// The lowest node numbered `k` or more that is ready after `done`.
pub open spec fn first_ready(adj: Seq<Seq<usize>>, done: Seq<usize>, k: int) -> Option<usize>
    decreases adj.len() - k,
{
    if k < 0 || k >= adj.len() {
        None
    } else if ready(adj, done, k as usize) {
        Some(k as usize)
    } else {
        first_ready(adj, done, k + 1)
    }
}

/// `done` followed by the nodes placed one by one, each the lowest-numbered ready node,
/// until no node is ready.
pub open spec fn schedule_from(adj: Seq<Seq<usize>>, done: Seq<usize>) -> Seq<usize>
    decreases adj.len() - done.len(),
{
    if done.len() >= adj.len() {
        done
    } else {
        match first_ready(adj, done, 0) {
            Some(p) => schedule_from(adj, done.push(p)),
            None => done,
        }
    }
}

/// The placement order of the nodes of `adj`, starting from nothing placed.
pub open spec fn schedule(adj: Seq<Seq<usize>>) -> Seq<usize> {
    schedule_from(adj, seq![])
}

/// Node `q` stands in `order` before position `i`.
pub open spec fn placed_before(order: Seq<usize>, i: int, q: usize) -> bool {
    exists|j: int| 0 <= j < i && order[j] == q
}

/// Every dependency of each node of `order` comes earlier in `order`.
pub open spec fn respects_dependencies(adj: Seq<Seq<usize>>, order: Seq<usize>) -> bool {
    forall|i: int, k: int|
        #![trigger order[i], adj[order[i] as int][k]]
        0 <= i < order.len() && 0 <= k < adj[order[i] as int].len() ==> placed_before(
            order,
            i,
            adj[order[i] as int][k],
        )
}

/// `order` holds nodes of `adj`, each once.
pub open spec fn distinct_nodes(adj: Seq<Seq<usize>>, order: Seq<usize>) -> bool {
    &&& order.no_duplicates()
    &&& forall|i: int| 0 <= i < order.len() ==> #[trigger] order[i] < adj.len()
}

/// `order` places every node of `adj`, each once, after all of its dependencies.
pub open spec fn is_topological_order(adj: Seq<Seq<usize>>, order: Seq<usize>) -> bool {
    &&& distinct_nodes(adj, order)
    &&& forall|p: usize| p < adj.len() ==> order.contains(p)
    &&& respects_dependencies(adj, order)
}

/// The positions below `n` of nodes that `order` has not placed.
pub open spec fn unplaced(order: Seq<usize>, n: nat) -> Seq<usize>
    decreases n,
{
    if n == 0 {
        seq![]
    } else {
        let prev = unplaced(order, (n - 1) as nat);
        if order.contains((n - 1) as usize) {
            prev
        } else {
            prev.push((n - 1) as usize)
        }
    }
}

/// The nodes below `n` that `p` depends on and that `order` has not placed.
pub open spec fn unplaced_dependencies(adj: Seq<Seq<usize>>, order: Seq<usize>, p: int, n: nat) -> Seq<usize>
    decreases n,
{
    if n == 0 {
        seq![]
    } else {
        let prev = unplaced_dependencies(adj, order, p, (n - 1) as nat);
        if !order.contains((n - 1) as usize) && adj[p].contains((n - 1) as usize) {
            prev.push((n - 1) as usize)
        } else {
            prev
        }
    }
}

/// A node found ready is reported by `first_ready` from any lower start.
proof fn lemma_first_ready_finds(adj: Seq<Seq<usize>>, done: Seq<usize>, k: int, p: usize)
    requires
        adj.len() <= usize::MAX,
        0 <= k <= p,
        ready(adj, done, p),
    ensures
        first_ready(adj, done, k) is Some,
        first_ready(adj, done, k).unwrap() <= p,
        ready(adj, done, first_ready(adj, done, k).unwrap()),
    decreases p - k,
{
    if k < p && !ready(adj, done, k as usize) {
        lemma_first_ready_finds(adj, done, k + 1, p);
    }
}

/// What `first_ready` reports is ready, and no lower node from the start is.
proof fn lemma_first_ready_sound(adj: Seq<Seq<usize>>, done: Seq<usize>, k: int)
    requires
        adj.len() <= usize::MAX,
        0 <= k,
    ensures
        first_ready(adj, done, k) matches Some(p) ==> {
            &&& ready(adj, done, p)
            &&& k <= p
            &&& forall|q: usize| k <= q < p ==> !ready(adj, done, q)
        },
        first_ready(adj, done, k) is None ==> forall|q: usize| k <= q ==> !ready(adj, done, q),
    decreases adj.len() - k,
{
    if k < adj.len() && !ready(adj, done, k as usize) {
        lemma_first_ready_sound(adj, done, k + 1);
        if let Some(p) = first_ready(adj, done, k) {
            assert forall|q: usize| k <= q < p implies !ready(adj, done, q) by {
                if q > k {
                    assert(k + 1 <= q < p);
                }
            }
        } else {
            assert forall|q: usize| k <= q implies !ready(adj, done, q) by {
                if q > k {
                    assert(k + 1 <= q);
                }
            }
        }
    }
}

/// Placing a ready node keeps the placed nodes distinct, in range and after their
/// dependencies.
proof fn lemma_place_ready(adj: Seq<Seq<usize>>, done: Seq<usize>, p: usize)
    requires
        adj.len() <= usize::MAX,
        distinct_nodes(adj, done),
        respects_dependencies(adj, done),
        ready(adj, done, p),
    ensures
        distinct_nodes(adj, done.push(p)),
        respects_dependencies(adj, done.push(p)),
{
    let next = done.push(p);
    assert(next.no_duplicates()) by {
        assert forall|i: int, j: int|
            0 <= i < next.len() && 0 <= j < next.len() && i != j implies next[i] != next[j] by {
            if i == done.len() {
                assert(next[j] == done[j]);
            } else if j == done.len() {
                assert(next[i] == done[i]);
            } else {
                assert(next[i] == done[i] && next[j] == done[j]);
            }
        }
    }
    assert forall|i: int| 0 <= i < next.len() implies #[trigger] next[i] < adj.len() by {
        if i < done.len() {
            assert(next[i] == done[i]);
        }
    }
    assert forall|i: int, k: int|
        #![trigger next[i], adj[next[i] as int][k]]
        0 <= i < next.len() && 0 <= k < adj[next[i] as int].len() implies placed_before(
            next,
            i,
            adj[next[i] as int][k],
        ) by {
        if i < done.len() {
            assert(next[i] == done[i]);
            assert(placed_before(done, i, adj[done[i] as int][k]));
            let j = choose|j: int| 0 <= j < i && done[j] == adj[done[i] as int][k];
            assert(next[j] == done[j]);
        } else {
            assert(next[i] == p);
            assert(done.contains(adj[p as int][k]));
            let j = choose|j: int| 0 <= j < done.len() && done[j] == adj[p as int][k];
            assert(next[j] == done[j]);
        }
    }
    assert(respects_dependencies(adj, next));
}

/// Placing nodes keeps the placed nodes distinct, in range and after their dependencies,
/// and only ever extends what was placed.
proof fn lemma_schedule_from_shape(adj: Seq<Seq<usize>>, done: Seq<usize>)
    requires
        adj.len() <= usize::MAX,
        distinct_nodes(adj, done),
        respects_dependencies(adj, done),
    ensures
        distinct_nodes(adj, schedule_from(adj, done)),
        respects_dependencies(adj, schedule_from(adj, done)),
        schedule_from(adj, done).len() >= done.len(),
        schedule_from(adj, done).take(done.len() as int) == done,
        schedule_from(adj, done).len() < adj.len() ==> first_ready(
            adj,
            schedule_from(adj, done),
            0,
        ) is None,
    decreases adj.len() - done.len(),
{
    if done.len() >= adj.len() {
        assert(done.take(done.len() as int) =~= done);
    } else {
        match first_ready(adj, done, 0) {
            Some(p) => {
                lemma_first_ready_sound(adj, done, 0);
                let next = done.push(p);
                lemma_place_ready(adj, done, p);
                lemma_schedule_from_shape(adj, next);
                let r = schedule_from(adj, next);
                assert(r.take(done.len() as int) =~= r.take(next.len() as int).take(
                    done.len() as int,
                ));
                assert(next.take(done.len() as int) =~= done);
            },
            None => {
                assert(done.take(done.len() as int) =~= done);
            },
        }
    }
}

/// A sequence of distinct nodes below `n` that contains every node below `n` has length
/// exactly `n`, and one shorter than `n` misses some node.
pub(crate) proof fn lemma_distinct_nodes_cover(adj: Seq<Seq<usize>>, order: Seq<usize>)
    requires
        distinct_nodes(adj, order),
        adj.len() <= usize::MAX,
    ensures
        order.len() <= adj.len(),
        order.len() == adj.len() ==> forall|p: usize| p < adj.len() ==> order.contains(p),
        order.len() < adj.len() ==> exists|p: usize| p < adj.len() && !order.contains(p),
{
    let n = adj.len() as int;
    let range = set_int_range(0, n);
    let placed = Set::new(|x: int| exists|i: int| 0 <= i < order.len() && order[i] as int == x);
    let idx = Seq::new(order.len(), |i: int| order[i] as int);
    assert(idx.no_duplicates()) by {
        assert forall|i: int, j: int| 0 <= i < idx.len() && 0 <= j < idx.len() && i != j implies idx[i]
            != idx[j] by {
            assert(order[i] != order[j]);
        }
    }
    idx.unique_seq_to_set();
    assert(idx.to_set() =~= placed) by {
        assert forall|x: int| placed.contains(x) implies idx.to_set().contains(x) by {
            let i = choose|i: int| 0 <= i < order.len() && order[i] as int == x;
            assert(idx[i] == x);
        }
    }
    lemma_int_range(0, n);
    assert(placed.subset_of(range)) by {
        assert forall|x: int| placed.contains(x) implies range.contains(x) by {
            let i = choose|i: int| 0 <= i < order.len() && order[i] as int == x;
            assert(order[i] < adj.len());
        }
    }
    lemma_len_subset(placed, range);
    if order.len() == adj.len() {
        assert forall|p: usize| p < adj.len() implies order.contains(p) by {
            if !placed.contains(p as int) {
                lemma_len_subset(placed, range.remove(p as int));
                assert(placed.subset_of(range.remove(p as int)));
            } else {
                let i = choose|i: int| 0 <= i < order.len() && order[i] as int == p as int;
                assert(order[i] == p);
            }
        }
    }
    if order.len() < adj.len() {
        if forall|p: usize| p < adj.len() ==> order.contains(p) {
            assert(range.subset_of(placed)) by {
                assert forall|x: int| range.contains(x) implies placed.contains(x) by {
                    assert(order.contains(x as usize));
                    let i = choose|i: int| 0 <= i < order.len() && order[i] == x as usize;
                }
            }
            lemma_len_subset(range, placed);
        }
    }
}

/// The schedule places each node at most once, only nodes of the graph, and every node
/// after all of the nodes it depends on.
pub proof fn lemma_schedule_respects_dependencies(adj: Seq<Seq<usize>>)
    requires
        adj.len() <= usize::MAX,
    ensures
        distinct_nodes(adj, schedule(adj)),
        respects_dependencies(adj, schedule(adj)),
        schedule(adj).len() <= adj.len(),
{
    lemma_schedule_from_shape(adj, seq![]);
    lemma_distinct_nodes_cover(adj, schedule(adj));
}

/// When the schedule places as many nodes as the graph has, it is a topological order:
/// every node is placed, once, after its dependencies.
pub proof fn lemma_full_schedule_is_topological(adj: Seq<Seq<usize>>)
    requires
        adj.len() <= usize::MAX,
        schedule(adj).len() == adj.len(),
    ensures
        is_topological_order(adj, schedule(adj)),
{
    lemma_schedule_from_shape(adj, seq![]);
    lemma_distinct_nodes_cover(adj, schedule(adj));
}

/// When the schedule stops short, the graph has no topological order at all: its
/// dependencies hold a cycle.
pub proof fn lemma_short_schedule_means_cycle(adj: Seq<Seq<usize>>, order: Seq<usize>)
    requires
        adj.len() <= usize::MAX,
        schedule(adj).len() < adj.len(),
    ensures
        !is_topological_order(adj, order),
{
    let s = schedule(adj);
    lemma_schedule_from_shape(adj, seq![]);
    lemma_distinct_nodes_cover(adj, s);
    if is_topological_order(adj, order) {
        let p = choose|p: usize| p < adj.len() && !s.contains(p);
        assert(order.contains(p));
        let ip = choose|i: int| 0 <= i < order.len() && order[i] == p;
        let i = lemma_first_unplaced(s, order, ip);
        let x = order[i];
        assert(x < adj.len());
        assert forall|k: int| 0 <= k < adj[x as int].len() implies s.contains(
            #[trigger] adj[x as int][k],
        ) by {
            assert(placed_before(order, i, adj[order[i] as int][k]));
            let j = choose|j: int| 0 <= j < i && order[j] == adj[order[i] as int][k];
            assert(s.contains(order[j]));
        }
        assert(ready(adj, s, x));
        lemma_first_ready_finds(adj, s, 0, x);
    }
}

/// Some position of `order` at or before `ip` holds a node missing from `s`, and all
/// positions before it hold nodes of `s`.
proof fn lemma_first_unplaced(s: Seq<usize>, order: Seq<usize>, ip: int) -> (i: int)
    requires
        0 <= ip < order.len(),
        !s.contains(order[ip]),
    ensures
        0 <= i <= ip,
        !s.contains(order[i]),
        forall|j: int| 0 <= j < i ==> s.contains(#[trigger] order[j]),
    decreases ip,
{
    if forall|j: int| 0 <= j < ip ==> s.contains(#[trigger] order[j]) {
        ip
    } else {
        let j = choose|j: int| 0 <= j < ip && !s.contains(#[trigger] order[j]);
        lemma_first_unplaced(s, order, j)
    }
}

/// The placement order of the nodes `0..adj.len()`, each taken as the lowest-numbered node
/// whose dependencies (the entries of `adj` at its index) are all placed; it stops when no
/// node is ready.
pub fn schedule_nodes(adj: &Vec<Vec<usize>>) -> (order: Vec<usize>)
    ensures
        order@ == schedule(adj.deep_view()),
{
    let ghost g = adj.deep_view();
    let n = adj.len();
    let mut order: Vec<usize> = Vec::new();
    let mut placed: Vec<bool> = Vec::new();
    let mut z: usize = 0;
    while z < n
        invariant
            z <= n,
            placed@.len() == z,
            forall|q: int| 0 <= q < z ==> !placed@[q],
        decreases n - z,
    {
        placed.push(false);
        z = z + 1;
    }
    proof {
        lemma_schedule_from_shape(g, seq![]);
    }
    assert(g.len() == n);
    loop
        invariant
            n == adj.len(),
            g == adj.deep_view(),
            g.len() == n,
            placed@.len() == n,
            schedule(g) == schedule_from(g, order@),
            distinct_nodes(g, order@),
            respects_dependencies(g, order@),
            forall|q: int| 0 <= q < n ==> placed@[q] == order@.contains(q as usize),
        ensures
            order@ == schedule(adj.deep_view()),
        decreases n - order@.len(),
    {
        proof {
            lemma_distinct_nodes_cover(g, order@);
        }
        if order.len() >= n {
            assert(schedule_from(g, order@) == order@);
            break;
        }
        let ghost done = order@;
        assert(forall|q: usize| n <= q ==> !done.contains(q));
        let mut p: usize = 0;
        let mut found = false;
        while p < n
            invariant_except_break
                !found,
            invariant
                n == adj.len(),
                g == adj.deep_view(),
                g.len() == n,
                placed@.len() == n,
                done == order@,
                p <= n,
                forall|q: int| 0 <= q < n ==> placed@[q] == done.contains(q as usize),
                forall|q: usize| n <= q ==> !done.contains(q),
                first_ready(g, done, 0) == first_ready(g, done, p as int),
            ensures
                found ==> p < n && ready(g, done, p),
                !found ==> p >= n,
            decreases n - p,
        {
            let mut ok = !placed[p];
            let deps = &adj[p];
            let m = deps.len();
            let mut k: usize = 0;
            assert(g[p as int] == deps@);
            while k < m && ok
                invariant
                    n == adj.len(),
                    placed@.len() == n,
                    forall|q: int| 0 <= q < n ==> placed@[q] == done.contains(q as usize),
                    forall|q: usize| n <= q ==> !done.contains(q),
                    m == deps@.len(),
                    k <= m,
                    p < n,
                    ok ==> !done.contains(p) && forall|t: int| 0 <= t < k ==> done.contains(
                        #[trigger] deps@[t],
                    ),
                    !ok ==> !(!done.contains(p) && forall|t: int| 0 <= t < m ==> done.contains(
                        #[trigger] deps@[t],
                    )),
                decreases m - k,
            {
                let q = deps[k];
                if q >= n || !placed[q] {
                    ok = false;
                }
                k = k + 1;
            }
            assert(ok == ready(g, done, p));
            if ok {
                found = true;
                break;
            }
            p = p + 1;
        }
        if !found {
            assert(first_ready(g, done, n as int) is None);
            assert(schedule_from(g, order@) == order@);
            break;
        }
        assert(first_ready(g, done, 0) == Some(p));
        proof {
            lemma_place_ready(g, done, p);
        }
        order.push(p);
        placed.set(p, true);
        assert forall|q: int| 0 <= q < n implies placed@[q] == order@.contains(q as usize) by {
            if q == p {
                assert(order@[done.len() as int] == p);
            } else {
                assert(order@.contains(q as usize) ==> done.contains(q as usize)) by {
                    if order@.contains(q as usize) {
                        let i = choose|i: int| 0 <= i < order@.len() && order@[i] == q as usize;
                        assert(i < done.len());
                        assert(done[i] == q as usize);
                    }
                }
                assert(done.contains(q as usize) ==> order@.contains(q as usize)) by {
                    if done.contains(q as usize) {
                        let i = choose|i: int| 0 <= i < done.len() && done[i] == q as usize;
                        assert(order@[i] == q as usize);
                    }
                }
            }
        }
        assert(schedule_from(g, done) == schedule_from(g, order@));
    }
    order
}


/// A node is left unplaced below `n` exactly when it is below `n` and missing from `order`.
pub proof fn lemma_unplaced_contains(order: Seq<usize>, n: nat, x: usize)
    requires
        n <= usize::MAX,
    ensures
        unplaced(order, n).contains(x) <==> (x < n && !order.contains(x)),
    decreases n,
{
    if n > 0 {
        lemma_unplaced_contains(order, (n - 1) as nat, x);
        let prev = unplaced(order, (n - 1) as nat);
        let r = unplaced(order, n);
        if !order.contains((n - 1) as usize) {
            assert(r == prev.push((n - 1) as usize));
            if prev.contains(x) {
                let k = choose|k: int| 0 <= k < prev.len() && prev[k] == x;
                assert(r[k] == x);
            }
            if x == n - 1 {
                assert(r[prev.len() as int] == x);
            }
            if r.contains(x) && x != n - 1 {
                let k = choose|k: int| 0 <= k < r.len() && r[k] == x;
                assert(k < prev.len());
                assert(prev[k] == x);
            }
        }
    }
}

/// A node is among the unplaced dependencies of `p` below `n` exactly when it is below `n`,
/// missing from `order` and a dependency of `p`.
pub proof fn lemma_unplaced_dependencies_contains(adj: Seq<Seq<usize>>, order: Seq<usize>, p: int, n: nat, x: usize)
    requires
        n <= usize::MAX,
    ensures
        unplaced_dependencies(adj, order, p, n).contains(x) <==> (x < n && !order.contains(x)
            && adj[p].contains(x)),
    decreases n,
{
    if n > 0 {
        lemma_unplaced_dependencies_contains(adj, order, p, (n - 1) as nat, x);
        let prev = unplaced_dependencies(adj, order, p, (n - 1) as nat);
        let r = unplaced_dependencies(adj, order, p, n);
        if !order.contains((n - 1) as usize) && adj[p].contains((n - 1) as usize) {
            assert(r == prev.push((n - 1) as usize));
            if prev.contains(x) {
                let k = choose|k: int| 0 <= k < prev.len() && prev[k] == x;
                assert(r[k] == x);
            }
            if x == n - 1 {
                assert(r[prev.len() as int] == x);
            }
            if r.contains(x) && x != n - 1 {
                let k = choose|k: int| 0 <= k < r.len() && r[k] == x;
                assert(k < prev.len());
                assert(prev[k] == x);
            }
        }
    }
}

/// When the schedule stops short, every node it leaves out depends on some node it also
/// leaves out: none of them was free to go.
pub proof fn lemma_unplaced_node_waits(adj: Seq<Seq<usize>>, x: usize)
    requires
        adj.len() <= usize::MAX,
        schedule(adj).len() < adj.len(),
        x < adj.len(),
        !schedule(adj).contains(x),
    ensures
        exists|k: int| 0 <= k < adj[x as int].len() && !schedule(adj).contains(#[trigger] adj[x as int][k]),
{
    let s = schedule(adj);
    lemma_schedule_from_shape(adj, seq![]);
    if forall|k: int| 0 <= k < adj[x as int].len() ==> s.contains(#[trigger] adj[x as int][k]) {
        assert(ready(adj, s, x));
        lemma_first_ready_finds(adj, s, 0, x);
    }
}
} // verus!
