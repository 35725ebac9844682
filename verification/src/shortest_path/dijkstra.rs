//! Dijkstra's algorithm over a graph's directed edges, from an edge's
//! `incoming` node to its `outgoing` node, with the proof that the path it
//! returns is a cheapest route and that it returns none only where no route
//! exists.
use vstd::prelude::*;
use std::collections::HashMap;
use std::collections::HashSet;
use crate::graph::{Graph, lemma_distinct_nodes_bounded, links};
use crate::shortest_path::bfs::{is_walk, reachable, step, walk_to};

verus! {

broadcast use vstd::std_specs::hash::group_hash_axioms;

/// Edge `es[i]` ends where edge `es[i + 1]` starts.
pub open spec fn joins(g: &Graph, es: Seq<int>, i: int) -> bool {
    g.edges@[es[i]].outgoing == g.edges@[es[i + 1]].incoming
}

/// `es` lists indices of edges that lead, one after another, from `a` to `b`;
/// the empty list leads from a node to itself.
pub open spec fn is_route(g: &Graph, a: u128, b: u128, es: Seq<int>) -> bool {
    &&& forall|i: int| 0 <= i < es.len() ==> 0 <= #[trigger] es[i] < g.edges@.len()
    &&& forall|i: int| 0 <= i < es.len() - 1 ==> #[trigger] joins(g, es, i)
    &&& es.len() == 0 ==> a == b
    &&& es.len() > 0 ==> g.edges@[es[0]].incoming == a && g.edges@[es.last()].outgoing == b
}

/// The summed weight of the edges of a route.
pub open spec fn route_cost(g: &Graph, es: Seq<int>) -> nat
    decreases es.len(),
{
    if es.len() == 0 {
        0
    } else {
        route_cost(g, es.drop_last()) + g.edges@[es.last()].meta.weight as nat
    }
}

/// The nodes a route from `a` passes through: `a`, then the end of each edge.
pub open spec fn route_nodes(g: &Graph, a: u128, es: Seq<int>) -> Seq<u128> {
    seq![a] + es.map_values(|j: int| g.edges@[j].outgoing)
}

/// Some route leads from `a` to `b`.
pub open spec fn connected(g: &Graph, a: u128, b: u128) -> bool {
    exists|es: Seq<int>| #[trigger] is_route(g, a, b, es)
}

/// `es` is a route from `a` to `b` that no other route from `a` to `b` undercuts.
pub open spec fn cheapest(g: &Graph, a: u128, b: u128, es: Seq<int>) -> bool {
    is_route(g, a, b, es) && forall|other: Seq<int>| #[trigger]
        is_route(g, a, b, other) ==> route_cost(g, es) <= route_cost(g, other)
}

proof fn lemma_route_push(g: &Graph, a: u128, b: u128, es: Seq<int>, j: int)
    requires
        is_route(g, a, b, es),
        0 <= j < g.edges@.len(),
        g.edges@[j].incoming == b,
    ensures
        is_route(g, a, g.edges@[j].outgoing, es.push(j)),
        route_cost(g, es.push(j)) == route_cost(g, es) + g.edges@[j].meta.weight,
{
    let f = es.push(j);
    assert(f.drop_last() =~= es);
    assert forall|i: int| 0 <= i < f.len() - 1 implies #[trigger] joins(g, f, i) by {
        if i < es.len() - 1 {
            assert(joins(g, es, i));
        }
    }
}

proof fn lemma_route_drop(g: &Graph, a: u128, b: u128, es: Seq<int>)
    requires
        is_route(g, a, b, es),
        es.len() > 0,
    ensures
        is_route(g, a, g.edges@[es.last()].incoming, es.drop_last()),
        route_cost(g, es) == route_cost(g, es.drop_last()) + g.edges@[es.last()].meta.weight,
{
    let f = es.drop_last();
    assert forall|i: int| 0 <= i < f.len() - 1 implies #[trigger] joins(g, f, i) by {
        assert(joins(g, es, i));
    }
    if f.len() > 0 {
        assert(joins(g, es, es.len() - 2));
    }
}

proof fn lemma_route_prepend(g: &Graph, b: u128, c: u128, j: int, es: Seq<int>)
    requires
        is_route(g, b, c, es),
        0 <= j < g.edges@.len(),
        g.edges@[j].outgoing == b,
    ensures
        is_route(g, g.edges@[j].incoming, c, seq![j] + es),
        route_cost(g, seq![j] + es) == g.edges@[j].meta.weight + route_cost(g, es),
    decreases es.len(),
{
    let f = seq![j] + es;
    assert forall|i: int| 0 <= i < f.len() - 1 implies #[trigger] joins(g, f, i) by {
        if i > 0 {
            assert(joins(g, es, i - 1));
        }
    }
    assert forall|i: int| 0 <= i < f.len() implies 0 <= #[trigger] f[i] < g.edges@.len() by {
        if i > 0 {
            assert(f[i] == es[i - 1]);
        }
    }
    if es.len() == 0 {
        assert(f.drop_last() =~= Seq::<int>::empty());
        assert(f.last() == j);
        assert(route_cost(g, f) == route_cost(g, f.drop_last()) + g.edges@[j].meta.weight);
        assert(route_cost(g, f.drop_last()) == 0);
    } else {
        lemma_route_drop(g, b, c, es);
        lemma_route_prepend(g, b, g.edges@[es.last()].incoming, j, es.drop_last());
        assert(f.drop_last() =~= seq![j] + es.drop_last());
        assert(f.last() == es.last());
        assert(route_cost(g, f) == route_cost(g, f.drop_last()) + g.edges@[es.last()].meta.weight);
    }
}


/// `order` lists the settled nodes in the order they were settled, and `rank`
/// gives each its place in that list.
spec fn ranked(vis: Set<u128>, order: Seq<u128>, rank: Map<u128, nat>) -> bool {
    &&& forall|x: u128| #![trigger vis.contains(x)] #![trigger rank.contains_key(x)] vis.contains(x) <==> rank.contains_key(x)
    &&& forall|x: u128| #[trigger] rank.contains_key(x) ==> rank[x] < order.len() && order[rank[x] as int] == x
    &&& forall|i: int| 0 <= i < order.len() ==> #[trigger] rank.contains_key(order[i]) && rank[order[i]] == i
}

/// Edge `j` leads from `a` to `b`, and `b`'s distance is `a`'s plus the edge's weight.
spec fn feeds(g: &Graph, dist: Map<u128, u128>, j: int, a: u128, b: u128) -> bool {
    &&& 0 <= j < g.edges@.len()
    &&& g.edges@[j].incoming == a
    &&& g.edges@[j].outgoing == b
    &&& dist.contains_key(a)
    &&& dist.contains_key(b)
    &&& dist[b] == dist[a] + g.edges@[j].meta.weight
}

/// The queue holds the entry `(n, d)`.
spec fn queued(q: Seq<(u128, u128)>, n: u128, d: u128) -> bool {
    exists|i: int| 0 <= i < q.len() && #[trigger] q[i] == (n, d)
}

/// No route from `s` to `x` costs less than `x`'s distance.
spec fn optimal(g: &Graph, s: u128, dist: Map<u128, u128>, x: u128) -> bool {
    forall|es: Seq<int>| #[trigger] is_route(g, s, x, es) ==> dist[x] <= route_cost(g, es)
}

/// Each of the first `k` edges that leaves `x` ends at a node whose distance is
/// at most `x`'s plus the edge's weight.
spec fn relaxed(g: &Graph, dist: Map<u128, u128>, x: u128, k: int) -> bool {
    forall|j: int|
        0 <= j < k && (#[trigger] g.edges@[j]).incoming == x ==> dist.contains_key(g.edges@[j].outgoing)
            && dist[g.edges@[j].outgoing] <= dist[x] + g.edges@[j].meta.weight
}

/// What holds of the search's state between steps: tentative distances `dist`,
/// the node each was reached from `prev`, the settled nodes `vis` (in settling
/// order `order`, with places `rank`) and the queue `q` of (node, distance)
/// entries.
spec fn search_state(
    g: &Graph,
    s: u128,
    dist: Map<u128, u128>,
    prev: Map<u128, u128>,
    vis: Set<u128>,
    q: Seq<(u128, u128)>,
    order: Seq<u128>,
    rank: Map<u128, nat>,
) -> bool {
    &&& ranked(vis, order, rank)
    &&& order.len() <= g.nodes@.len() + 1
    &&& dist.contains_key(s) && dist[s] == 0
    &&& forall|n: u128| #[trigger]
        dist.contains_key(n) ==> (n == s || g.has(n)) && (n != s ==> prev.contains_key(n)) && dist[n]
            <= order.len() * (u32::MAX as int)
    &&& forall|n: u128| #[trigger]
        prev.contains_key(n) ==> dist.contains_key(n) && n != s && vis.contains(prev[n]) && (vis.contains(n)
            ==> rank[prev[n]] < rank[n]) && exists|j: int| #[trigger] feeds(g, dist, j, prev[n], n)
    &&& forall|x: u128| #[trigger] vis.contains(x) ==> dist.contains_key(x) && optimal(g, s, dist, x)
    &&& forall|i: int| 0 <= i < q.len() ==> dist.contains_key((#[trigger] q[i]).0) && q[i].1 >= dist[q[i].0]
    &&& forall|n: u128| #[trigger] dist.contains_key(n) && !vis.contains(n) ==> queued(q, n, dist[n])
    &&& !vis.contains(s) ==> order.len() == 0 && q == seq![(s, 0u128)]
    &&& order.len() > 0 ==> order[0] == s
}

/// Every settled node has all of its edges relaxed.
spec fn all_relaxed(g: &Graph, dist: Map<u128, u128>, vis: Set<u128>) -> bool {
    forall|x: u128| #[trigger] vis.contains(x) ==> relaxed(g, dist, x, g.edges@.len() as int)
}

/// At most one settled node per node of the graph, and the start.
proof fn lemma_order_bounded(g: &Graph, s: u128, dist: Map<u128, u128>, vis: Set<u128>, order: Seq<u128>, rank: Map<u128, nat>)
    requires
        g.wf(),
        ranked(vis, order, rank),
        order.len() > 0 ==> order[0] == s,
        forall|x: u128| #[trigger] vis.contains(x) ==> dist.contains_key(x),
        forall|n: u128| #[trigger] dist.contains_key(n) ==> n == s || g.has(n),
    ensures
        order.len() <= g.nodes@.len() + 1,
{
    if order.len() > 0 {
        let rest = order.skip(1);
        assert forall|i: int, k: int| 0 <= i < rest.len() && 0 <= k < rest.len() && i != k implies rest[i] != rest[k] by {
            assert(rank.contains_key(order[i + 1]) && rank.contains_key(order[k + 1]));
        }
        assert forall|i: int| 0 <= i < rest.len() implies g.has(#[trigger] rest[i]) by {
            assert(rank.contains_key(order[i + 1]));
            assert(vis.contains(order[i + 1]));
            assert(rank.contains_key(order[0]));
        }
        lemma_distinct_nodes_bounded(g, rest);
    }
}

/// Following `prev` back from a settled node gives a route from the start that
/// costs exactly the node's distance.
proof fn lemma_chain_route(
    g: &Graph,
    s: u128,
    dist: Map<u128, u128>,
    prev: Map<u128, u128>,
    vis: Set<u128>,
    q: Seq<(u128, u128)>,
    order: Seq<u128>,
    rank: Map<u128, nat>,
    x: u128,
) -> (es: Seq<int>)
    requires
        search_state(g, s, dist, prev, vis, q, order, rank),
        vis.contains(x),
    ensures
        is_route(g, s, x, es),
        route_cost(g, es) == dist[x],
    decreases rank[x],
{
    if x == s {
        let es = Seq::<int>::empty();
        es
    } else {
        assert(dist.contains_key(x));
        assert(prev.contains_key(x));
        let p = prev[x];
        let j = choose|j: int| #[trigger] feeds(g, dist, j, p, x);
        assert(rank.contains_key(x) && rank.contains_key(p));
        let ep = lemma_chain_route(g, s, dist, prev, vis, q, order, rank, p);
        lemma_route_push(g, s, p, ep, j);
        ep.push(j)
    }
}

/// A route from a settled start to an unsettled node, when every settled node
/// is relaxed, passes an unsettled node whose distance is at most the route's cost.
proof fn lemma_crossing(g: &Graph, s: u128, dist: Map<u128, u128>, vis: Set<u128>, u: u128, es: Seq<int>) -> (y: u128)
    requires
        is_route(g, s, u, es),
        vis.contains(s),
        !vis.contains(u),
        forall|x: u128| #[trigger] vis.contains(x) ==> dist.contains_key(x) && optimal(g, s, dist, x),
        all_relaxed(g, dist, vis),
    ensures
        !vis.contains(y),
        dist.contains_key(y),
        dist[y] <= route_cost(g, es),
    decreases es.len(),
{
    let j = es.last();
    let x = g.edges@[j].incoming;
    lemma_route_drop(g, s, u, es);
    if vis.contains(x) {
        assert(relaxed(g, dist, x, g.edges@.len() as int));
        assert(g.edges@[j].incoming == x);
        assert(optimal(g, s, dist, x));
        assert(is_route(g, s, x, es.drop_last()));
        u
    } else {
        lemma_crossing(g, s, dist, vis, x, es.drop_last())
    }
}


/// An entry of the queue stays queued when another entry is taken out.
proof fn lemma_queued_remove(q: Seq<(u128, u128)>, i: int, n: u128, d: u128)
    requires
        0 <= i < q.len(),
        queued(q, n, d),
        q[i].0 != n,
    ensures
        queued(q.remove(i), n, d),
{
    let k = choose|k: int| 0 <= k < q.len() && #[trigger] q[k] == (n, d);
    let r = q.remove(i);
    if k < i {
        assert(r[k] == (n, d));
    } else {
        assert(r[k - 1] == (n, d));
    }
}

/// Taking out an entry for a node already settled keeps the state.
proof fn lemma_skip(
    g: &Graph,
    s: u128,
    dist: Map<u128, u128>,
    prev: Map<u128, u128>,
    vis: Set<u128>,
    q: Seq<(u128, u128)>,
    order: Seq<u128>,
    rank: Map<u128, nat>,
    i: int,
)
    requires
        search_state(g, s, dist, prev, vis, q, order, rank),
        0 <= i < q.len(),
        vis.contains(q[i].0),
    ensures
        search_state(g, s, dist, prev, vis, q.remove(i), order, rank),
{
    let r = q.remove(i);
    assert forall|k: int| 0 <= k < r.len() implies dist.contains_key((#[trigger] r[k]).0) && r[k].1 >= dist[r[k].0] by {
        if k < i {
            assert(r[k] == q[k]);
        } else {
            assert(r[k] == q[k + 1]);
        }
    }
    assert forall|n: u128| #[trigger] dist.contains_key(n) && !vis.contains(n) implies queued(r, n, dist[n]) by {
        lemma_queued_remove(q, i, n, dist[n]);
    }
}

/// Taking out an entry of least distance for a node not yet settled: its
/// distance is the node's, no route to the node costs less, and settling the
/// node keeps the state.
proof fn lemma_settle(
    g: &Graph,
    s: u128,
    dist: Map<u128, u128>,
    prev: Map<u128, u128>,
    vis: Set<u128>,
    q: Seq<(u128, u128)>,
    order: Seq<u128>,
    rank: Map<u128, nat>,
    i: int,
)
    requires
        g.wf(),
        search_state(g, s, dist, prev, vis, q, order, rank),
        all_relaxed(g, dist, vis),
        0 <= i < q.len(),
        forall|k: int| 0 <= k < q.len() ==> q[i].1 <= (#[trigger] q[k]).1,
        !vis.contains(q[i].0),
    ensures
        dist.contains_key(q[i].0),
        q[i].1 == dist[q[i].0],
        dist[q[i].0] <= order.len() * (u32::MAX as int),
        search_state(
            g,
            s,
            dist,
            prev,
            vis.insert(q[i].0),
            q.remove(i),
            order.push(q[i].0),
            rank.insert(q[i].0, order.len()),
        ),
{
    let u = q[i].0;
    let d = q[i].1;
    assert(dist.contains_key(u));
    assert(queued(q, u, dist[u]));
    let ku = choose|k: int| 0 <= k < q.len() && #[trigger] q[k] == (u, dist[u]);
    assert(q[ku] == (u, dist[u]));
    assert(d == dist[u]);
    assert(optimal(g, s, dist, u)) by {
        assert forall|es: Seq<int>| #[trigger] is_route(g, s, u, es) implies dist[u] <= route_cost(g, es) by {
            if vis.contains(s) {
                let y = lemma_crossing(g, s, dist, vis, u, es);
                assert(queued(q, y, dist[y]));
                let ky = choose|k: int| 0 <= k < q.len() && #[trigger] q[k] == (y, dist[y]);
                assert(q[ky] == (y, dist[y]));
            } else {
                assert(q[0] == (s, 0u128));
            }
        }
    }
    let vis2 = vis.insert(u);
    let q2 = q.remove(i);
    let order2 = order.push(u);
    let rank2 = rank.insert(u, order.len());
    if !vis.contains(s) {
        assert(q[0] == (s, 0u128));
        assert(u == s);
    }
    assert(!rank.contains_key(u));
    assert(ranked(vis2, order2, rank2)) by {
        assert forall|x: u128| #[trigger] vis2.contains(x) <==> rank2.contains_key(x) by {
            assert(vis.contains(x) <==> rank.contains_key(x));
        }
        assert forall|x: u128| #[trigger] rank2.contains_key(x) implies rank2[x] < order2.len() && order2[rank2[x] as int]
            == x by {
            if x != u {
                assert(rank.contains_key(x));
            }
        }
        assert forall|k: int| 0 <= k < order2.len() implies #[trigger] rank2.contains_key(order2[k]) && rank2[order2[k]]
            == k by {
            if k < order.len() {
                assert(rank.contains_key(order[k]));
                assert(order2[k] == order[k]);
            }
        }
    }
    assert(order2.len() > 0 ==> order2[0] == s);
    assert(forall|n: u128| #[trigger] dist.contains_key(n) ==> n == s || g.has(n));
    lemma_order_bounded(g, s, dist, vis2, order2, rank2);
    assert(order.len() * (u32::MAX as int) <= order2.len() * (u32::MAX as int)) by (nonlinear_arith)
        requires order2.len() == order.len() + 1;
    assert forall|n: u128| #[trigger] prev.contains_key(n) implies dist.contains_key(n) && n != s && vis2.contains(prev[n])
        && (vis2.contains(n) ==> rank2[prev[n]] < rank2[n]) && exists|j: int| #[trigger] feeds(g, dist, j, prev[n], n) by {
        assert(vis.contains(prev[n]));
        assert(rank.contains_key(prev[n]));
    }
    assert forall|k: int| 0 <= k < q2.len() implies dist.contains_key((#[trigger] q2[k]).0) && q2[k].1 >= dist[q2[k].0] by {
        if k < i {
            assert(q2[k] == q[k]);
        } else {
            assert(q2[k] == q[k + 1]);
        }
    }
    assert forall|n: u128| #[trigger] dist.contains_key(n) && !vis2.contains(n) implies queued(q2, n, dist[n]) by {
        lemma_queued_remove(q, i, n, dist[n]);
    }
}


/// Lowering the distance of the end of an edge that leaves the node settled
/// last, when the edge gives a cheaper way there, keeps the state; the end is
/// not settled, and every other node's relaxed edges stay relaxed.
proof fn lemma_improve(
    g: &Graph,
    s: u128,
    dist: Map<u128, u128>,
    prev: Map<u128, u128>,
    vis: Set<u128>,
    q: Seq<(u128, u128)>,
    order: Seq<u128>,
    rank: Map<u128, nat>,
    u: u128,
    j: int,
)
    requires
        g.wf(),
        search_state(g, s, dist, prev, vis, q, order, rank),
        vis.contains(u),
        dist[u] + u32::MAX <= order.len() * (u32::MAX as int),
        0 <= j < g.edges@.len(),
        g.edges@[j].incoming == u,
        !dist.contains_key(g.edges@[j].outgoing) || dist[u] + g.edges@[j].meta.weight < dist[g.edges@[j].outgoing],
    ensures
        ({
            let nb = g.edges@[j].outgoing;
            let nd = (dist[u] + g.edges@[j].meta.weight) as u128;
            &&& !vis.contains(nb)
            &&& search_state(g, s, dist.insert(nb, nd), prev.insert(nb, u), vis, q.push((nb, nd)), order, rank)
            &&& forall|x: u128, k: int| x != nb && #[trigger] relaxed(g, dist, x, k) ==> relaxed(g, dist.insert(nb, nd), x, k)
        }),
{
    let nb = g.edges@[j].outgoing;
    let w = g.edges@[j].meta.weight;
    assert(g.nodes@.len() == g.nodes.len());
    assert(order.len() * (u32::MAX as int) <= 0x1_0000_0000_0000_0000 * (u32::MAX as int)) by (nonlinear_arith)
        requires
            order.len() <= 0x1_0000_0000_0000_0000,
    ;
    assert(dist[u] + w < 0x1_0000_0000_0000_0000_0000_0000_0000_0000);
    let nd = (dist[u] + w) as u128;
    assert(nd == dist[u] + w);
    let dist2 = dist.insert(nb, nd);
    let prev2 = prev.insert(nb, u);
    let q2 = q.push((nb, nd));
    assert(dist.contains_key(u));
    assert(rank.contains_key(u));
    assert(rank.contains_key(order[0]));
    assert(vis.contains(s));
    if vis.contains(nb) {
        let es = lemma_chain_route(g, s, dist, prev, vis, q, order, rank, u);
        lemma_route_push(g, s, u, es, j);
        assert(optimal(g, s, dist, nb));
        assert(is_route(g, s, nb, es.push(j)));
    }
    assert(g.has(nb));
    assert(nb != s);
    assert forall|n: u128| #[trigger] dist2.contains_key(n) implies (n == s || g.has(n)) && (n != s ==> prev2.contains_key(n))
        && dist2[n] <= order.len() * (u32::MAX as int) by {
        if n != nb {
            assert(dist.contains_key(n));
        }
    }
    assert forall|n: u128| #[trigger] prev2.contains_key(n) implies dist2.contains_key(n) && n != s && vis.contains(prev2[n])
        && (vis.contains(n) ==> rank[prev2[n]] < rank[n]) && exists|jj: int| #[trigger] feeds(g, dist2, jj, prev2[n], n) by {
        if n == nb {
            assert(feeds(g, dist2, j, u, nb));
        } else {
            assert(prev.contains_key(n));
            let jj = choose|jj: int| #[trigger] feeds(g, dist, jj, prev[n], n);
            assert(vis.contains(prev[n]));
            assert(feeds(g, dist2, jj, prev2[n], n));
        }
    }
    assert forall|x: u128| #[trigger] vis.contains(x) implies dist2.contains_key(x) && optimal(g, s, dist2, x) by {
        assert(optimal(g, s, dist, x));
        assert(dist2[x] == dist[x]);
    }
    assert forall|k: int| 0 <= k < q2.len() implies dist2.contains_key((#[trigger] q2[k]).0) && q2[k].1 >= dist2[q2[k].0] by {
        if k < q.len() {
            assert(q2[k] == q[k]);
        }
    }
    assert forall|n: u128| #[trigger] dist2.contains_key(n) && !vis.contains(n) implies queued(q2, n, dist2[n]) by {
        if n == nb {
            assert(q2[q.len() as int] == (nb, nd));
        } else {
            assert(queued(q, n, dist[n]));
            let k = choose|k: int| 0 <= k < q.len() && #[trigger] q[k] == (n, dist[n]);
            assert(q2[k] == (n, dist2[n]));
        }
    }
    assert forall|x: u128, k: int| x != nb && #[trigger] relaxed(g, dist, x, k) implies relaxed(g, dist2, x, k) by {
        assert forall|jj: int|
            0 <= jj < k && (#[trigger] g.edges@[jj]).incoming == x implies dist2.contains_key(g.edges@[jj].outgoing)
                && dist2[g.edges@[jj].outgoing] <= dist2[x] + g.edges@[jj].meta.weight by {
            assert(dist.contains_key(g.edges@[jj].outgoing));
        }
    }
}


/// The index of an entry of least distance.
fn nearest(queue: &Vec<(u128, u128)>) -> (i: usize)
    requires
        queue.len() > 0,
    ensures
        i < queue.len(),
        forall|k: int| 0 <= k < queue.len() ==> queue@[i as int].1 <= (#[trigger] queue@[k]).1,
{
    let mut best: usize = 0;
    let mut k: usize = 1;
    while k < queue.len()
        invariant
            1 <= k <= queue.len(),
            best < queue.len(),
            forall|m: int| 0 <= m < k ==> queue@[best as int].1 <= (#[trigger] queue@[m]).1,
        decreases queue.len() - k,
    {
        if queue[k].1 < queue[best].1 {
            best = k;
        }
        k += 1;
    }
    best
}

/// Follows `previous` back from a settled target to the start and lists the
/// nodes passed, start first.
fn trace_back(
    graph: &Graph,
    previous: &HashMap<u128, u128>,
    source_id: u128,
    target_id: u128,
    Ghost(dist): Ghost<Map<u128, u128>>,
    Ghost(vis): Ghost<Set<u128>>,
    Ghost(q): Ghost<Seq<(u128, u128)>>,
    Ghost(order): Ghost<Seq<u128>>,
    Ghost(rank): Ghost<Map<u128, nat>>,
) -> (path: Vec<u128>)
    requires
        graph.wf(),
        search_state(graph, source_id, dist, previous@, vis, q, order, rank),
        vis.contains(target_id),
    ensures
        exists|es: Seq<int>|
            #[trigger] is_route(graph, source_id, target_id, es) && route_cost(graph, es) == dist[target_id]
                && route_nodes(graph, source_id, es) == path@,
        !previous@.contains_key(target_id) ==> path@ == seq![source_id],
{
    let mut path: Vec<u128> = Vec::new();
    let mut current = target_id;
    let ghost mut tail: Seq<int> = Seq::empty();
    let ghost untouched = !previous@.contains_key(target_id);
    assert(vis.contains(target_id) ==> dist.contains_key(target_id));
    while previous.contains_key(&current)
        invariant
            graph.wf(),
            search_state(graph, source_id, dist, previous@, vis, q, order, rank),
            vis.contains(current),
            dist.contains_key(current),
            is_route(graph, current, target_id, tail),
            route_cost(graph, tail) + dist[current] == dist[target_id],
            path@.len() == tail.len(),
            forall|i: int| 0 <= i < path@.len() ==> path@[i] == graph.edges@[tail[tail.len() - 1 - i]].outgoing,
            untouched ==> path@.len() == 0 && current == target_id && !previous@.contains_key(target_id),
        decreases rank[current],
    {
        let p = *previous.get(&current).unwrap();
        proof {
            let j = choose|j: int| #[trigger] feeds(graph, dist, j, p, current);
            lemma_route_prepend(graph, current, target_id, j, tail);
            let t2 = seq![j] + tail;
            assert forall|i: int| 0 <= i < path@.len() + 1 implies path@.push(current)[i] == graph.edges@[t2[t2.len() - 1
                - i]].outgoing by {
                if i < path@.len() {
                    assert(t2[t2.len() - 1 - i] == tail[tail.len() - 1 - i]);
                }
            }
            tail = t2;
            assert(rank.contains_key(current) && rank.contains_key(p));
        }
        path.push(current);
        current = p;
    }
    assert(current == source_id);
    path.push(source_id);
    let ghost full = path@;
    let mut result: Vec<u128> = Vec::new();
    let mut k = path.len();
    while k > 0
        invariant
            k <= path.len(),
            path@ == full,
            result@.len() == full.len() - k,
            forall|m: int| 0 <= m < result@.len() ==> result@[m] == full[full.len() - 1 - m],
        decreases k,
    {
        k -= 1;
        result.push(path[k]);
    }
    assert(result@ =~= route_nodes(graph, source_id, tail));
    result
}

/// A cheapest path from `source_id` to `target_id` along the directed edges,
/// as the list of nodes it passes, or `None` where no path leads there. The
/// start is reached from itself by the path `[source_id]`.
pub fn dijkstra(graph: &Graph, source_id: u128, target_id: u128) -> (res: Option<Vec<u128>>)
    requires
        graph.wf(),
    ensures
        res is Some <==> connected(graph, source_id, target_id),
        res matches Some(p) ==> exists|es: Seq<int>|
            #[trigger] cheapest(graph, source_id, target_id, es) && route_nodes(graph, source_id, es) == p@,
        source_id == target_id ==> (res matches Some(p) && p@ == seq![source_id]),
{
    let mut distances: HashMap<u128, u128> = HashMap::new();
    let mut previous: HashMap<u128, u128> = HashMap::new();
    let mut queue: Vec<(u128, u128)> = Vec::new();
    let mut visited: HashSet<u128> = HashSet::new();
    distances.insert(source_id, 0);
    queue.push((source_id, 0));
    let ghost mut order: Seq<u128> = Seq::empty();
    let ghost mut rank: Map<u128, nat> = Map::empty();
    assert(queue@ == seq![(source_id, 0u128)]);
    assert(queue@[0] == (source_id, 0u128));
    assert(queued(queue@, source_id, 0));
    while queue.len() > 0
        invariant
            graph.wf(),
            search_state(graph, source_id, distances@, previous@, visited@, queue@, order, rank),
            all_relaxed(graph, distances@, visited@),
            !visited@.contains(target_id),
        decreases graph.nodes@.len() + 1 - order.len(), queue@.len(),
    {
        proof {
            if source_id == target_id {
                assert forall|n: u128| !previous@.contains_key(n) by {
                    if previous@.contains_key(n) {
                        assert(visited@.contains(previous@[n]));
                        assert(rank.contains_key(previous@[n]));
                    }
                }
            }
        }
        let i = nearest(&queue);
        let ghost q0 = queue@;
        let (node_id, distance) = queue.remove(i);
        if visited.contains(&node_id) {
            proof {
                lemma_skip(graph, source_id, distances@, previous@, visited@, q0, order, rank, i as int);
            }
            continue;
        }
        proof {
            lemma_settle(graph, source_id, distances@, previous@, visited@, q0, order, rank, i as int);
        }
        let ghost vis0 = visited@;
        visited.insert(node_id);
        proof {
            rank = rank.insert(node_id, order.len());
            order = order.push(node_id);
        }
        if node_id == target_id {
            let path = trace_back(
                graph,
                &previous,
                source_id,
                target_id,
                Ghost(distances@),
                Ghost(visited@),
                Ghost(queue@),
                Ghost(order),
                Ghost(rank),
            );
            proof {
                let es = choose|es: Seq<int>|
                    #[trigger] is_route(graph, source_id, target_id, es) && route_cost(graph, es) == distances@[target_id]
                        && route_nodes(graph, source_id, es) == path@;
                assert(optimal(graph, source_id, distances@, target_id));
                assert(cheapest(graph, source_id, target_id, es));
            }
            return Some(path);
        }
        let d_node = *distances.get(&node_id).unwrap();
        if distance > d_node {
            continue;
        }
        assert(d_node + u32::MAX <= order.len() * (u32::MAX as int)) by (nonlinear_arith)
            requires
                d_node <= (order.len() - 1) * (u32::MAX as int),
                order.len() >= 1,
        ;
        assert(graph.nodes@.len() == graph.nodes.len());
        assert(order.len() * (u32::MAX as int) <= 0x1_0000_0000_0000_0000 * (u32::MAX as int)) by (nonlinear_arith)
            requires
                order.len() <= 0x1_0000_0000_0000_0000,
        ;
        assert forall|x: u128| #[trigger] visited@.contains(x) && x != node_id implies relaxed(
            graph,
            distances@,
            x,
            graph.edges@.len() as int,
        ) by {
            assert(vis0.contains(x));
        }
        let mut j: usize = 0;
        while j < graph.edges.len()
            invariant
                graph.wf(),
                search_state(graph, source_id, distances@, previous@, visited@, queue@, order, rank),
                visited@.contains(node_id),
                distances@.contains_key(node_id),
                d_node == distances@[node_id],
                d_node + u32::MAX <= order.len() * (u32::MAX as int),
                d_node + u32::MAX < 0x1_0000_0000_0000_0000_0000_0000_0000_0000,
                forall|x: u128| #[trigger]
                    visited@.contains(x) && x != node_id ==> relaxed(graph, distances@, x, graph.edges@.len() as int),
                relaxed(graph, distances@, node_id, j as int),
                !visited@.contains(target_id),
                j <= graph.edges.len(),
            decreases graph.edges.len() - j,
        {
            let edge = graph.edges[j];
            if edge.incoming == node_id {
                let neighbor_id = edge.outgoing;
                let neighbor_distance = d_node + edge.meta.weight as u128;
                let better = match distances.get(&neighbor_id) {
                    Some(d) => neighbor_distance < *d,
                    None => true,
                };
                if better {
                    proof {
                        lemma_improve(
                            graph,
                            source_id,
                            distances@,
                            previous@,
                            visited@,
                            queue@,
                            order,
                            rank,
                            node_id,
                            j as int,
                        );
                    }
                    distances.insert(neighbor_id, neighbor_distance);
                    previous.insert(neighbor_id, node_id);
                    queue.push((neighbor_id, neighbor_distance));
                }
            }
            j += 1;
        }
    }
    proof {
        if source_id == target_id {
            assert(is_route(graph, source_id, target_id, Seq::<int>::empty()));
        }
        if connected(graph, source_id, target_id) {
            let es = choose|es: Seq<int>| #[trigger] is_route(graph, source_id, target_id, es);
            let y = lemma_crossing(graph, source_id, distances@, visited@, target_id, es);
            assert(queued(queue@, y, distances@[y]));
        }
    }
    None
}

/// Wherever a route leads, depth-first search from the same start gets: its
/// nodes, in order, are a walk, since the search follows edges either way.
/// So every node to which `dijkstra` finds a path is a key of what `dfs`
/// returns from the same start.
pub proof fn lemma_route_is_walk(g: &Graph, s: u128, t: u128, es: Seq<int>)
    requires
        g.wf(),
        is_route(g, s, t, es),
    ensures
        walk_to(g, s, t, route_nodes(g, s, es)),
        reachable(g, s, t),
{
    let w = route_nodes(g, s, es);
    assert forall|i: int| 0 <= i < w.len() - 1 implies #[trigger] step(g, w, i) by {
        let j = es[i];
        assert(g.has(g.edges@[j].incoming));
        if i == 0 {
            assert(w[0] == s);
        } else {
            assert(joins(g, es, i - 1));
            assert(w[i] == g.edges@[es[i - 1]].outgoing);
        }
        assert(w[i + 1] == g.edges@[j].outgoing);
        assert(links(g.edges@[j], w[i], w[i + 1]));
    }
    if es.len() > 0 {
        assert(w.last() == g.edges@[es.last()].outgoing);
    }
    assert(walk_to(g, s, t, w));
}

} // verus!
