//! Shortest paths by depth-first search over a graph's edges, taken in both
//! directions, and the proof that the search finds every reachable node and a
//! shortest path to each.
use vstd::prelude::*;
use std::collections::HashMap;
use std::collections::HashSet;
use crate::graph::{Graph, lemma_distinct_nodes_bounded};

verus! {

broadcast use vstd::std_specs::hash::group_hash_axioms;

/// Steps `i` and `i + 1` of `w` are neighbors.
pub open spec fn step(g: &Graph, w: Seq<u128>, i: int) -> bool {
    g.adjacent(w[i], w[i + 1])
}

/// A non-empty sequence of nodes, each a neighbor of the one before.
pub open spec fn is_walk(g: &Graph, w: Seq<u128>) -> bool {
    w.len() >= 1 && forall|i: int| 0 <= i < w.len() - 1 ==> #[trigger] step(g, w, i)
}

/// A walk from `s` to `n`.
pub open spec fn walk_to(g: &Graph, s: u128, n: u128, w: Seq<u128>) -> bool {
    is_walk(g, w) && w[0] == s && w.last() == n
}

/// Some walk leads from `s` to `n` (every node reaches itself).
pub open spec fn reachable(g: &Graph, s: u128, n: u128) -> bool {
    exists|w: Seq<u128>| #[trigger] walk_to(g, s, n, w)
}

/// How the search records the way to a node `n` from `s`: `[s]` for `s`
/// itself; otherwise `s`, then the nodes of a walk from `s` up to, but not
/// including, `n`. A record is as long as the walk it stands for.
pub open spec fn is_record(g: &Graph, s: u128, n: u128, p: Seq<u128>) -> bool {
    if p.len() == 1 {
        p[0] == s && n == s
    } else {
        p.len() >= 2 && p[0] == s && p[1] == s && is_walk(g, p.skip(1).push(n))
    }
}

/// No walk from `s` to `n` is shorter than the record `p`.
pub open spec fn is_shortest(g: &Graph, s: u128, n: u128, p: Seq<u128>) -> bool {
    forall|w: Seq<u128>| #[trigger] walk_to(g, s, n, w) ==> p.len() <= w.len()
}

/// Every record in `v` is a record from `s`.
pub open spec fn records_ok(g: &Graph, s: u128, v: Map<u128, Vec<u128>>) -> bool {
    forall|n: u128| #[trigger] v.contains_key(n) ==> is_record(g, s, n, v[n]@)
}

/// Each neighbor of `n` has a record at most one longer than `n`'s.
pub open spec fn settled(g: &Graph, v: Map<u128, Vec<u128>>, n: u128) -> bool {
    forall|m: u128| #[trigger] g.adjacent(n, m) ==> v.contains_key(m) && v[m]@.len() <= v[n]@.len() + 1
}

/// `a` keeps every node of `b`, with a record no longer than before.
pub open spec fn refines(a: Map<u128, Vec<u128>>, b: Map<u128, Vec<u128>>) -> bool {
    forall|n: u128| #[trigger] b.contains_key(n) ==> a.contains_key(n) && a[n]@.len() <= b[n]@.len()
}

/// The nodes the search has entered along `p`, after the leading `p[0]`: each
/// has a record no longer than its place on the path, and none occurs twice.
pub open spec fn stack_ok(v: Map<u128, Vec<u128>>, p: Seq<u128>) -> bool {
    &&& forall|j: int| 0 <= j < p.len() - 1 ==> v.contains_key(#[trigger] p[j + 1]) && v[p[j + 1]]@.len() <= j + 1
    &&& p.skip(1).no_duplicates()
}

proof fn lemma_settled_stays(g: &Graph, a: Map<u128, Vec<u128>>, b: Map<u128, Vec<u128>>, n: u128)
    requires
        settled(g, b, n),
        refines(a, b),
        b.contains_key(n),
        a.contains_key(n),
        a[n]@ == b[n]@,
    ensures
        settled(g, a, n),
{
    assert forall|m: u128| #[trigger] g.adjacent(n, m) implies a.contains_key(m) && a[m]@.len() <= a[n]@.len() + 1 by {
        assert(b.contains_key(m));
    }
}

/// Every node of a walk that ends at a node is a node.
proof fn lemma_walk_nodes(g: &Graph, w: Seq<u128>)
    requires
        is_walk(g, w),
        g.has(w.last()),
    ensures
        forall|i: int| 0 <= i < w.len() ==> g.has(#[trigger] w[i]),
{
    assert forall|i: int| 0 <= i < w.len() implies g.has(#[trigger] w[i]) by {
        if i < w.len() - 1 {
            assert(step(g, w, i));
        }
    }
}

/// Once every recorded node is settled and `s`'s record is `[s]`, each walk
/// from `s` bounds the record of the node it ends at.
proof fn lemma_walk_bounds_record(g: &Graph, s: u128, v: Map<u128, Vec<u128>>, w: Seq<u128>)
    requires
        forall|n: u128| #[trigger] v.contains_key(n) ==> settled(g, v, n),
        v.contains_key(s),
        v[s]@.len() == 1,
        is_walk(g, w),
        w[0] == s,
    ensures
        v.contains_key(w.last()),
        v[w.last()]@.len() <= w.len(),
    decreases w.len(),
{
    if w.len() > 1 {
        let u = w.drop_last();
        assert(is_walk(g, u)) by {
            assert forall|i: int| 0 <= i < u.len() - 1 implies #[trigger] step(g, u, i) by {
                assert(step(g, w, i));
            }
        }
        lemma_walk_bounds_record(g, s, v, u);
        assert(step(g, w, w.len() - 2));
        assert(settled(g, v, u.last()));
    }
}

/// A record stands for a walk of its own length.
proof fn lemma_record_walk(g: &Graph, s: u128, n: u128, p: Seq<u128>)
    requires
        is_record(g, s, n, p),
    ensures
        p.len() == 1 ==> walk_to(g, s, n, seq![s]),
        p.len() != 1 ==> walk_to(g, s, n, p.skip(1).push(n)) && p.skip(1).push(n).len() == p.len(),
{
    if p.len() == 1 {
        let w = seq![s];
        assert(is_walk(g, w));
    }
}

/// Enters `current_node_id` along `path` (the record it would get), unless the
/// node already has a shorter record; then records it and searches on from
/// each of its neighbors with the path one node longer. Records only ever get
/// shorter, and every node whose record changed has its neighbors recorded at
/// most one step further.
#[verifier::loop_isolation(false)]
fn dfs_recursive_helper(
    graph: &Graph,
    current_node_id: u128,
    visited: &mut HashMap<u128, Vec<u128>>,
    path: Vec<u128>,
)
    requires
        graph.wf(),
        1 <= path@.len() <= graph.nodes@.len() + 1,
        records_ok(graph, path@[0], old(visited)@),
        is_record(graph, path@[0], current_node_id, path@),
        stack_ok(old(visited)@, path@),
    ensures
        refines(final(visited)@, old(visited)@),
        records_ok(graph, path@[0], final(visited)@),
        forall|n: u128|
            #[trigger] final(visited)@.contains_key(n) && (!old(visited)@.contains_key(n) || final(visited)@[n]@
                != old(visited)@[n]@) ==> settled(graph, final(visited)@, n),
        forall|n: u128|
            #[trigger] old(visited)@.contains_key(n) && old(visited)@[n]@.len() < path@.len() ==> final(visited)@.contains_key(n)
                && final(visited)@[n]@ == old(visited)@[n]@,
        final(visited)@.contains_key(current_node_id),
        final(visited)@[current_node_id]@.len() <= path@.len(),
    decreases graph.nodes@.len() + 1 - path@.len(),
{
    let ghost s = path@[0];
    let ghost v0 = visited@;
    let ghost c = current_node_id;
    let ghost p = path@;
    let ghost len = path@.len();
    if let Some(v) = visited.get(&current_node_id) {
        if v.len() < path.len() {
            return;
        }
    }
    // `c` lies on no earlier part of the path: each node there has a shorter record.
    assert(!p.skip(1).contains(c)) by {
        if p.skip(1).contains(c) {
            let j = choose|j: int| 0 <= j < p.skip(1).len() && p.skip(1)[j] == c;
            assert(p[j + 1] == c);
        }
    }
    visited.insert(current_node_id, path.clone());
    let ghost v1 = visited@;
    let mut trail = path;
    trail.push(current_node_id);
    let ghost q = trail@;
    assert(q.skip(1) == p.skip(1).push(c));
    assert(q.skip(1).no_duplicates()) by {
        assert forall|i: int, j: int| 0 <= i < q.skip(1).len() && 0 <= j < q.skip(1).len() && i != j implies q.skip(1)[i]
            != q.skip(1)[j] by {
            if i < p.skip(1).len() && j < p.skip(1).len() {
            } else if i < p.skip(1).len() {
                assert(p.skip(1).contains(q.skip(1)[i]));
            } else {
                assert(p.skip(1).contains(q.skip(1)[j]));
            }
        }
    }
    proof {
        if graph.has(c) {
            // every node entered so far lies on a walk ending at `c`
            if len == 1 {
                assert(q.skip(1) == seq![c]);
            } else {
                assert(q.skip(1) == p.skip(1).push(c));
                lemma_walk_nodes(graph, p.skip(1).push(c));
            }
            lemma_distinct_nodes_bounded(graph, q.skip(1));
        }
    }
    assert(stack_ok(v1, q)) by {
        assert forall|j: int| 0 <= j < q.len() - 1 implies v1.contains_key(#[trigger] q[j + 1]) && v1[q[j + 1]]@.len()
            <= j + 1 by {
            if j < len - 1 {
                assert(q[j + 1] == p[j + 1]);
                assert(p.skip(1)[j] == p[j + 1]);
                assert(p[j + 1] != c);
            }
        }
    }
    assert(v0.contains_key(c) ==> v0[c]@.len() >= len);
    assert(v1.contains_key(c) && v1[c]@ == p);
    assert(forall|n: u128| n != c ==> (#[trigger] v1.contains_key(n) == v0.contains_key(n)) && (v0.contains_key(n) ==> v1[n] == v0[n]));
    let neighbors: HashSet<u128> = graph.get_neighbors(current_node_id);
    let ghost mut done: Set<u128> = Set::empty();
    for node_id in it: neighbors.iter()
        invariant
            it.seq().unref().to_set() == neighbors@,
            forall|j: int| 0 <= j < it.index() ==> done.contains(*#[trigger] it.seq()[j]),
            forall|m: u128| #[trigger] done.contains(m) ==> visited@.contains_key(m) && visited@[m]@.len() <= len + 1,
            graph.wf(),
            q == p.push(c),
            trail@ == q,
            len == p.len(),
            1 <= len,
            s == p[0],
            is_record(graph, s, c, p),
            neighbors@ == graph.neighbors(c),
            graph.has(c) ==> len <= graph.nodes@.len(),
            v0.contains_key(c) ==> v0[c]@.len() >= len,
            v1.contains_key(c) && v1[c]@ == p,
            forall|n: u128| n != c ==> (#[trigger] v1.contains_key(n) == v0.contains_key(n)) && (v0.contains_key(n) ==> v1[n] == v0[n]),
            refines(visited@, v1),
            records_ok(graph, s, visited@),
            visited@.contains_key(c),
            visited@[c]@ == p,
            forall|n: u128|
                #[trigger] visited@.contains_key(n) && n != c && (!v1.contains_key(n) || visited@[n]@ != v1[n]@)
                    ==> settled(graph, visited@, n),
            forall|n: u128|
                #[trigger] v1.contains_key(n) && v1[n]@.len() < len ==> visited@.contains_key(n) && visited@[n]@ == v1[n]@,
            stack_ok(visited@, q),
        ensures
            forall|m: u128| #[trigger] neighbors@.contains(m) ==> done.contains(m),
    {
        let m = *node_id;
        let ghost vpre = visited@;
        assert(stack_ok(vpre, q));
        assert(refines(vpre, v1));
        assert(m == *it.seq()[it.index()]);
        assert(it.seq().unref()[it.index()] == m);
        assert(neighbors@.contains(m));
        assert(graph.adjacent(c, m));
        assert(is_record(graph, s, m, q)) by {
            if len == 1 {
                assert(q.skip(1).push(m) == seq![c, m]);
                assert(step(graph, q.skip(1).push(m), 0));
            } else {
                let w = p.skip(1).push(c);
                assert(q.skip(1).push(m) == w.push(m));
                assert forall|i: int| 0 <= i < w.push(m).len() - 1 implies #[trigger] step(graph, w.push(m), i) by {
                    if i < w.len() - 1 {
                        assert(step(graph, w, i));
                    }
                }
            }
        }
        assert(graph.has(c));
        assert(len <= graph.nodes@.len());
        let next_path = trail.clone();
        assert(next_path@ == q);
        assert(graph.nodes@.len() + 1 - next_path@.len() < graph.nodes@.len() + 1 - len);
        dfs_recursive_helper(graph, m, visited, next_path);
        proof {
            done = done.insert(m);
            assert(stack_ok(visited@, q)) by {
                assert forall|j: int| 0 <= j < q.len() - 1 implies visited@.contains_key(#[trigger] q[j + 1])
                    && visited@[q[j + 1]]@.len() <= j + 1 by {
                    assert(vpre.contains_key(q[j + 1]));
                }
            }
            assert forall|n: u128|
                #[trigger] visited@.contains_key(n) && n != c && (!v1.contains_key(n) || visited@[n]@ != v1[n]@)
                    implies settled(graph, visited@, n) by {
                if !vpre.contains_key(n) || visited@[n]@ != vpre[n]@ {
                } else {
                    lemma_settled_stays(graph, visited@, vpre, n);
                }
            }
        }
    }
    proof {
        assert forall|m: u128| #[trigger] graph.adjacent(c, m) implies visited@.contains_key(m) && visited@[m]@.len()
            <= visited@[c]@.len() + 1 by {
            assert(neighbors@.contains(m));
            assert(done.contains(m));
        }
        assert forall|n: u128| #[trigger] v0.contains_key(n) implies visited@.contains_key(n)
            && visited@[n]@.len() <= v0[n]@.len() by {
            assert(v1.contains_key(n));
        }
        assert forall|n: u128| #[trigger] v0.contains_key(n) && v0[n]@.len() < len implies visited@.contains_key(n)
            && visited@[n]@ == v0[n]@ by {
            assert(n != c);
            assert(v1.contains_key(n) && v1[n] == v0[n]);
        }
    }
}

/// For every node reachable from `start_node_id`, a shortest path to it, in
/// the form of [`is_record`]: `[start]` for the start itself, otherwise the
/// start twice followed by the nodes of a shortest walk before the target.
pub fn dfs(graph: &Graph, start_node_id: u128) -> (res: HashMap<u128, Vec<u128>>)
    requires
        graph.wf(),
    ensures
        forall|n: u128| #[trigger] res@.contains_key(n) <==> reachable(graph, start_node_id, n),
        forall|n: u128|
            #[trigger] res@.contains_key(n) ==> is_record(graph, start_node_id, n, res@[n]@) && is_shortest(
                graph,
                start_node_id,
                n,
                res@[n]@,
            ),
{
    let mut visited: HashMap<u128, Vec<u128>> = HashMap::new();
    let path = vec![start_node_id];
    dfs_recursive_helper(graph, start_node_id, &mut visited, path);
    proof {
        let s = start_node_id;
        let v = visited@;
        assert(v.contains_key(s));
        assert(v[s]@.len() == 1);
        assert forall|n: u128| #[trigger] v.contains_key(n) implies settled(graph, v, n) by {}
        assert forall|n: u128| #[trigger] v.contains_key(n) <==> reachable(graph, s, n) by {
            if v.contains_key(n) {
                lemma_record_walk(graph, s, n, v[n]@);
                if v[n]@.len() == 1 {
                    assert(walk_to(graph, s, n, seq![s]));
                } else {
                    assert(walk_to(graph, s, n, v[n]@.skip(1).push(n)));
                }
            }
            if reachable(graph, s, n) {
                let w = choose|w: Seq<u128>| #[trigger] walk_to(graph, s, n, w);
                lemma_walk_bounds_record(graph, s, v, w);
            }
        }
        assert forall|n: u128| #[trigger] v.contains_key(n) implies is_shortest(graph, s, n, v[n]@) by {
            assert forall|w: Seq<u128>| #[trigger] walk_to(graph, s, n, w) implies v[n]@.len() <= w.len() by {
                lemma_walk_bounds_record(graph, s, v, w);
            }
        }
    }
    visited
}

} // verus!
