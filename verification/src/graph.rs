//! A graph of nodes identified by 128-bit identifiers, with weighted edges
//! from an `incoming` node to an `outgoing` node, and the lookups that keep a
//! node's identifier tied to its place in the node list.
use vstd::prelude::*;
use std::collections::HashMap;
use std::collections::HashSet;
use crate::random::{is_random_uuid, new_uuid, random_between};

verus! {

broadcast use vstd::std_specs::hash::group_hash_axioms;

/// Why an edge could not be added.
#[derive(Clone, Copy, PartialEq, Eq, Structural, Debug)]
pub enum AddEdgeError {
    TargetNodeMissing(u128),
    SourceNodeMissing(u128),
    BothNodesMissing(u128, u128),
}

impl AddEdgeError {
    pub open spec fn text(self) -> Seq<char> {
        match self {
            AddEdgeError::TargetNodeMissing(_) => "TargetNodeMissing"@,
            AddEdgeError::SourceNodeMissing(_) => "SourceNodeMissing"@,
            AddEdgeError::BothNodesMissing(_, _) => "BothNodesMissing"@,
        }
    }

    /// The name of the error's kind.
    pub fn to_string(&self) -> (res: String)
        ensures
            res@ == self.text(),
    {
        match self {
            AddEdgeError::TargetNodeMissing(_) => String::from_str("TargetNodeMissing"),
            AddEdgeError::SourceNodeMissing(_) => String::from_str("SourceNodeMissing"),
            AddEdgeError::BothNodesMissing(_, _) => String::from_str("BothNodesMissing"),
        }
    }
}

/// Where a node is drawn.
#[derive(Clone, Copy, PartialEq, Eq, PartialOrd, Ord, Hash, Debug)]
pub struct NodeMetaData {
    pub position: (i32, i32),
}

impl NodeMetaData {
    /// A position whose two coordinates are drawn at random from `range`.
    pub fn new_random(range: std::ops::Range<i32>) -> (res: NodeMetaData)
        requires
            range.start < range.end,
        ensures
            range.start <= res.position.0 < range.end,
            range.start <= res.position.1 < range.end,
    {
        let x = random_between(range.start as i128, range.end as i128) as i32;
        let y = random_between(range.start as i128, range.end as i128) as i32;
        NodeMetaData { position: (x, y) }
    }
}

/// The weight of an edge, in whole units.
#[derive(Clone, Copy, PartialEq, Eq, PartialOrd, Ord, Hash, Debug)]
pub struct EdgeMetaData {
    pub weight: u32,
}

/// An edge from `incoming` to `outgoing`.
#[derive(Clone, Copy, PartialEq, Eq, PartialOrd, Ord, Hash, Debug)]
pub struct Edge {
    pub incoming: u128,
    pub outgoing: u128,
    pub meta: EdgeMetaData,
}

/// A node and where it is drawn.
#[derive(Clone, Copy, PartialEq, Eq, PartialOrd, Ord, Hash, Debug)]
pub struct GraphNode {
    pub id: u128,
    pub meta: NodeMetaData,
}

/// The map that an association list stands for: later entries shadow earlier ones.
pub open spec fn assoc_map(entries: Seq<((u128, u128), usize)>) -> Map<(u128, u128), usize>
    decreases entries.len(),
{
    if entries.len() == 0 {
        Map::empty()
    } else {
        assoc_map(entries.drop_last()).insert(entries.last().0, entries.last().1)
    }
}

/// Whether an edge joins `a` and `b`, in either direction.
pub open spec fn links(e: Edge, a: u128, b: u128) -> bool {
    (e.incoming == a && e.outgoing == b) || (e.outgoing == a && e.incoming == b)
}

pub struct Graph {
    pub nodes: Vec<GraphNode>,
    pub edges: Vec<Edge>,
    /// Maps a node's identifier to its index in `nodes`.
    pub node_lookup: HashMap<u128, usize>,
    /// Maps a (source, target) pair to one more than the index of the last edge
    /// added between them; an association list, later entries win.
    pub edge_lookup: Vec<((u128, u128), usize)>,
}

impl Graph {
    pub open spec fn has(&self, id: u128) -> bool {
        self.node_lookup@.contains_key(id)
    }

    /// The lookup table and the node list agree: each node's identifier maps to
    /// its place, and each identifier in the table to a node that has it.
    pub open spec fn nodes_wf(&self) -> bool {
        &&& forall|i: int|
            0 <= i < self.nodes@.len() ==> #[trigger] self.node_lookup@.contains_key(self.nodes@[i].id)
                && self.node_lookup@[self.nodes@[i].id] == i
        &&& forall|k: u128|
            #[trigger] self.node_lookup@.contains_key(k) ==> self.node_lookup@[k] < self.nodes@.len()
                && self.nodes@[self.node_lookup@[k] as int].id == k
    }

    /// The lookup table and the node list agree, and every edge joins two known nodes.
    pub open spec fn wf(&self) -> bool {
        &&& self.nodes_wf()
        &&& forall|j: int|
            0 <= j < self.edges@.len() ==> self.has(#[trigger] self.edges@[j].incoming) && self.has(
                self.edges@[j].outgoing,
            )
    }

    /// The edge-lookup table as a map.
    pub open spec fn edge_lookup_map(&self) -> Map<(u128, u128), usize> {
        assoc_map(self.edge_lookup@)
    }

    /// `b` is a neighbor of `a`: `a` is a node and some edge joins the two.
    pub open spec fn adjacent(&self, a: u128, b: u128) -> bool {
        self.has(a) && exists|j: int| 0 <= j < self.edges@.len() && links(#[trigger] self.edges@[j], a, b)
    }

    /// The neighbors of `a` through the first `k` edges.
    pub open spec fn neighbors_within(&self, a: u128, k: int) -> Set<u128> {
        Set::new(|b: u128| exists|j: int| 0 <= j < k && links(#[trigger] self.edges@[j], a, b))
    }

    /// The neighbors of a node; none for an unknown identifier.
    pub open spec fn neighbors(&self, a: u128) -> Set<u128> {
        Set::new(|b: u128| self.adjacent(a, b))
    }

    /// An empty graph.
    pub fn new() -> (res: Graph)
        ensures
            res.wf(),
            res.nodes@.len() == 0,
            res.edges@.len() == 0,
            res.node_lookup@ == Map::<u128, usize>::empty(),
            res.edge_lookup_map() == Map::<(u128, u128), usize>::empty(),
    {
        Graph { nodes: Vec::new(), edges: Vec::new(), node_lookup: HashMap::new(), edge_lookup: Vec::new() }
    }

    /// Adds the node `id` drawn at `meta`, at the end of the node list, unless
    /// a node with that identifier is already there; then nothing changes.
    pub fn add_node_with(&mut self, id: u128, meta: NodeMetaData)
        requires
            old(self).nodes_wf(),
        ensures
            final(self).nodes_wf(),
            old(self).wf() ==> final(self).wf(),
            final(self).edges@ == old(self).edges@,
            final(self).edge_lookup@ == old(self).edge_lookup@,
            old(self).has(id) ==> *final(self) == *old(self),
            !old(self).has(id) ==> final(self).nodes@ == old(self).nodes@.push(GraphNode { id, meta })
                && final(self).node_lookup@ == old(self).node_lookup@.insert(id, old(self).nodes@.len() as usize),
    {
        if !self.node_lookup.contains_key(&id) {
            let node = GraphNode { id, meta };
            let index = self.nodes.len();
            self.nodes.push(node);
            self.node_lookup.insert(id, index);
            proof {
                assert forall|i: int|
                    0 <= i < self.nodes@.len() implies #[trigger] self.node_lookup@.contains_key(self.nodes@[i].id)
                        && self.node_lookup@[self.nodes@[i].id] == i by {
                    if i < index {
                        assert(self.nodes@[i] == old(self).nodes@[i]);
                        assert(old(self).node_lookup@.contains_key(old(self).nodes@[i].id));
                    }
                }
                assert forall|k: u128| #[trigger] self.node_lookup@.contains_key(k) implies self.node_lookup@[k]
                    < self.nodes@.len() && self.nodes@[self.node_lookup@[k] as int].id == k by {
                    if k != id {
                        assert(old(self).node_lookup@.contains_key(k));
                        assert(self.nodes@[old(self).node_lookup@[k] as int] == old(self).nodes@[old(
                            self,
                        ).node_lookup@[k] as int]);
                    }
                }
                if old(self).wf() {
                    assert forall|j: int| 0 <= j < self.edges@.len() implies self.has(
                        #[trigger] self.edges@[j].incoming,
                    ) && self.has(self.edges@[j].outgoing) by {
                        assert(old(self).has(old(self).edges@[j].incoming));
                        assert(old(self).has(old(self).edges@[j].outgoing));
                    }
                }
            }
        }
    }

    /// Adds a node under a fresh random (version 4) identifier, drawn at a
    /// random position with both coordinates in `1..10`. Nothing changes in
    /// the unlikely case that the identifier drawn is already taken.
    pub fn add_node(&mut self)
        requires
            old(self).nodes_wf(),
        ensures
            final(self).nodes_wf(),
            old(self).wf() ==> final(self).wf(),
            final(self).edges@ == old(self).edges@,
            final(self).edge_lookup@ == old(self).edge_lookup@,
            (*final(self) == *old(self) && exists|id: u128| is_random_uuid(id) && #[trigger] old(self).has(id)) || {
                &&& final(self).nodes@.len() == old(self).nodes@.len() + 1
                &&& final(self).nodes@.drop_last() == old(self).nodes@
                &&& !old(self).has(final(self).nodes@.last().id)
                &&& is_random_uuid(final(self).nodes@.last().id)
                &&& final(self).node_lookup@ == old(self).node_lookup@.insert(
                    final(self).nodes@.last().id,
                    old(self).nodes@.len() as usize,
                )
                &&& 1 <= final(self).nodes@.last().meta.position.0 < 10
                &&& 1 <= final(self).nodes@.last().meta.position.1 < 10
            },
    {
        let id = new_uuid();
        if !self.node_lookup.contains_key(&id) {
            let meta = NodeMetaData::new_random(1..10);
            self.add_node_with(id, meta);
            assert(self.nodes@.drop_last() == old(self).nodes@);
        } else {
            assert(old(self).has(id));
        }
    }

    /// Adds an edge from `source_id` to `target_id` of weight one, and records
    /// it in the edge lookup; fails, changing nothing, when either node is unknown.
    pub fn add_outgoing_edge(&mut self, source_id: u128, target_id: u128) -> (res: Result<(), AddEdgeError>)
        requires
            old(self).wf(),
            old(self).edges@.len() < usize::MAX,
        ensures
            final(self).wf(),
            final(self).nodes@ == old(self).nodes@,
            final(self).node_lookup@ == old(self).node_lookup@,
            res == (if old(self).has(source_id) && old(self).has(target_id) {
                Ok(())
            } else if old(self).has(source_id) {
                Err(AddEdgeError::TargetNodeMissing(target_id))
            } else if old(self).has(target_id) {
                Err(AddEdgeError::SourceNodeMissing(source_id))
            } else {
                Err(AddEdgeError::BothNodesMissing(source_id, target_id))
            }),
            res is Ok ==> final(self).edges@ == old(self).edges@.push(
                Edge { incoming: source_id, outgoing: target_id, meta: EdgeMetaData { weight: 1 } },
            ) && final(self).edge_lookup_map() == old(self).edge_lookup_map().insert(
                (source_id, target_id),
                final(self).edges@.len() as usize,
            ),
            res is Err ==> final(self).edges@ == old(self).edges@ && final(self).edge_lookup@
                == old(self).edge_lookup@,
    {
        let has_source = self.node_lookup.contains_key(&source_id);
        let has_target = self.node_lookup.contains_key(&target_id);
        if has_source && has_target {
            let edge = Edge { incoming: source_id, outgoing: target_id, meta: EdgeMetaData { weight: 1 } };
            self.edges.push(edge);
            self.edge_lookup.push(((source_id, target_id), self.edges.len()));
            assert(self.edge_lookup@.drop_last() == old(self).edge_lookup@);
            assert forall|j: int| 0 <= j < self.edges@.len() implies self.has(
                #[trigger] self.edges@[j].incoming,
            ) && self.has(self.edges@[j].outgoing) by {
                if j < old(self).edges@.len() {
                    assert(self.edges@[j] == old(self).edges@[j]);
                }
            }
            Ok(())
        } else if has_source {
            Err(AddEdgeError::TargetNodeMissing(target_id))
        } else if has_target {
            Err(AddEdgeError::SourceNodeMissing(source_id))
        } else {
            Err(AddEdgeError::BothNodesMissing(source_id, target_id))
        }
    }

    /// Adds an edge from `target_id` to `source_id`.
    pub fn add_incoming_edge(&mut self, source_id: u128, target_id: u128) -> (res: Result<(), AddEdgeError>)
        requires
            old(self).wf(),
            old(self).edges@.len() < usize::MAX,
        ensures
            final(self).wf(),
            final(self).nodes@ == old(self).nodes@,
            final(self).node_lookup@ == old(self).node_lookup@,
            res == (if old(self).has(target_id) && old(self).has(source_id) {
                Ok(())
            } else if old(self).has(target_id) {
                Err(AddEdgeError::TargetNodeMissing(source_id))
            } else if old(self).has(source_id) {
                Err(AddEdgeError::SourceNodeMissing(target_id))
            } else {
                Err(AddEdgeError::BothNodesMissing(target_id, source_id))
            }),
            res is Ok ==> final(self).edges@ == old(self).edges@.push(
                Edge { incoming: target_id, outgoing: source_id, meta: EdgeMetaData { weight: 1 } },
            ) && final(self).edge_lookup_map() == old(self).edge_lookup_map().insert(
                (target_id, source_id),
                final(self).edges@.len() as usize,
            ),
            res is Err ==> final(self).edges@ == old(self).edges@ && final(self).edge_lookup@
                == old(self).edge_lookup@,
    {
        self.add_outgoing_edge(target_id, source_id)
    }

    /// The identifier of a node picked at random.
    pub fn get_random_node(&self) -> (res: u128)
        requires
            self.nodes@.len() > 0,
        ensures
            exists|i: int| 0 <= i < self.nodes@.len() && #[trigger] self.nodes@[i].id == res,
    {
        let random_index = random_between(0, self.nodes.len() as i128) as usize;
        let random_element = self.nodes[random_index].id;
        assert(self.nodes@[random_index as int].id == random_element);
        random_element
    }

    /// Adds `num_nodes` random nodes as [`Graph::add_node`] does, so fewer only
    /// where a drawn identifier was already taken, then `num_edges` edges of
    /// weight one between nodes picked at random.
    pub fn randomize(&mut self, num_nodes: usize, num_edges: usize)
        requires
            old(self).wf(),
            old(self).nodes@.len() + num_nodes < usize::MAX,
            old(self).edges@.len() + num_edges < usize::MAX,
            num_edges > 0 ==> old(self).nodes@.len() > 0 || num_nodes > 0,
        ensures
            final(self).wf(),
            old(self).nodes@.len() <= final(self).nodes@.len() <= old(self).nodes@.len() + num_nodes,
            final(self).nodes@.take(old(self).nodes@.len() as int) == old(self).nodes@,
            num_nodes > 0 ==> final(self).nodes@.len() > 0,
            final(self).edges@.len() == old(self).edges@.len() + num_edges,
            final(self).edges@.take(old(self).edges@.len() as int) == old(self).edges@,
            forall|j: int|
                old(self).edges@.len() <= j < final(self).edges@.len() ==> (#[trigger] final(self).edges@[j]).meta.weight == 1,
            forall|k: int|
                old(self).nodes@.len() <= k < final(self).nodes@.len() ==> is_random_uuid(
                    (#[trigger] final(self).nodes@[k]).id,
                ) && 1 <= final(self).nodes@[k].meta.position.0 < 10 && 1 <= final(self).nodes@[k].meta.position.1 < 10,
            final(self).nodes@.len() < old(self).nodes@.len() + num_nodes ==> exists|id: u128|
                is_random_uuid(id) && #[trigger] final(self).has(id),
    {
        let mut i: usize = 0;
        while i < num_nodes
            invariant
                self.wf(),
                i <= num_nodes,
                old(self).nodes@.len() <= self.nodes@.len() <= old(self).nodes@.len() + i,
                self.nodes@.take(old(self).nodes@.len() as int) == old(self).nodes@,
                i > 0 ==> self.nodes@.len() > 0,
                self.edges@ == old(self).edges@,
                old(self).nodes@.len() + num_nodes < usize::MAX,
                forall|k: int|
                    old(self).nodes@.len() <= k < self.nodes@.len() ==> is_random_uuid((#[trigger] self.nodes@[k]).id)
                        && 1 <= self.nodes@[k].meta.position.0 < 10 && 1 <= self.nodes@[k].meta.position.1 < 10,
                self.nodes@.len() < old(self).nodes@.len() + i ==> exists|id: u128|
                    is_random_uuid(id) && #[trigger] self.has(id),
            decreases num_nodes - i,
        {
            let ghost before = self.nodes@;
            let ghost before_graph = *self;
            self.add_node();
            proof {
                if self.nodes@.len() == before.len() + 1 {
                    assert forall|k: int|
                        old(self).nodes@.len() <= k < self.nodes@.len() implies is_random_uuid(
                            (#[trigger] self.nodes@[k]).id,
                        ) && 1 <= self.nodes@[k].meta.position.0 < 10 && 1 <= self.nodes@[k].meta.position.1 < 10 by {
                        if k < before.len() {
                            assert(self.nodes@.drop_last()[k] == self.nodes@[k]);
                        }
                    }
                    if self.nodes@.len() < old(self).nodes@.len() + i + 1 {
                        let id = choose|id: u128| is_random_uuid(id) && #[trigger] before_graph.has(id);
                        assert(self.has(id));
                    }
                } else {
                    let id = choose|id: u128| is_random_uuid(id) && #[trigger] before_graph.has(id);
                    assert(self.has(id));
                }
            }
            assert(self.nodes@.take(old(self).nodes@.len() as int) == before.take(old(self).nodes@.len() as int)) by {
                if self.nodes@.len() == before.len() + 1 {
                    assert(self.nodes@.drop_last() == before);
                    assert forall|k: int| 0 <= k < old(self).nodes@.len() implies self.nodes@[k] == before[k] by {
                        assert(self.nodes@.drop_last()[k] == self.nodes@[k]);
                    }
                }
            }
            i = i + 1;
        }
        let mut e: usize = 0;
        while e < num_edges
            invariant
                self.wf(),
                e <= num_edges,
                num_edges > 0 ==> self.nodes@.len() > 0,
                old(self).nodes@.len() <= self.nodes@.len() <= old(self).nodes@.len() + num_nodes,
                self.nodes@.take(old(self).nodes@.len() as int) == old(self).nodes@,
                num_nodes > 0 ==> self.nodes@.len() > 0,
                self.edges@.len() == old(self).edges@.len() + e,
                self.edges@.take(old(self).edges@.len() as int) == old(self).edges@,
                forall|j: int|
                    old(self).edges@.len() <= j < self.edges@.len() ==> (#[trigger] self.edges@[j]).meta.weight == 1,
                old(self).edges@.len() + num_edges < usize::MAX,
                forall|k: int|
                    old(self).nodes@.len() <= k < self.nodes@.len() ==> is_random_uuid((#[trigger] self.nodes@[k]).id)
                        && 1 <= self.nodes@[k].meta.position.0 < 10 && 1 <= self.nodes@[k].meta.position.1 < 10,
                self.nodes@.len() < old(self).nodes@.len() + num_nodes ==> exists|id: u128|
                    is_random_uuid(id) && #[trigger] self.has(id),
            decreases num_edges - e,
        {
            let source_idx = random_between(0, self.nodes.len() as i128) as usize;
            let target_idx = random_between(0, self.nodes.len() as i128) as usize;
            let source_id = self.nodes[source_idx].id;
            let target_id = self.nodes[target_idx].id;
            let ghost before = self.edges@;
            assert(self.has(self.nodes@[source_idx as int].id));
            assert(self.has(self.nodes@[target_idx as int].id));
            let ghost lookup_before = self.node_lookup@;
            let added = self.add_outgoing_edge(source_id, target_id);
            proof {
                if self.nodes@.len() < old(self).nodes@.len() + num_nodes {
                    let id = choose|id: u128| is_random_uuid(id) && lookup_before.contains_key(id);
                    assert(self.has(id));
                }
            }
            assert(added is Ok);
            assert forall|k: int| 0 <= k < old(self).edges@.len() implies self.edges@[k] == old(self).edges@[k] by {
                assert(self.edges@[k] == before[k]);
                assert(before.take(old(self).edges@.len() as int)[k] == before[k]);
            }
            assert(self.edges@.take(old(self).edges@.len() as int) == old(self).edges@);
            e = e + 1;
        }
    }

    /// A graph of `num_nodes` random nodes and `num_edges` random edges.
    pub fn new_random(num_nodes: usize, num_edges: usize) -> (res: Graph)
        requires
            num_nodes < usize::MAX,
            num_edges < usize::MAX,
            num_edges > 0 ==> num_nodes > 0,
        ensures
            res.wf(),
            res.nodes@.len() <= num_nodes,
            num_nodes > 0 ==> res.nodes@.len() > 0,
            res.edges@.len() == num_edges,
            forall|j: int| 0 <= j < res.edges@.len() ==> (#[trigger] res.edges@[j]).meta.weight == 1,
            forall|k: int|
                0 <= k < res.nodes@.len() ==> is_random_uuid((#[trigger] res.nodes@[k]).id) && 1
                    <= res.nodes@[k].meta.position.0 < 10 && 1 <= res.nodes@[k].meta.position.1 < 10,
            res.nodes@.len() < num_nodes ==> exists|id: u128| is_random_uuid(id) && #[trigger] res.has(id),
    {
        let mut graph = Graph::new();
        graph.randomize(num_nodes, num_edges);
        graph
    }

    /// Places every node at random on a square canvas `size` units wide, both
    /// coordinates drawn from `0..size`; nothing else changes.
    pub fn place_nodes_randomly(&mut self, size: i32)
        requires
            size > 0,
        ensures
            final(self).nodes@.len() == old(self).nodes@.len(),
            forall|i: int|
                0 <= i < final(self).nodes@.len() ==> (#[trigger] final(self).nodes@[i]).id == old(self).nodes@[i].id
                    && 0 <= final(self).nodes@[i].meta.position.0 < size && 0 <= final(self).nodes@[i].meta.position.1
                    < size,
            final(self).edges@ == old(self).edges@,
            final(self).node_lookup@ == old(self).node_lookup@,
            final(self).edge_lookup@ == old(self).edge_lookup@,
            old(self).wf() ==> final(self).wf(),
    {
        let mut i: usize = 0;
        while i < self.nodes.len()
            invariant
                i <= self.nodes@.len(),
                size > 0,
                self.nodes@.len() == old(self).nodes@.len(),
                forall|k: int| 0 <= k < self.nodes@.len() ==> (#[trigger] self.nodes@[k]).id == old(self).nodes@[k].id,
                forall|k: int|
                    0 <= k < i ==> 0 <= (#[trigger] self.nodes@[k]).meta.position.0 < size && 0 <= self.nodes@[k].meta.position.1
                        < size,
                self.edges@ == old(self).edges@,
                self.node_lookup@ == old(self).node_lookup@,
                self.edge_lookup@ == old(self).edge_lookup@,
            decreases self.nodes@.len() - i,
        {
            let x = random_between(0, size as i128) as i32;
            let y = random_between(0, size as i128) as i32;
            let id = self.nodes[i].id;
            self.nodes.set(i, GraphNode { id, meta: NodeMetaData { position: (x, y) } });
            i += 1;
        }
        proof {
            if old(self).wf() {
                lemma_same_ids_keep_wf(*old(self), *self);
            }
        }
    }

    /// Each edge as the places of its two nodes in the node list, source
    /// first, in the order of the edges.
    pub fn edge_index_pairs(&self) -> (pairs: Vec<(usize, usize)>)
        requires
            self.wf(),
        ensures
            pairs@.len() == self.edges@.len(),
            forall|j: int|
                0 <= j < pairs@.len() ==> (#[trigger] pairs@[j]).0 == self.node_lookup@[self.edges@[j].incoming]
                    && pairs@[j].1 == self.node_lookup@[self.edges@[j].outgoing],
    {
        let mut pairs: Vec<(usize, usize)> = Vec::new();
        let mut j: usize = 0;
        while j < self.edges.len()
            invariant
                self.wf(),
                j <= self.edges@.len(),
                pairs@.len() == j,
                forall|k: int|
                    0 <= k < j ==> (#[trigger] pairs@[k]).0 == self.node_lookup@[self.edges@[k].incoming]
                        && pairs@[k].1 == self.node_lookup@[self.edges@[k].outgoing],
            decreases self.edges@.len() - j,
        {
            let edge = self.edges[j];
            assert(self.has(self.edges@[j as int].incoming));
            let source = *self.node_lookup.get(&edge.incoming).unwrap();
            let target = *self.node_lookup.get(&edge.outgoing).unwrap();
            pairs.push((source, target));
            j += 1;
        }
        pairs
    }

    /// The nodes joined to `node_id` by an edge in either direction; empty
    /// when `node_id` is not a node.
    pub fn get_neighbors(&self, node_id: u128) -> (res: HashSet<u128>)
        requires
            self.wf(),
        ensures
            res@ == self.neighbors(node_id),
    {
        let mut neighbors: HashSet<u128> = HashSet::new();
        if self.node_lookup.contains_key(&node_id) {
            let mut j: usize = 0;
            while j < self.edges.len()
                invariant
                    j <= self.edges@.len(),
                    neighbors@ == self.neighbors_within(node_id, j as int),
                decreases self.edges@.len() - j,
            {
                let edge = self.edges[j];
                if edge.incoming == node_id {
                    neighbors.insert(edge.outgoing);
                }
                if edge.outgoing == node_id {
                    neighbors.insert(edge.incoming);
                }
                assert(neighbors@ =~= self.neighbors_within(node_id, j + 1)) by {
                    assert forall|b: u128| self.neighbors_within(node_id, j + 1).contains(b) implies neighbors@.contains(b) by {
                        let w = choose|w: int| 0 <= w < j + 1 && links(#[trigger] self.edges@[w], node_id, b);
                        if w < j {
                            assert(self.neighbors_within(node_id, j as int).contains(b));
                        }
                    }
                    assert forall|b: u128| neighbors@.contains(b) implies self.neighbors_within(node_id, j + 1).contains(b) by {
                        if self.neighbors_within(node_id, j as int).contains(b) {
                            let w = choose|w: int| 0 <= w < j && links(#[trigger] self.edges@[w], node_id, b);
                            assert(links(self.edges@[w], node_id, b));
                        } else {
                            assert(links(self.edges@[j as int], node_id, b));
                        }
                    }
                }
                j = j + 1;
            }
            assert(neighbors@ =~= self.neighbors(node_id)) by {
                assert forall|b: u128| self.neighbors(node_id).contains(b) implies neighbors@.contains(b) by {
                    let w = choose|w: int| 0 <= w < self.edges@.len() && links(#[trigger] self.edges@[w], node_id, b);
                    assert(self.neighbors_within(node_id, self.edges@.len() as int).contains(b));
                }
                assert forall|b: u128| neighbors@.contains(b) implies self.neighbors(node_id).contains(b) by {
                    let w = choose|w: int| 0 <= w < self.edges@.len() && links(#[trigger] self.edges@[w], node_id, b);
                    assert(self.adjacent(node_id, b));
                }
            }
        } else {
            assert(neighbors@ =~= self.neighbors(node_id));
        }
        neighbors
    }
}

/// Distinct identifiers of nodes of a graph are no more than the graph has nodes.
pub proof fn lemma_distinct_nodes_bounded(g: &Graph, s: Seq<u128>)
    requires
        g.wf(),
        s.no_duplicates(),
        forall|i: int| 0 <= i < s.len() ==> g.has(#[trigger] s[i]),
    ensures
        s.len() <= g.nodes@.len(),
{
    let idx = s.map_values(|x: u128| g.node_lookup@[x] as int);
    assert(idx.no_duplicates()) by {
        assert forall|i: int, j: int| 0 <= i < idx.len() && 0 <= j < idx.len() && i != j implies idx[i]
            != idx[j] by {
            assert(g.has(s[i]) && g.has(s[j]));
            assert(g.nodes@[g.node_lookup@[s[i]] as int].id == s[i]);
            assert(g.nodes@[g.node_lookup@[s[j]] as int].id == s[j]);
        }
    }
    idx.unique_seq_to_set();
    vstd::set_lib::lemma_int_range(0, g.nodes@.len() as int);
    assert(idx.to_set().subset_of(vstd::set_lib::set_int_range(0, g.nodes@.len() as int))) by {
        assert forall|x: int| idx.to_set().contains(x) implies vstd::set_lib::set_int_range(0, g.nodes@.len() as int).contains(x) by {
            let i = choose|i: int| 0 <= i < idx.len() && idx[i] == x;
            assert(g.has(s[i]));
        }
    }
    vstd::set_lib::lemma_len_subset(idx.to_set(), vstd::set_lib::set_int_range(0, g.nodes@.len() as int));
}

/// Neighborhood is mutual: one node of a graph is a neighbor of another
/// exactly when the other is a neighbor of the one.
pub proof fn lemma_neighbors_symmetric(g: &Graph, a: u128, b: u128)
    requires
        g.has(a),
        g.has(b),
    ensures
        g.neighbors(a).contains(b) == g.neighbors(b).contains(a),
{
    if g.neighbors(a).contains(b) {
        let j = choose|j: int| 0 <= j < g.edges@.len() && links(#[trigger] g.edges@[j], a, b);
        assert(links(g.edges@[j], b, a));
    }
    if g.neighbors(b).contains(a) {
        let j = choose|j: int| 0 <= j < g.edges@.len() && links(#[trigger] g.edges@[j], b, a);
        assert(links(g.edges@[j], a, b));
    }
}

/// Moving nodes about keeps a graph well formed: the same identifiers in the
/// same places, the same lookup and the same edges.
proof fn lemma_same_ids_keep_wf(before: Graph, after: Graph)
    requires
        before.wf(),
        after.nodes@.len() == before.nodes@.len(),
        forall|k: int| 0 <= k < after.nodes@.len() ==> (#[trigger] after.nodes@[k]).id == before.nodes@[k].id,
        after.node_lookup@ == before.node_lookup@,
        after.edges@ == before.edges@,
    ensures
        after.wf(),
{
    assert forall|k: int|
        0 <= k < after.nodes@.len() implies #[trigger] after.node_lookup@.contains_key(after.nodes@[k].id)
            && after.node_lookup@[after.nodes@[k].id] == k by {
        assert(after.nodes@[k].id == before.nodes@[k].id);
        assert(before.node_lookup@.contains_key(before.nodes@[k].id));
    }
    assert forall|key: u128| #[trigger] after.node_lookup@.contains_key(key) implies after.node_lookup@[key]
        < after.nodes@.len() && after.nodes@[after.node_lookup@[key] as int].id == key by {
        assert(before.node_lookup@.contains_key(key));
        let idx = before.node_lookup@[key] as int;
        assert(after.nodes@[idx].id == before.nodes@[idx].id);
    }
    assert forall|j: int| 0 <= j < after.edges@.len() implies after.has(#[trigger] after.edges@[j].incoming)
        && after.has(after.edges@[j].outgoing) by {
        assert(before.has(before.edges@[j].incoming));
    }
}

} // verus!
