use std::collections::HashSet;
use workbench::graph::{AddEdgeError, Graph, NodeMetaData};
use workbench::shortest_path::bfs::dfs;
use workbench::shortest_path::dijkstra::dijkstra;

fn graph_with(n: usize) -> (Graph, Vec<u128>) {
    let mut g = Graph::new();
    for _ in 0..n {
        g.add_node();
    }
    assert_eq!(g.nodes.len(), n);
    let ids = g.nodes.iter().map(|n| n.id).collect();
    (g, ids)
}

#[test]
fn new_graph_is_empty() {
    let g = Graph::new();
    assert!(g.nodes.is_empty());
    assert!(g.edges.is_empty());
    assert!(g.node_lookup.is_empty());
    assert!(g.edge_lookup.is_empty());
}

#[test]
fn add_node_records_index_and_position() {
    let (g, ids) = graph_with(3);
    for (i, id) in ids.iter().enumerate() {
        assert_eq!(g.node_lookup[id], i);
        let (x, y) = g.nodes[i].meta.position;
        assert!((1..10).contains(&x) && (1..10).contains(&y));
    }
}

#[test]
fn node_meta_new_random_stays_in_range() {
    for _ in 0..50 {
        let m = NodeMetaData::new_random(-3..4);
        assert!((-3..4).contains(&m.position.0));
        assert!((-3..4).contains(&m.position.1));
    }
}

#[test]
fn add_outgoing_edge_records_edge_with_unit_weight() {
    let (mut g, ids) = graph_with(2);
    assert_eq!(g.add_outgoing_edge(ids[0], ids[1]), Ok(()));
    assert_eq!(g.edges.len(), 1);
    assert_eq!(g.edges[0].incoming, ids[0]);
    assert_eq!(g.edges[0].outgoing, ids[1]);
    assert_eq!(g.edges[0].meta.weight, 1);
    assert_eq!(g.edge_lookup, vec![((ids[0], ids[1]), 1)]);
}

#[test]
fn add_edge_errors_name_the_missing_nodes() {
    let (mut g, ids) = graph_with(1);
    let ghost: u128 = 7;
    let other: u128 = 9;
    assert_eq!(g.add_outgoing_edge(ids[0], ghost), Err(AddEdgeError::TargetNodeMissing(ghost)));
    assert_eq!(g.add_outgoing_edge(ghost, ids[0]), Err(AddEdgeError::SourceNodeMissing(ghost)));
    assert_eq!(g.add_outgoing_edge(ghost, other), Err(AddEdgeError::BothNodesMissing(ghost, other)));
    assert!(g.edges.is_empty());
    assert_eq!(AddEdgeError::TargetNodeMissing(1).to_string(), "TargetNodeMissing");
    assert_eq!(AddEdgeError::SourceNodeMissing(1).to_string(), "SourceNodeMissing");
    assert_eq!(AddEdgeError::BothNodesMissing(1, 2).to_string(), "BothNodesMissing");
}

#[test]
fn add_incoming_edge_reverses_the_direction() {
    let (mut g, ids) = graph_with(2);
    assert_eq!(g.add_incoming_edge(ids[0], ids[1]), Ok(()));
    assert_eq!(g.edges[0].incoming, ids[1]);
    assert_eq!(g.edges[0].outgoing, ids[0]);
}

#[test]
fn get_neighbors_follows_edges_both_ways() {
    let (mut g, ids) = graph_with(4);
    g.add_outgoing_edge(ids[0], ids[1]).unwrap();
    g.add_outgoing_edge(ids[2], ids[0]).unwrap();
    let n: HashSet<u128> = g.get_neighbors(ids[0]);
    assert_eq!(n, [ids[1], ids[2]].into_iter().collect());
    assert!(g.get_neighbors(ids[3]).is_empty());
    assert!(g.get_neighbors(12345).is_empty());
}

#[test]
fn random_graph_has_requested_edges_between_its_nodes() {
    let g = Graph::new_random(10, 15);
    assert_eq!(g.nodes.len(), 10);
    assert_eq!(g.edges.len(), 15);
    for e in &g.edges {
        assert!(g.node_lookup.contains_key(&e.incoming));
        assert!(g.node_lookup.contains_key(&e.outgoing));
    }
    let picked = g.get_random_node();
    assert!(g.node_lookup.contains_key(&picked));
}

#[test]
fn dfs_records_a_shortest_path_to_every_reachable_node() {
    // 0 - 1 - 2 - 3 and a shortcut 0 - 3; 4 is alone.
    let (mut g, ids) = graph_with(5);
    g.add_outgoing_edge(ids[0], ids[1]).unwrap();
    g.add_outgoing_edge(ids[1], ids[2]).unwrap();
    g.add_outgoing_edge(ids[2], ids[3]).unwrap();
    g.add_outgoing_edge(ids[3], ids[0]).unwrap();
    let paths = dfs(&g, ids[0]);
    assert_eq!(paths.len(), 4);
    assert_eq!(paths[&ids[0]], vec![ids[0]]);
    assert_eq!(paths[&ids[1]], vec![ids[0], ids[0]]);
    assert_eq!(paths[&ids[3]], vec![ids[0], ids[0]]);
    assert_eq!(paths[&ids[2]].len(), 3);
    assert!(!paths.contains_key(&ids[4]));
}

#[test]
fn dfs_from_an_unknown_node_finds_only_itself() {
    let (g, _) = graph_with(2);
    let paths = dfs(&g, 99);
    assert_eq!(paths.len(), 1);
    assert_eq!(paths[&99], vec![99]);
}

#[test]
fn dijkstra_takes_the_fewest_edges_along_their_direction() {
    let (mut g, ids) = graph_with(5);
    g.add_outgoing_edge(ids[0], ids[1]).unwrap();
    g.add_outgoing_edge(ids[1], ids[2]).unwrap();
    g.add_outgoing_edge(ids[2], ids[3]).unwrap();
    g.add_outgoing_edge(ids[0], ids[2]).unwrap();
    assert_eq!(dijkstra(&g, ids[0], ids[3]), Some(vec![ids[0], ids[2], ids[3]]));
    assert_eq!(dijkstra(&g, ids[3], ids[0]), None);
    assert_eq!(dijkstra(&g, ids[0], ids[4]), None);
    assert_eq!(dijkstra(&g, ids[1], ids[1]), Some(vec![ids[1]]));
}

#[test]
fn dijkstra_weighs_edges() {
    let (mut g, ids) = graph_with(3);
    g.add_outgoing_edge(ids[0], ids[2]).unwrap();
    g.add_outgoing_edge(ids[0], ids[1]).unwrap();
    g.add_outgoing_edge(ids[1], ids[2]).unwrap();
    g.edges[0].meta.weight = 5;
    assert_eq!(dijkstra(&g, ids[0], ids[2]), Some(vec![ids[0], ids[1], ids[2]]));
    g.edges[0].meta.weight = 1;
    assert_eq!(dijkstra(&g, ids[0], ids[2]), Some(vec![ids[0], ids[2]]));
}

#[test]
fn neighbours_are_mutual_and_dijkstra_targets_are_dfs_reachable() {
    let (mut g, ids) = graph_with(4);
    g.add_outgoing_edge(ids[0], ids[1]).unwrap();
    g.add_outgoing_edge(ids[1], ids[2]).unwrap();
    for a in &ids {
        for b in &ids {
            assert_eq!(g.get_neighbors(*a).contains(b), g.get_neighbors(*b).contains(a));
        }
    }
    let reached = dfs(&g, ids[0]);
    for t in &ids {
        if dijkstra(&g, ids[0], *t).is_some() {
            assert!(reached.contains_key(t));
        }
    }
    // dfs follows edges both ways, dijkstra only forwards
    let back = dfs(&g, ids[2]);
    assert!(back.contains_key(&ids[0]));
    assert_eq!(dijkstra(&g, ids[2], ids[0]), None);
}

#[test]
fn placing_nodes_keeps_them_on_the_canvas() {
    let (mut g, ids) = graph_with(6);
    g.add_outgoing_edge(ids[0], ids[5]).unwrap();
    g.place_nodes_randomly(1000);
    assert_eq!(g.nodes.iter().map(|n| n.id).collect::<Vec<_>>(), ids);
    for n in &g.nodes {
        assert!((0..1000).contains(&n.meta.position.0) && (0..1000).contains(&n.meta.position.1));
    }
    assert_eq!(g.edges.len(), 1);
    assert_eq!(dijkstra(&g, ids[0], ids[5]), Some(vec![ids[0], ids[5]]));
}

#[test]
fn edges_as_node_places() {
    let (mut g, ids) = graph_with(3);
    g.add_outgoing_edge(ids[2], ids[0]).unwrap();
    g.add_outgoing_edge(ids[1], ids[1]).unwrap();
    assert_eq!(g.edge_index_pairs(), vec![(2, 0), (1, 1)]);
}

#[test]
fn add_node_with_appends_unless_taken() {
    let mut g = Graph::new();
    g.add_node_with(42, NodeMetaData { position: (3, 4) });
    g.add_node_with(7, NodeMetaData { position: (5, 6) });
    assert_eq!(g.nodes.len(), 2);
    assert_eq!(g.nodes[1].id, 7);
    assert_eq!(g.nodes[1].meta.position, (5, 6));
    assert_eq!(g.node_lookup[&42], 0);
    assert_eq!(g.node_lookup[&7], 1);
    g.add_node_with(42, NodeMetaData { position: (9, 9) });
    assert_eq!(g.nodes.len(), 2);
    assert_eq!(g.nodes[0].meta.position, (3, 4));
}

#[test]
fn added_nodes_have_version_four_ids() {
    let (g, ids) = graph_with(4);
    let mask: u128 = 0x0000_0000_0000_F000_C000_0000_0000_0000;
    let bits: u128 = 0x0000_0000_0000_4000_8000_0000_0000_0000;
    for id in ids {
        assert_eq!(id & mask, bits);
    }
    assert_eq!(g.nodes.len(), 4);
}

#[test]
fn dijkstra_from_a_node_to_itself_is_that_node_even_on_a_free_cycle() {
    let (mut g, ids) = graph_with(2);
    g.add_outgoing_edge(ids[0], ids[1]).unwrap();
    g.add_outgoing_edge(ids[1], ids[0]).unwrap();
    g.edges[0].meta.weight = 0;
    g.edges[1].meta.weight = 0;
    assert_eq!(dijkstra(&g, ids[0], ids[0]), Some(vec![ids[0]]));
    assert_eq!(dijkstra(&g, 77, 77), Some(vec![77]));
}
