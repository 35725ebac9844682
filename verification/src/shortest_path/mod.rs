//! Paths through a graph: every shortest path from one node by depth-first
//! search, and one cheapest path between two nodes by Dijkstra's algorithm.
pub mod bfs;
pub mod dijkstra;
