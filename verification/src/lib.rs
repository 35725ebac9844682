//! A collection of small programs' core logic, each module verified with Verus:
//! a connect-four board, a game-of-life seed, a graph with shortest-path
//! searches, a chat room registry, a repository crawler's bookkeeping, an OAuth
//! redirect reader, a static file server's request resolution, a flat list of
//! fixed-size points and a few helpers.
pub mod chat;
pub mod connect_four;
pub mod fs_map;
pub mod graph;
pub mod grid;
pub mod json_split;
pub mod life;
pub mod mirror;
pub mod oauth;
pub mod paths;
pub mod points;
mod random;
pub mod shortest_path;
pub mod slices;
pub mod static_files;
pub mod subnet;
pub mod text;
pub mod text_image;
