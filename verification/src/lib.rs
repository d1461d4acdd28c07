//! Graphs whose vertices are identified by their labels, set algebra on
//! graphs, and a small language of set expressions over the vertex and edge
//! sets of named graphs.
pub mod order;
pub mod ordset;
pub mod graph;
pub mod graph_laws;
pub mod namemap;
pub mod expr;
pub mod workbench;
pub mod program;
pub mod adjacency;
pub mod editor_laws;
