//! An undirected, weighted graph stored as adjacency lists.

pub mod graph;
pub mod lemmas;
pub mod model;
pub mod table;

pub use graph::Graph;
pub use graph::NodeNotInGraph;
pub use graph::UndirectedGraph;
pub use table::AdjacencyTable;
