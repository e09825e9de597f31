//! An approximate nearest-neighbour index built on hierarchical navigable
//! small worlds, generic over the store that holds the vectors and the store
//! that holds the graph.

pub mod examples;
pub mod graph_store;
pub mod hamming;
pub mod hnsw_db;
pub mod linear_db;
pub mod mock_store;
pub mod vector_store;

pub use graph_store::GraphStore;
pub use vector_store::{Ref, VectorStore};
