//! Example vector stores.

pub mod lazy_memory_store;
