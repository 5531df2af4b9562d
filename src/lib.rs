/// Code blocks and their stored form.
pub mod blocks;
/// Embedding vectors, the exact nearest-neighbour index and the embedding model.
pub mod embeddings;
/// Errors of the index.
pub mod error;
/// Laws that relate the operations of the store.
pub mod laws;
/// Project names.
pub mod names;
/// Response bodies.
pub mod responses;
/// Project-namespaced block storage.
pub mod sqlite;
/// The coordinator: lifecycle, ingest and search.
pub mod vector_store;
