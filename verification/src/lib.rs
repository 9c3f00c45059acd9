//! A semantic code-search index: source files are cut into spans, the
//! spans are embedded in batches, and finished files are written to a
//! vector store.
//!
//! This crate holds the rules of that pipeline as verified functions on
//! plain values: what a span is, how empty slots are batched, where the
//! vectors of a batch go, when a file has left the pipeline, how a
//! directory's job counts its files, and which commands write a file.
//! Tasks, channels, files on disk and the store connection live with the
//! caller, which performs what the functions here decide.
//!
//! Embedding vectors are held as the bit patterns of their components.

pub mod db;
pub mod directory_state;
pub mod embed_worker;
pub mod embedding;
pub mod embedding_queue;
pub mod file_context;
pub mod file_table;
pub mod languages;
pub mod parsers;
pub mod parsing;
pub mod pipeline;
pub mod semantic_index;
pub mod treesitter;
pub mod walk;
