//! A retrieval-augmented-generation pipeline: documents are split into
//! overlapping chunks, embedded into fixed-dimension vectors, stored in an
//! in-memory vector table, and retrieved by nearest-neighbor search to ground
//! chat prompts.

pub mod chunker;
pub mod document;
pub mod errors;
pub mod prompts;
pub mod provider;
pub mod session;
pub mod store;

pub use errors::RagError;
