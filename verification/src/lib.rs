//! Verified core of a PDF question-answering back end: text clean-up,
//! page-cited chunking, the in-memory document store, ranking of chunks by
//! similarity and prompt assembly, and the size-bounded JPEG re-encoder.
pub mod keys;
pub mod pdf;
pub mod picture;
pub mod prompt;
pub mod ranking;
pub mod store;
pub mod text;
pub mod utils;
