pub mod chunker;
pub mod embedder;
