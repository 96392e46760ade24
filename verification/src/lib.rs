//! An autonomous "propose -> apply -> verify -> retry" change loop:
//! context selection, sanitization of generated text into a unified diff,
//! multi-strategy patch application, test-output parsing, and the bounded
//! retry cycle that ties them together, with a persistent conversation log.

pub mod edit;
pub mod strutil;
pub mod hooks;
pub mod index;
pub mod orchestrator;
pub mod llm;
pub mod utils;
