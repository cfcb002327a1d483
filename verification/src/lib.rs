//! Execution and translation of a minimal byte-oriented, tape-based
//! language of eight single-character commands.
//!
//! The core is the command-stream execution model — a bounded tape with
//! wraparound cell arithmetic and clamped head movement, bracket-matching
//! jump resolution, and a small-step interpreter proved to follow that
//! model — together with the translation pipeline: run-length folding of
//! repeated commands into counted statements, recursive partitioning of
//! loop bodies into a forest of numbered functions, and rendering of the
//! forest as procedural source text.

pub mod code_parser;
pub mod ctranslator;
pub mod decimal;
pub mod errors;
pub mod interpreter;
pub mod jump_resolver;
pub mod machine;
pub mod memory_tape;
