//! Verified source assembler for a line-numbered BASIC dialect.
//!
//! The library concatenates a main source file with its declared
//! dependencies, assigns scaled line numbers, resolves symbolic jump
//! labels into those numbers, and reformats banner comment lines to a
//! target display width.

pub mod assemble;
pub mod commands;
pub mod config;
pub mod format;
pub mod labels;
pub mod laws;
pub mod lines;
pub mod text;
pub mod writer;
