//! Guard-line insertion for G-code-like machine-control text.
//!
//! The library rewrites a document, given as an ordered sequence of lines:
//! every line that starts with a marker prefix (`"G0"` in the stock
//! configuration) is surrounded by a guard line before (`"M5"`) and a guard
//! line after (`"M3"`); every other line passes through unchanged. The
//! transform is pure and line-local; reading and writing files, and any
//! user interface around them, belong to the caller.

pub mod laws;
pub mod rewriter;
