//! A single-pass parser for a small subset of the WebAssembly text format:
//! one outer `(module ...)` form holding `func` and `export` declarations.
//! Parsing is interleaved with a mutable symbol table (`Context`) that
//! resolves named references to positional indices and interns structurally
//! equal function signatures, so the finished `Module` carries numbers only.

pub mod ast;
pub mod context;
pub mod error;
pub mod instruction;
pub mod laws;
pub mod module;
pub mod token;
pub mod types;
pub mod values;
