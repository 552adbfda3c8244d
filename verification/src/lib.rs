//! Chunk rendering and symbol-canonicalization core of a module bundler:
//! assigns each chunk a collision-free set of output identifiers, computes the
//! cross-chunk import/export wiring, and renders a chunk's final text and
//! composed source map from its modules, deterministically.

pub mod ast_symbols;
pub mod bitset;
pub mod chunk;
pub mod common;
pub mod errors;
pub mod linker;
pub mod module;
pub mod names;
pub mod resolver;
pub mod sourcemap;
pub mod text;
