//! Lark: a small experimental language toolchain. This crate holds its
//! verified core: index vectors, shared sequences, error tracking,
//! interned entities and identifiers, the high-level IR, an evaluator,
//! the lowering of function bodies to bytecode, Rust and C code
//! generators, name resolution and entity queries, and the pure parts of
//! the REPL, the language-server protocol framing and the actor messages.
pub mod indices;
pub mod collections;
pub mod strings;
pub mod span;
pub mod error;
pub mod numbers;
pub mod entity;
pub mod hir;
pub mod db;
pub mod codegen_hir;
pub mod mir;
pub mod codegen_rust;
pub mod codegen_c;
pub mod rust_file;
pub mod codegen;
pub mod eval;
pub mod actor;
pub mod lsp;
pub mod repl;
pub mod scope;
pub mod bytecode;
pub mod queries;
pub mod hir_lower;
pub mod type_conversion;
