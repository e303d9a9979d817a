//! Scarab: a small Lisp-flavoured expression language.
//!
//! Source text flows through a positioned character source, a tokenizer, a
//! recursive-descent parser, a type-checking compiler with a scoped register
//! allocator, and a register virtual machine with windowed calls.

pub mod builtins;
pub mod code;
pub mod compiler;
pub mod parser;
pub mod reader;
pub mod source;
pub mod text;
pub mod tokenizer;
pub mod types;
pub mod value;
pub mod vm;
