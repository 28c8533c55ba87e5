//! Code generator for a small statically typed imperative language with
//! structs, free functions, and struct-bound methods.
//!
//! The core is the typed-AST-to-IR lowering stage: it turns an already
//! type-checked syntax tree into a control-flow graph of basic blocks,
//! computes memory layouts for aggregate types, manages per-function symbol
//! scoping, and prepares everything the emission driver needs to produce an
//! object file and a linked executable.
#![verifier::loop_isolation(false)]

pub mod assembler;
pub mod ast;
pub mod checker;
pub mod codegen;
pub mod compiler;
pub mod errors;
pub mod ir;
pub mod layout;
pub mod text;
