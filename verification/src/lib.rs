//! A single-pass code generator that lowers the syntax tree of a Lua dialect
//! into register-based bytecode prototypes.
//!
//! `model` and `lowering` say what the generator does, as functions on plain
//! values; the other modules hold the generator, each of whose functions is
//! proved to do what those say; `theorems` derives the code of some programs
//! from them.

pub mod assign;
pub mod ast;
pub mod cast;
pub mod descriptor;
pub mod discharge;
pub mod error;
pub mod expr;
pub mod function;
pub mod locals;
pub mod lowering;
pub mod model;
pub mod opcode;
pub mod operand;
pub mod operators;
pub mod register_allocator;
pub mod resolve;
pub mod returning;
pub mod scope;
pub mod state;
pub mod statement;
pub mod suffixed;
pub mod theorems;
pub mod top_stack;
pub mod value;
pub mod walk;

pub use statement::compile_chunk;
