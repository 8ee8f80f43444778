//! A small stack-based scripting language: a reverse-Polish evaluator over
//! whitespace-delimited tokens, with integer literals, built-in and
//! user-defined operators, deferred `{ ... }` code blocks, named bindings and
//! a two-way conditional.

pub mod arith;
pub mod eval;
pub mod laws;
pub mod num;
pub mod parse;
pub mod semantics;
pub mod value;
pub mod vm;

pub use eval::{dup, eval, exch, index, op_def, op_if, pop, puts};
pub use parse::{classify, parse_batch, parse_word};
pub use value::{EvalError, NativeOp, Value, ValueKind};
pub use vm::Vm;
