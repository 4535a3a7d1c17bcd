//! A tree-walking interpreter for a small imperative snippet language:
//! variable declarations, reference-taking, dereferencing, and assignment
//! (including assignment through a dereferenced reference).
//!
//! The evaluator works on an already-parsed block of statements; turning
//! source text into that block is left to an external parsing collaborator.

pub mod ast;
pub mod env;
pub mod eval;
pub mod error;
pub mod laws;
pub mod order;
pub mod semantics;
pub mod value;

pub use ast::{Block, Expr, Pat, Stmt};
pub use env::Environment;
pub use eval::{Interpreter, ReferenceModel};
pub use error::{ErrorV, EvalError};
pub use order::{compare_names, lex_lt};
pub use value::{Place, Value, ValueV};
