//! The parsed form the evaluator consumes: an ordered sequence of statements
//! over a closed set of expression shapes. Shapes outside the supported
//! subset are carried as `Unsupported` and rejected at evaluation time,
//! not at parse time.

use vstd::prelude::*;

verus! {

/// One expression of the snippet language.
#[derive(Debug)]
pub enum Expr {
    /// An integer literal, kept in its textual form.
    Lit(String),
    /// A bare variable name.
    Path(String),
    /// A reference-taking expression `&e`.
    Reference(Box<Expr>),
    /// A dereference `*e`.
    Deref(Box<Expr>),
    /// An assignment `lhs = rhs`.
    Assign(Box<Expr>, Box<Expr>),
    /// Any expression shape outside the supported subset.
    Unsupported,
}

/// The pattern of a declaration.
#[derive(Debug)]
pub enum Pat {
    /// A single bound name.
    Ident(String),
    /// Any other pattern form.
    Unsupported,
}

/// One statement of the snippet language.
#[derive(Debug)]
pub enum Stmt {
    /// A declaration `let <pat>;` or `let <pat> = <expr>;`.
    Local(Pat, Option<Expr>),
    /// An expression statement `<expr>;`, evaluated for its side effects.
    Semi(Expr),
    /// Any other statement shape.
    Unsupported,
}

/// A parsed block: an ordered sequence of statements.
#[derive(Debug)]
pub struct Block {
    pub stmts: Vec<Stmt>,
}

} // verus!
