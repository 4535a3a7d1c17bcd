//! The evaluation rules, written as functions over the environment's map
//! model. The executable evaluator is specified against these rules, and the
//! library's laws are stated in terms of them.

use vstd::prelude::*;

use crate::ast::{Expr, Pat, Stmt};
use crate::env::lookup_s;
use crate::error::ErrorV;
use crate::value::ValueV;

verus! {

/// Resolves an expression that denotes a storage location down to the
/// underlying place name: a bare name resolves to itself; a dereference
/// resolves its operand, reads that place, and follows the reference found
/// there. Any other shape is not a location expression.
pub open spec fn eval_place_s(e: Expr, m: Map<Seq<char>, ValueV>) -> Result<Seq<char>, ErrorV>
    decreases e, 0int,
{
    match e {
        Expr::Path(name) => Result::Ok(name@),
        Expr::Deref(inner) => match eval_place_s(*inner, m) {
            Result::Ok(p) => match lookup_s(m, p) {
                Result::Ok(ValueV::Ref(q)) => Result::Ok(q),
                Result::Ok(_) => Result::Err(ErrorV::TypeMismatch),
                Result::Err(er) => Result::Err(er),
            },
            Result::Err(er) => Result::Err(er),
        },
        _ => Result::Err(ErrorV::UnsupportedConstruct),
    }
}

/// Computes the value of an expression together with the environment it
/// leaves behind; only assignment changes the environment. A reference is
/// taken of a bare name alone and captures the name, never the referent's
/// value; a dereference re-reads the resolved place at the moment of access;
/// an assignment resolves its left side against the environment as it stood
/// before the right side ran, and yields unit.
pub open spec fn eval_expr_s(e: Expr, m: Map<Seq<char>, ValueV>) -> Result<
    (ValueV, Map<Seq<char>, ValueV>),
    ErrorV,
>
    decreases e, 1int,
{
    match e {
        Expr::Lit(t) => Result::Ok((ValueV::Lit(t@), m)),
        Expr::Path(name) => match lookup_s(m, name@) {
            Result::Ok(v) => Result::Ok((v, m)),
            Result::Err(er) => Result::Err(er),
        },
        Expr::Reference(inner) => match *inner {
            Expr::Path(name) => Result::Ok((ValueV::Ref(name@), m)),
            _ => Result::Err(ErrorV::UnsupportedConstruct),
        },
        Expr::Deref(_) => match eval_place_s(e, m) {
            Result::Ok(p) => match lookup_s(m, p) {
                Result::Ok(v) => Result::Ok((v, m)),
                Result::Err(er) => Result::Err(er),
            },
            Result::Err(er) => Result::Err(er),
        },
        Expr::Assign(left, right) => match eval_place_s(*left, m) {
            Result::Ok(l) => match eval_expr_s(*right, m) {
                Result::Ok((rv, m2)) => Result::Ok((ValueV::Unit, m2.insert(l, rv))),
                Result::Err(er) => Result::Err(er),
            },
            Result::Err(er) => Result::Err(er),
        },
        _ => Result::Err(ErrorV::UnsupportedConstruct),
    }
}

/// Executes one statement: a declaration binds its single name to the
/// initializer's value, or to the `Undefined` sentinel when there is none;
/// an expression statement runs its expression for its side effects.
pub open spec fn eval_stmt_s(s: Stmt, m: Map<Seq<char>, ValueV>) -> Result<
    Map<Seq<char>, ValueV>,
    ErrorV,
> {
    match s {
        Stmt::Local(pat, init) => match pat {
            Pat::Ident(name) => match init {
                Option::Some(e) => match eval_expr_s(e, m) {
                    Result::Ok((v, m2)) => Result::Ok(m2.insert(name@, v)),
                    Result::Err(er) => Result::Err(er),
                },
                Option::None => Result::Ok(m.insert(name@, ValueV::Undefined)),
            },
            Pat::Unsupported => Result::Err(ErrorV::UnsupportedConstruct),
        },
        Stmt::Semi(e) => match eval_expr_s(e, m) {
            Result::Ok((_, m2)) => Result::Ok(m2),
            Result::Err(er) => Result::Err(er),
        },
        Stmt::Unsupported => Result::Err(ErrorV::UnsupportedConstruct),
    }
}

/// Runs statements in order against one shared environment: a strict linear
/// fold that halts on the first failing statement and propagates its error
/// unchanged.
pub open spec fn eval_block_s(stmts: Seq<Stmt>, m: Map<Seq<char>, ValueV>) -> Result<
    Map<Seq<char>, ValueV>,
    ErrorV,
>
    decreases stmts.len(),
{
    if stmts.len() == 0 {
        Result::Ok(m)
    } else {
        match eval_stmt_s(stmts[0], m) {
            Result::Ok(m2) => eval_block_s(stmts.drop_first(), m2),
            Result::Err(er) => Result::Err(er),
        }
    }
}

/// Block evaluation composes: running two statement sequences in a row is
/// running their concatenation.
pub proof fn lemma_eval_block_compose(s1: Seq<Stmt>, s2: Seq<Stmt>, m: Map<Seq<char>, ValueV>)
    ensures
        eval_block_s(s1 + s2, m) == (match eval_block_s(s1, m) {
            Result::Ok(m2) => eval_block_s(s2, m2),
            Result::Err(er) => Result::Err(er),
        }),
    decreases s1.len(),
{
    if s1.len() == 0 {
        assert(s1 + s2 =~= s2);
    } else {
        assert((s1 + s2)[0] == s1[0]);
        assert((s1 + s2).len() > 0);
        match eval_stmt_s(s1[0], m) {
            Result::Ok(m2) => {
                assert((s1 + s2).drop_first() =~= s1.drop_first() + s2);
                lemma_eval_block_compose(s1.drop_first(), s2, m2);
            },
            Result::Err(er) => {},
        }
    }
}

} // verus!
