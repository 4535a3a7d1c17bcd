//! The executable evaluator: place resolution, expression and statement
//! evaluation, and the block driver, each proved to follow the evaluation
//! rules of the semantics module.

use vstd::prelude::*;

use crate::ast::{Block, Expr, Pat, Stmt};
use crate::env::Environment;
use crate::error::{ErrorV, EvalError, res_view, unit_res_view};
use crate::semantics::{eval_block_s, eval_expr_s, eval_place_s, eval_stmt_s, lemma_eval_block_compose};
use crate::value::{Place, Value, ValueV};

verus! {

/// What evaluating an expression leaves behind: on success the spec's value
/// and environment, on failure the spec's error with the environment as it
/// was. A failing expression never keeps a partial mutation.
pub open spec fn expr_outcome(
    e: Expr,
    m0: Map<Seq<char>, ValueV>,
    r: Result<ValueV, ErrorV>,
    m1: Map<Seq<char>, ValueV>,
) -> bool {
    match eval_expr_s(e, m0) {
        Result::Ok(p) => r == Result::<ValueV, ErrorV>::Ok(p.0) && m1 == p.1,
        Result::Err(er) => r == Result::<ValueV, ErrorV>::Err(er) && m1 == m0,
    }
}

/// What executing one statement leaves behind, in the same way.
pub open spec fn stmt_outcome(
    s: Stmt,
    m0: Map<Seq<char>, ValueV>,
    r: Result<(), ErrorV>,
    m1: Map<Seq<char>, ValueV>,
) -> bool {
    match eval_stmt_s(s, m0) {
        Result::Ok(m2) => r == Result::<(), ErrorV>::Ok(()) && m1 == m2,
        Result::Err(er) => r == Result::<(), ErrorV>::Err(er) && m1 == m0,
    }
}

/// What running a whole block leaves behind. On failure the first error is
/// surfaced unchanged, and the environment keeps exactly the effects of the
/// statements before the failing one.
pub open spec fn block_outcome(
    stmts: Seq<Stmt>,
    m0: Map<Seq<char>, ValueV>,
    r: Result<(), ErrorV>,
    m1: Map<Seq<char>, ValueV>,
) -> bool {
    match eval_block_s(stmts, m0) {
        Result::Ok(m2) => r == Result::<(), ErrorV>::Ok(()) && m1 == m2,
        Result::Err(er) => r == Result::<(), ErrorV>::Err(er) && (exists|k: int|
            0 <= k < stmts.len()
                && #[trigger] eval_block_s(stmts.take(k), m0)
                    == Result::<Map<Seq<char>, ValueV>, ErrorV>::Ok(m1)
                && eval_stmt_s(stmts[k], m1) == Result::<Map<Seq<char>, ValueV>, ErrorV>::Err(er)),
    }
}

/// An evaluation strategy: anything that can run a block of statements
/// against an environment. Alternative semantics can be substituted behind
/// the same entry point without touching the environment or the driver.
pub trait Interpreter {
    /// Runs every statement of the block, in order, against the environment.
    fn eval_block(&self, block: &Block, env: &mut Environment) -> (r: Result<(), EvalError>)
        requires
            old(env).wf(),
        ensures
            final(env).wf(),
    ;
}

/// The reference semantics: mutable bindings in a flat store, with live
/// pointer-by-name references.
pub struct ReferenceModel;

impl ReferenceModel {
    /// Resolves a location expression to the place it denotes, following
    /// references transitively, live at each hop.
    pub fn eval_place(&self, expr: &Expr, env: &Environment) -> (r: Result<Place, EvalError>)
        requires
            env.wf(),
        ensures
            res_view(r) == eval_place_s(*expr, env.as_map()),
        decreases *expr, 0int,
    {
        match expr {
            Expr::Path(name) => Result::Ok(name.clone()),
            Expr::Deref(inner) => {
                let place = match self.eval_place(&**inner, env) {
                    Result::Ok(p) => p,
                    Result::Err(er) => {
                        return Result::Err(er);
                    },
                };
                let value = match env.lookup(&place) {
                    Result::Ok(v) => v,
                    Result::Err(er) => {
                        return Result::Err(er);
                    },
                };
                match value {
                    Value::Ref(q) => Result::Ok(q),
                    _ => Result::Err(EvalError::TypeMismatch),
                }
            },
            _ => Result::Err(EvalError::UnsupportedConstruct),
        }
    }

    /// Computes the value of an expression, mutating the environment when the
    /// expression assigns.
    pub fn eval_expr(&self, expr: &Expr, env: &mut Environment) -> (r: Result<Value, EvalError>)
        requires
            old(env).wf(),
        ensures
            final(env).wf(),
            expr_outcome(*expr, old(env).as_map(), res_view(r), final(env).as_map()),
        decreases *expr, 1int,
    {
        match expr {
            Expr::Lit(t) => Result::Ok(Value::Lit(t.clone())),
            Expr::Path(name) => match env.lookup(name) {
                Result::Ok(v) => Result::Ok(v),
                Result::Err(er) => Result::Err(er),
            },
            Expr::Reference(inner) => match &**inner {
                Expr::Path(name) => Result::Ok(Value::Ref(name.clone())),
                _ => Result::Err(EvalError::UnsupportedConstruct),
            },
            Expr::Deref(_) => {
                let place = match self.eval_place(expr, env) {
                    Result::Ok(p) => p,
                    Result::Err(er) => {
                        return Result::Err(er);
                    },
                };
                match env.lookup(&place) {
                    Result::Ok(v) => Result::Ok(v),
                    Result::Err(er) => Result::Err(er),
                }
            },
            Expr::Assign(left, right) => {
                let l = match self.eval_place(&**left, env) {
                    Result::Ok(p) => p,
                    Result::Err(er) => {
                        return Result::Err(er);
                    },
                };
                let rv = match self.eval_expr(&**right, env) {
                    Result::Ok(v) => v,
                    Result::Err(er) => {
                        return Result::Err(er);
                    },
                };
                env.insert(l, rv);
                Result::Ok(Value::Unit)
            },
            _ => Result::Err(EvalError::UnsupportedConstruct),
        }
    }

    /// Executes one statement against the environment.
    pub fn eval_stmt(&self, stmt: &Stmt, env: &mut Environment) -> (r: Result<(), EvalError>)
        requires
            old(env).wf(),
        ensures
            final(env).wf(),
            stmt_outcome(*stmt, old(env).as_map(), unit_res_view(r), final(env).as_map()),
    {
        match stmt {
            Stmt::Local(pat, init) => {
                let name = match pat {
                    Pat::Ident(n) => n,
                    Pat::Unsupported => {
                        return Result::Err(EvalError::UnsupportedConstruct);
                    },
                };
                let v = match init {
                    Option::Some(e) => match self.eval_expr(e, env) {
                        Result::Ok(v) => v,
                        Result::Err(er) => {
                            return Result::Err(er);
                        },
                    },
                    Option::None => Value::Undefined,
                };
                env.insert(name.clone(), v);
                Result::Ok(())
            },
            Stmt::Semi(e) => match self.eval_expr(e, env) {
                Result::Ok(_) => Result::Ok(()),
                Result::Err(er) => Result::Err(er),
            },
            Stmt::Unsupported => Result::Err(EvalError::UnsupportedConstruct),
        }
    }

    /// Runs a whole block: a strict linear fold over the statements that
    /// halts on the first error and propagates it unchanged.
    pub fn eval_block(&self, block: &Block, env: &mut Environment) -> (r: Result<(), EvalError>)
        requires
            old(env).wf(),
        ensures
            final(env).wf(),
            block_outcome(block.stmts@, old(env).as_map(), unit_res_view(r), final(env).as_map()),
    {
        let n = block.stmts.len();
        let mut i: usize = 0;
        proof {
            assert(block.stmts@.skip(0) =~= block.stmts@);
            assert(block.stmts@.take(0) =~= Seq::<Stmt>::empty());
        }
        while i < n
            invariant
                i <= n,
                n == block.stmts.len(),
                env.wf(),
                eval_block_s(block.stmts@.take(i as int), old(env).as_map())
                    == Result::<Map<Seq<char>, ValueV>, ErrorV>::Ok(env.as_map()),
                eval_block_s(block.stmts@, old(env).as_map())
                    == eval_block_s(block.stmts@.skip(i as int), env.as_map()),
            decreases n - i,
        {
            let ghost mi = env.as_map();
            let r = self.eval_stmt(&block.stmts[i], env);
            match r {
                Result::Ok(_) => {
                    proof {
                        let stmts = block.stmts@;
                        let m0 = old(env).as_map();
                        let one = seq![stmts[i as int]];
                        assert(eval_stmt_s(stmts[i as int], mi)
                            == Result::<Map<Seq<char>, ValueV>, ErrorV>::Ok(env.as_map()));
                        assert(one.drop_first() =~= Seq::<Stmt>::empty());
                        assert(eval_block_s(one.drop_first(), env.as_map())
                            == Result::<Map<Seq<char>, ValueV>, ErrorV>::Ok(env.as_map()));
                        assert(eval_block_s(one, mi)
                            == Result::<Map<Seq<char>, ValueV>, ErrorV>::Ok(env.as_map()));
                        assert(stmts.take(i as int + 1) =~= stmts.take(i as int) + one);
                        lemma_eval_block_compose(stmts.take(i as int), one, m0);
                        assert(eval_block_s(stmts.take(i as int + 1), m0)
                            == Result::<Map<Seq<char>, ValueV>, ErrorV>::Ok(env.as_map()));
                        let rest = stmts.skip(i as int);
                        assert(rest.len() > 0);
                        assert(rest[0] == stmts[i as int]);
                        assert(rest.drop_first() =~= stmts.skip(i as int + 1));
                        assert(eval_block_s(rest, mi)
                            == eval_block_s(stmts.skip(i as int + 1), env.as_map()));
                    }
                },
                Result::Err(er) => {
                    proof {
                        let stmts = block.stmts@;
                        let rest = stmts.skip(i as int);
                        assert(rest.len() > 0);
                        assert(rest[0] == stmts[i as int]);
                        assert(eval_stmt_s(stmts[i as int], mi)
                            == Result::<Map<Seq<char>, ValueV>, ErrorV>::Err(er@));
                        assert(eval_block_s(stmts.take(i as int), old(env).as_map())
                            == Result::<Map<Seq<char>, ValueV>, ErrorV>::Ok(env.as_map()));
                    }
                    return Result::Err(er);
                },
            }
            i = i + 1;
        }
        proof {
            assert(block.stmts@.skip(n as int) =~= Seq::<Stmt>::empty());
        }
        Result::Ok(())
    }
}

impl Interpreter for ReferenceModel {
    fn eval_block(&self, block: &Block, env: &mut Environment) -> (r: Result<(), EvalError>) {
        ReferenceModel::eval_block(self, block, env)
    }
}

} // verus!
