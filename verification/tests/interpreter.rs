//! Behavioural tests for the evaluator, driving it through parsed blocks
//! built directly from the syntax tree constructors.

use interpreters::{Block, Environment, EvalError, Expr, Pat, ReferenceModel, Stmt, Value};

fn lit(t: &str) -> Expr {
    Expr::Lit(t.to_string())
}

fn path(name: &str) -> Expr {
    Expr::Path(name.to_string())
}

fn ref_of(name: &str) -> Expr {
    Expr::Reference(Box::new(path(name)))
}

fn deref(e: Expr) -> Expr {
    Expr::Deref(Box::new(e))
}

fn assign(l: Expr, r: Expr) -> Expr {
    Expr::Assign(Box::new(l), Box::new(r))
}

fn let_init(name: &str, e: Expr) -> Stmt {
    Stmt::Local(Pat::Ident(name.to_string()), Some(e))
}

fn let_bare(name: &str) -> Stmt {
    Stmt::Local(Pat::Ident(name.to_string()), None)
}

fn semi(e: Expr) -> Stmt {
    Stmt::Semi(e)
}

fn run(stmts: Vec<Stmt>) -> (Result<(), EvalError>, Environment) {
    let block = Block { stmts };
    let model = ReferenceModel;
    let mut env = Environment::default();
    let r = model.eval_block(&block, &mut env);
    (r, env)
}

fn lookup(env: &Environment, name: &str) -> Result<Value, EvalError> {
    env.lookup(&name.to_string())
}

#[test]
fn ok() {
    let block = Block {
        stmts: vec![
            let_init("a", lit("1")),
            let_bare("b"),
            semi(assign(path("b"), ref_of("a"))),
            let_init("c", deref(path("b"))),
        ],
    };

    let model = ReferenceModel;
    let mut env = Environment::default();
    model.eval_block(&block, &mut env).unwrap();
    println!("{}", env.render());
}

#[test]
fn end_to_end_bindings() {
    let (r, env) = run(vec![
        let_init("a", lit("1")),
        let_bare("b"),
        semi(assign(path("b"), ref_of("a"))),
        let_init("c", deref(path("b"))),
    ]);
    assert!(r.is_ok());
    assert_eq!(lookup(&env, "a").unwrap(), Value::Lit("1".to_string()));
    assert_eq!(lookup(&env, "b").unwrap(), Value::Ref("a".to_string()));
    assert_eq!(lookup(&env, "c").unwrap(), Value::Lit("1".to_string()));
    assert_eq!(env.render(), "a ↦ 1\nb ↦ &a\nc ↦ 1\n");
}

#[test]
fn lookup_fresh_not_found() {
    let env = Environment::default();
    assert_eq!(
        lookup(&env, "x"),
        Err(EvalError::NotFound("x".to_string()))
    );
}

#[test]
fn read_unbound_place_fails() {
    let (r, _env) = run(vec![let_init("c", path("x"))]);
    assert_eq!(r, Err(EvalError::NotFound("x".to_string())));
}

#[test]
fn undefined_read_before_assignment() {
    let (r, env) = run(vec![let_bare("a")]);
    assert!(r.is_ok());
    assert_eq!(
        lookup(&env, "a"),
        Err(EvalError::UndefinedRead("a".to_string()))
    );
}

#[test]
fn undefined_read_through_expression() {
    let (r, _env) = run(vec![let_bare("a"), let_init("c", path("a"))]);
    assert_eq!(r, Err(EvalError::UndefinedRead("a".to_string())));
}

#[test]
fn redeclare_overwrites() {
    let (r, env) = run(vec![let_init("a", lit("1")), let_init("a", lit("2"))]);
    assert!(r.is_ok());
    assert_eq!(lookup(&env, "a").unwrap(), Value::Lit("2".to_string()));
}

#[test]
fn insert_overwrites_binding() {
    let mut env = Environment::default();
    env.insert("a".to_string(), Value::Lit("1".to_string()));
    env.insert("a".to_string(), Value::Lit("2".to_string()));
    assert_eq!(lookup(&env, "a").unwrap(), Value::Lit("2".to_string()));
}

#[test]
fn reference_aliasing() {
    let (r, env) = run(vec![
        let_init("a", lit("1")),
        let_init("b", ref_of("a")),
        let_init("c", deref(path("b"))),
    ]);
    assert!(r.is_ok());
    assert_eq!(lookup(&env, "a").unwrap(), Value::Lit("1".to_string()));
    assert_eq!(lookup(&env, "b").unwrap(), Value::Ref("a".to_string()));
    assert_eq!(lookup(&env, "c").unwrap(), Value::Lit("1".to_string()));
}

#[test]
fn live_reread_through_reference() {
    let (r, env) = run(vec![
        let_init("a", lit("1")),
        let_init("b", ref_of("a")),
        semi(assign(path("a"), lit("2"))),
        let_init("c", deref(path("b"))),
    ]);
    assert!(r.is_ok());
    assert_eq!(lookup(&env, "c").unwrap(), Value::Lit("2".to_string()));
}

#[test]
fn assign_through_deref_chain() {
    let (r, env) = run(vec![
        let_init("a", lit("1")),
        let_init("b", ref_of("a")),
        let_init("c", ref_of("b")),
        semi(assign(deref(deref(path("c"))), lit("5"))),
    ]);
    assert!(r.is_ok());
    assert_eq!(lookup(&env, "a").unwrap(), Value::Lit("5".to_string()));
    assert_eq!(lookup(&env, "b").unwrap(), Value::Ref("a".to_string()));
    assert_eq!(lookup(&env, "c").unwrap(), Value::Ref("b".to_string()));
}

#[test]
fn assignment_yields_unit() {
    let (r, env) = run(vec![
        let_init("a", lit("1")),
        let_init("u", assign(path("a"), lit("2"))),
    ]);
    assert!(r.is_ok());
    assert_eq!(lookup(&env, "u").unwrap(), Value::Unit);
    assert_eq!(lookup(&env, "a").unwrap(), Value::Lit("2".to_string()));
}

#[test]
fn deref_non_reference_type_mismatch() {
    let (r, _env) = run(vec![
        let_init("a", lit("1")),
        let_init("c", deref(path("a"))),
    ]);
    assert_eq!(r, Err(EvalError::TypeMismatch));
}

#[test]
fn assign_through_deref_of_non_reference() {
    let (r, _env) = run(vec![
        let_init("a", lit("1")),
        semi(assign(deref(path("a")), lit("2"))),
    ]);
    assert_eq!(r, Err(EvalError::TypeMismatch));
}

#[test]
fn unsupported_expression_rejected() {
    let (r, _env) = run(vec![let_init("a", Expr::Unsupported)]);
    assert_eq!(r, Err(EvalError::UnsupportedConstruct));
}

#[test]
fn unsupported_statement_rejected() {
    let (r, _env) = run(vec![Stmt::Unsupported]);
    assert_eq!(r, Err(EvalError::UnsupportedConstruct));
}

#[test]
fn unsupported_pattern_rejected() {
    let (r, _env) = run(vec![Stmt::Local(Pat::Unsupported, Some(lit("1")))]);
    assert_eq!(r, Err(EvalError::UnsupportedConstruct));
}

#[test]
fn reference_of_non_name_rejected() {
    let (r, _env) = run(vec![
        let_init("a", lit("1")),
        let_init("b", Expr::Reference(Box::new(lit("1")))),
    ]);
    assert_eq!(r, Err(EvalError::UnsupportedConstruct));
}

#[test]
fn assign_to_non_place_rejected() {
    let (r, _env) = run(vec![semi(assign(lit("1"), lit("2")))]);
    assert_eq!(r, Err(EvalError::UnsupportedConstruct));
}

fn run_generic<M: interpreters::Interpreter>(model: &M, stmts: Vec<Stmt>) -> Environment {
    let block = Block { stmts };
    let mut env = Environment::default();
    model.eval_block(&block, &mut env).unwrap();
    env
}

#[test]
fn trait_entry_point() {
    let env = run_generic(
        &ReferenceModel,
        vec![let_init("a", lit("7")), let_init("b", ref_of("a"))],
    );
    assert_eq!(lookup(&env, "a").unwrap(), Value::Lit("7".to_string()));
    assert_eq!(lookup(&env, "b").unwrap(), Value::Ref("a".to_string()));
}

#[test]
fn first_error_halts_block() {
    let (r, env) = run(vec![
        let_init("a", lit("1")),
        let_init("c", deref(path("a"))),
        let_init("d", lit("9")),
    ]);
    assert_eq!(r, Err(EvalError::TypeMismatch));
    assert_eq!(lookup(&env, "a").unwrap(), Value::Lit("1".to_string()));
    assert_eq!(
        lookup(&env, "d"),
        Err(EvalError::NotFound("d".to_string()))
    );
}
