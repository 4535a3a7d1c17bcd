//! Tests for the diagnostic text of values, errors, and whole environments.

use interpreters::{Environment, EvalError, Value};

#[test]
fn render_sorted_by_name() {
    let mut env = Environment::default();
    env.insert("b".to_string(), Value::Ref("a".to_string()));
    env.insert("a".to_string(), Value::Lit("1".to_string()));
    assert_eq!(env.render(), "a ↦ 1\nb ↦ &a\n");
}

#[test]
fn render_insertion_order_irrelevant() {
    let mut first = Environment::default();
    first.insert("a".to_string(), Value::Lit("1".to_string()));
    first.insert("b".to_string(), Value::Ref("a".to_string()));
    let mut second = Environment::default();
    second.insert("b".to_string(), Value::Ref("a".to_string()));
    second.insert("a".to_string(), Value::Lit("1".to_string()));
    assert_eq!(first.render(), second.render());
}

#[test]
fn render_empty_environment() {
    let env = Environment::default();
    assert_eq!(env.render(), "");
}

#[test]
fn render_value_forms() {
    assert_eq!(Value::Unit.render(), "()");
    assert_eq!(Value::Lit("42".to_string()).render(), "42");
    assert_eq!(Value::Ref("x".to_string()).render(), "&x");
    assert_eq!(Value::Undefined.render(), "undefined");
}

#[test]
fn render_error_messages() {
    assert_eq!(
        EvalError::NotFound("x".to_string()).render(),
        "cannot find place: x"
    );
    assert_eq!(
        EvalError::UndefinedRead("y".to_string()).render(),
        "attempting to read undefined place: y"
    );
    assert_eq!(
        EvalError::TypeMismatch.render(),
        "cannot dereference a non-reference value"
    );
    assert_eq!(
        EvalError::UnsupportedConstruct.render(),
        "unsupported construct"
    );
}

#[test]
fn render_undefined_binding() {
    let mut env = Environment::default();
    env.insert("b".to_string(), Value::Undefined);
    env.insert("u".to_string(), Value::Unit);
    assert_eq!(env.render(), "b ↦ undefined\nu ↦ ()\n");
}
