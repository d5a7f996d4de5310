use scalar_expr::data::eval::{Bindings, EvalError, ExprEvalContext, RowEvalContext};
use scalar_expr::data::value::{clone_values, same_values, Value};

fn text(s: &str) -> Value {
    Value::Text(s.to_string())
}

#[test]
fn null_equals_null_only() {
    assert_eq!(Value::Null, Value::Null);
    assert_ne!(Value::Null, Value::Bool(false));
    assert_ne!(Value::Null, Value::Int(0));
    assert_ne!(Value::Null, text(""));
}

#[test]
fn values_of_different_kinds_differ() {
    assert_ne!(Value::Int(1), Value::Bool(true));
    assert_ne!(Value::Int(1), text("1"));
    assert_eq!(Value::Int(-3), Value::Int(-3));
    assert_ne!(Value::Int(-3), Value::Int(3));
    assert_eq!(text("abc"), text("abc"));
    assert_ne!(text("abc"), text("abd"));
    assert_eq!(Value::Bool(true), Value::Bool(true));
    assert_ne!(Value::Bool(true), Value::Bool(false));
}

#[test]
fn is_null_tells_null_apart() {
    assert!(Value::Null.is_null());
    assert!(!Value::Int(0).is_null());
    assert!(!Value::Bool(false).is_null());
    assert!(!text("").is_null());
}

#[test]
fn clone_keeps_the_value() {
    assert_eq!(text("row").clone(), text("row"));
    assert_eq!(Value::Int(i64::MIN).clone(), Value::Int(i64::MIN));
    assert_eq!(Value::Null.clone(), Value::Null);
}

#[test]
fn vectors_of_values_compare_by_content() {
    let a = vec![Value::Int(1), Value::Null, text("x")];
    let b = vec![Value::Int(1), Value::Null, text("x")];
    let c = vec![Value::Int(1), Value::Null];
    let d = vec![Value::Int(1), Value::Null, text("y")];
    assert!(same_values(&a, &b));
    assert!(!same_values(&a, &c));
    assert!(!same_values(&a, &d));
    assert!(same_values(&clone_values(&a), &a));
    assert!(same_values(&vec![], &vec![]));
}

#[test]
fn errors_compare_by_content() {
    let a = EvalError::OpTypeMismatch("if".to_string(), vec![Value::Int(1)]);
    assert_eq!(a.clone(), a);
    assert_ne!(a, EvalError::OpTypeMismatch("if".to_string(), vec![Value::Int(2)]));
    assert_ne!(a, EvalError::OpTypeMismatch("!".to_string(), vec![Value::Int(1)]));
    let b = EvalError::ArityMismatch { name: "+".to_string(), expected: 2, found: 3 };
    assert_eq!(b.clone(), b);
    assert_ne!(b, EvalError::ArityMismatch { name: "+".to_string(), expected: 2, found: 1 });
    assert_ne!(EvalError::UnboundVariable("x".to_string()), EvalError::Overflow("x".to_string()));
    assert_eq!(EvalError::Overflow("+".to_string()).clone(), EvalError::Overflow("+".to_string()));
}

#[test]
fn bindings_resolve_what_was_bound() {
    let mut b = Bindings::new();
    assert_eq!(b.get(&"x".to_string()), None);
    b.bind("x".to_string(), Value::Int(1));
    b.bind("y".to_string(), text("why"));
    assert_eq!(b.get(&"x".to_string()), Some(Value::Int(1)));
    assert_eq!(b.get(&"y".to_string()), Some(text("why")));
    assert_eq!(b.get(&"z".to_string()), None);
}

#[test]
fn a_later_binding_replaces_an_earlier_one() {
    let mut b = Bindings::new();
    b.bind("x".to_string(), Value::Int(1));
    b.bind("x".to_string(), Value::Int(2));
    assert_eq!(b.get(&"x".to_string()), Some(Value::Int(2)));
}

#[test]
fn bindings_serve_as_both_contexts() {
    let mut b = Bindings::new();
    b.bind("x".to_string(), Value::Bool(true));
    assert_eq!(RowEvalContext::resolve(&b, &"x".to_string()), Ok(Value::Bool(true)));
    assert_eq!(
        RowEvalContext::resolve(&b, &"nope".to_string()),
        Err(EvalError::UnboundVariable("nope".to_string()))
    );
    assert_eq!(ExprEvalContext::resolve(&b, &"x".to_string()), Some(Value::Bool(true)));
    assert_eq!(ExprEvalContext::resolve(&b, &"nope".to_string()), None);
}
