use scalar_expr::data::eval::EvalError;
use scalar_expr::data::op::Op;
use scalar_expr::data::value::Value;

fn text(s: &str) -> Value {
    Value::Text(s.to_string())
}

#[test]
fn operator_names() {
    assert_eq!(Op::Coalesce.name(), "~~");
    assert_eq!(Op::IsNull.name(), "is_null");
    assert_eq!(Op::Not.name(), "!");
    assert_eq!(Op::Equal.name(), "==");
    assert_eq!(Op::Add.name(), "+");
    assert_eq!(Op::Volatile.name(), "volatile");
}

#[test]
fn operator_arities() {
    assert_eq!(Op::Coalesce.arity(), None);
    assert_eq!(Op::IsNull.arity(), Some(1));
    assert_eq!(Op::Not.arity(), Some(1));
    assert_eq!(Op::Equal.arity(), Some(2));
    assert_eq!(Op::Add.arity(), Some(2));
    assert_eq!(Op::Volatile.arity(), Some(1));
}

#[test]
fn operator_flags() {
    for op in [Op::Coalesce, Op::IsNull, Op::Not, Op::Equal, Op::Add] {
        assert!(!op.has_side_effect());
    }
    assert!(Op::Volatile.has_side_effect());
    assert!(!Op::Volatile.non_null_args());
    assert!(!Op::Coalesce.non_null_args());
    assert!(!Op::IsNull.non_null_args());
    assert!(Op::Not.non_null_args());
    assert!(Op::Equal.non_null_args());
    assert!(Op::Add.non_null_args());
}

#[test]
fn coalesce_rule() {
    assert_eq!(Op::Coalesce.eval(vec![]), Ok(Value::Null));
    assert_eq!(Op::Coalesce.eval(vec![Value::Null]), Ok(Value::Null));
    assert_eq!(
        Op::Coalesce.eval(vec![Value::Null, text("a"), Value::Int(1)]),
        Ok(text("a"))
    );
    assert_eq!(Op::Coalesce.eval(vec![Value::Bool(false), Value::Null]), Ok(Value::Bool(false)));
}

#[test]
fn is_null_rule() {
    assert_eq!(Op::IsNull.eval(vec![Value::Null]), Ok(Value::Bool(true)));
    assert_eq!(Op::IsNull.eval(vec![Value::Int(0)]), Ok(Value::Bool(false)));
}

#[test]
fn not_rule() {
    assert_eq!(Op::Not.eval(vec![Value::Bool(true)]), Ok(Value::Bool(false)));
    assert_eq!(Op::Not.eval(vec![Value::Bool(false)]), Ok(Value::Bool(true)));
    assert_eq!(
        Op::Not.eval(vec![Value::Int(1)]),
        Err(EvalError::OpTypeMismatch("!".to_string(), vec![Value::Int(1)]))
    );
    assert_eq!(
        Op::Not.eval(vec![Value::Null]),
        Err(EvalError::OpTypeMismatch("!".to_string(), vec![Value::Null]))
    );
}

#[test]
fn equal_rule() {
    assert_eq!(Op::Equal.eval(vec![Value::Int(2), Value::Int(2)]), Ok(Value::Bool(true)));
    assert_eq!(Op::Equal.eval(vec![Value::Int(2), Value::Int(3)]), Ok(Value::Bool(false)));
    assert_eq!(Op::Equal.eval(vec![Value::Int(2), text("2")]), Ok(Value::Bool(false)));
    assert_eq!(Op::Equal.eval(vec![Value::Null, Value::Null]), Ok(Value::Bool(true)));
}

#[test]
fn add_rule() {
    assert_eq!(Op::Add.eval(vec![Value::Int(2), Value::Int(40)]), Ok(Value::Int(42)));
    assert_eq!(Op::Add.eval(vec![Value::Int(-5), Value::Int(3)]), Ok(Value::Int(-2)));
    assert_eq!(
        Op::Add.eval(vec![Value::Int(i64::MAX - 1), Value::Int(1)]),
        Ok(Value::Int(i64::MAX))
    );
    assert_eq!(
        Op::Add.eval(vec![Value::Int(i64::MIN), Value::Int(0)]),
        Ok(Value::Int(i64::MIN))
    );
}

#[test]
fn volatile_rule() {
    assert_eq!(Op::Volatile.eval(vec![Value::Int(3)]), Ok(Value::Int(3)));
    assert_eq!(Op::Volatile.eval(vec![Value::Null]), Ok(Value::Null));
    assert_eq!(Op::Volatile.eval(vec![text("v")]), Ok(text("v")));
    assert_eq!(
        Op::Volatile.eval(vec![]),
        Err(EvalError::ArityMismatch { name: "volatile".to_string(), expected: 1, found: 0 })
    );
}

#[test]
fn add_overflow_is_reported() {
    assert_eq!(
        Op::Add.eval(vec![Value::Int(i64::MAX), Value::Int(1)]),
        Err(EvalError::Overflow("+".to_string()))
    );
    assert_eq!(
        Op::Add.eval(vec![Value::Int(i64::MIN), Value::Int(-1)]),
        Err(EvalError::Overflow("+".to_string()))
    );
}

#[test]
fn add_of_other_kinds_is_a_type_mismatch() {
    assert_eq!(
        Op::Add.eval(vec![Value::Int(1), text("1")]),
        Err(EvalError::OpTypeMismatch("+".to_string(), vec![Value::Int(1), text("1")]))
    );
    assert_eq!(
        Op::Add.eval(vec![Value::Bool(true), Value::Int(1)]),
        Err(EvalError::OpTypeMismatch("+".to_string(), vec![Value::Bool(true), Value::Int(1)]))
    );
}

#[test]
fn rule_with_wrong_number_of_values_is_an_arity_mismatch() {
    assert_eq!(
        Op::Add.eval(vec![Value::Int(1)]),
        Err(EvalError::ArityMismatch { name: "+".to_string(), expected: 2, found: 1 })
    );
    assert_eq!(
        Op::Not.eval(vec![]),
        Err(EvalError::ArityMismatch { name: "!".to_string(), expected: 1, found: 0 })
    );
    assert_eq!(
        Op::IsNull.eval(vec![Value::Null, Value::Null]),
        Err(EvalError::ArityMismatch { name: "is_null".to_string(), expected: 1, found: 2 })
    );
    assert_eq!(
        Op::Equal.eval(vec![Value::Null, Value::Null, Value::Null]),
        Err(EvalError::ArityMismatch { name: "==".to_string(), expected: 2, found: 3 })
    );
}
