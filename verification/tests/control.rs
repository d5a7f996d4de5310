use scalar_expr::data::eval::{Bindings, EvalError};
use scalar_expr::data::expr::Expr;
use scalar_expr::data::op::control::{
    partial_eval_coalesce, partial_eval_if_expr, partial_eval_switch_expr, row_eval_coalesce,
    row_eval_if_expr, row_eval_switch_expr, OpCoalesce, OpCond,
};
use scalar_expr::data::op::Op;
use scalar_expr::data::value::Value;

fn num(i: i64) -> Expr {
    Expr::Const(Value::Int(i))
}

fn null() -> Expr {
    Expr::Const(Value::Null)
}

fn truth(b: bool) -> Expr {
    Expr::Const(Value::Bool(b))
}

fn text(s: &str) -> Expr {
    Expr::Const(Value::Text(s.to_string()))
}

fn var(name: &str) -> Expr {
    Expr::Variable(name.to_string())
}

fn coalesce(args: Vec<Expr>) -> Expr {
    Expr::Apply(Op::Coalesce, args)
}

fn unbound(name: &str) -> EvalError {
    EvalError::UnboundVariable(name.to_string())
}

/// An application that fails whenever it is evaluated or simplified.
fn broken() -> Expr {
    Expr::Apply(Op::Not, vec![])
}

fn broken_error() -> EvalError {
    EvalError::ArityMismatch { name: "!".to_string(), expected: 1, found: 0 }
}

fn row_with_x(v: Value) -> Bindings {
    let mut row = Bindings::new();
    row.bind("x".to_string(), v);
    row
}

#[test]
fn coalesce_operator_metadata() {
    assert_eq!(OpCoalesce.arity(), None);
    assert!(!OpCoalesce.has_side_effect());
    assert_eq!(OpCoalesce.name(), "~~");
    assert!(!OpCoalesce.non_null_args());
}

#[test]
fn conditional_has_a_name() {
    assert_eq!(OpCond.name(), "if");
}

#[test]
fn coalesce_operator_picks_first_non_null() {
    let got = OpCoalesce.eval(vec![Value::Null, Value::Int(2), Value::Int(3)]);
    assert_eq!(got, Ok(Value::Int(2)));
    assert_eq!(OpCoalesce.eval(vec![Value::Null, Value::Null]), Ok(Value::Null));
    assert_eq!(OpCoalesce.eval(vec![]), Ok(Value::Null));
}

#[test]
fn coalesce_does_not_evaluate_right_when_left_is_not_null() {
    let row = Bindings::new();
    assert_eq!(row_eval_coalesce(&row, &num(7), &var("missing")), Ok(Value::Int(7)));
    assert_eq!(row_eval_coalesce(&row, &num(7), &broken()), Ok(Value::Int(7)));
    assert_eq!(row_eval_coalesce(&row, &truth(false), &broken()), Ok(Value::Bool(false)));
    assert_eq!(
        row_eval_coalesce(&row, &text(""), &broken()),
        Ok(Value::Text("".to_string()))
    );
}

#[test]
fn coalesce_evaluates_right_when_left_is_null() {
    let row = Bindings::new();
    assert_eq!(row_eval_coalesce(&row, &null(), &num(5)), Ok(Value::Int(5)));
    assert_eq!(row_eval_coalesce(&row, &null(), &null()), Ok(Value::Null));
    assert_eq!(row_eval_coalesce(&row, &null(), &var("missing")), Err(unbound("missing")));
    assert_eq!(row_eval_coalesce(&row, &null(), &broken()), Err(broken_error()));
}

#[test]
fn coalesce_reports_failure_of_left() {
    let row = Bindings::new();
    assert_eq!(row_eval_coalesce(&row, &var("missing"), &num(5)), Err(unbound("missing")));
}

#[test]
fn if_takes_the_branch_that_the_condition_chooses() {
    let row = Bindings::new();
    assert_eq!(row_eval_if_expr(&row, &truth(true), &num(1), &num(2)), Ok(Value::Int(1)));
    assert_eq!(row_eval_if_expr(&row, &truth(false), &num(1), &num(2)), Ok(Value::Int(2)));
}

#[test]
fn if_does_not_evaluate_the_other_branch() {
    let row = Bindings::new();
    assert_eq!(row_eval_if_expr(&row, &truth(true), &num(1), &broken()), Ok(Value::Int(1)));
    assert_eq!(row_eval_if_expr(&row, &truth(false), &broken(), &num(2)), Ok(Value::Int(2)));
    assert_eq!(row_eval_if_expr(&row, &truth(true), &broken(), &num(2)), Err(broken_error()));
}

#[test]
fn if_with_null_condition_is_null() {
    let row = Bindings::new();
    assert_eq!(row_eval_if_expr(&row, &null(), &num(1), &num(2)), Ok(Value::Null));
    assert_eq!(row_eval_if_expr(&row, &null(), &broken(), &broken()), Ok(Value::Null));
}

#[test]
fn if_with_text_condition_is_a_type_mismatch() {
    let row = Bindings::new();
    let got = row_eval_if_expr(&row, &text("x"), &num(1), &num(2));
    assert_eq!(
        got,
        Err(EvalError::OpTypeMismatch("if".to_string(), vec![Value::Text("x".to_string())]))
    );
}

#[test]
fn if_with_integer_condition_is_a_type_mismatch() {
    let row = row_with_x(Value::Int(0));
    let got = row_eval_if_expr(&row, &var("x"), &broken(), &broken());
    assert_eq!(got, Err(EvalError::OpTypeMismatch("if".to_string(), vec![Value::Int(0)])));
}

#[test]
fn if_reports_failure_of_condition() {
    let row = Bindings::new();
    assert_eq!(row_eval_if_expr(&row, &var("c"), &num(1), &num(2)), Err(unbound("c")));
}

#[test]
fn switch_first_match_wins() {
    let row = Bindings::new();
    let args = vec![(num(1), num(0)), (num(1), num(10)), (num(1), num(20))];
    assert_eq!(row_eval_switch_expr(&row, &args), Ok(Value::Int(10)));
}

#[test]
fn switch_without_match_gives_default() {
    let row = Bindings::new();
    let args = vec![(num(1), num(0)), (num(2), num(10)), (num(3), num(20))];
    assert_eq!(row_eval_switch_expr(&row, &args), Ok(Value::Int(0)));
    assert_eq!(row_eval_switch_expr(&row, &[(num(1), num(9))]), Ok(Value::Int(9)));
}

#[test]
fn switch_matches_null_with_null() {
    let row = Bindings::new();
    let args = vec![(null(), num(0)), (num(1), num(10)), (null(), num(20))];
    assert_eq!(row_eval_switch_expr(&row, &args), Ok(Value::Int(20)));
}

#[test]
fn switch_does_not_evaluate_past_the_match() {
    let row = Bindings::new();
    let args = vec![(num(1), broken()), (num(1), num(10)), (broken(), broken())];
    assert_eq!(row_eval_switch_expr(&row, &args), Ok(Value::Int(10)));
    let skipped = vec![(num(1), num(0)), (num(2), broken()), (num(1), num(10))];
    assert_eq!(row_eval_switch_expr(&row, &skipped), Ok(Value::Int(10)));
}

#[test]
fn switch_reports_the_first_failure_that_it_meets() {
    let row = Bindings::new();
    let subject = vec![(var("s"), num(0)), (num(1), num(10))];
    assert_eq!(row_eval_switch_expr(&row, &subject), Err(unbound("s")));
    let candidate = vec![(num(1), num(0)), (var("c"), num(10)), (num(1), num(20))];
    assert_eq!(row_eval_switch_expr(&row, &candidate), Err(unbound("c")));
    let result = vec![(num(1), num(0)), (num(1), var("r"))];
    assert_eq!(row_eval_switch_expr(&row, &result), Err(unbound("r")));
    let default = vec![(num(1), var("d")), (num(2), num(10))];
    assert_eq!(row_eval_switch_expr(&row, &default), Err(unbound("d")));
}

#[test]
fn switch_compares_with_a_subject_from_the_row() {
    let row = row_with_x(Value::Text("b".to_string()));
    let args = vec![(var("x"), num(0)), (text("a"), num(1)), (text("b"), num(2))];
    assert_eq!(row_eval_switch_expr(&row, &args), Ok(Value::Int(2)));
}

#[test]
fn partial_eval_coalesce_of_nulls_is_null() {
    let known = Bindings::new();
    assert_eq!(partial_eval_coalesce(&known, vec![null(), null()]), Ok(null()));
    assert_eq!(partial_eval_coalesce(&known, vec![]), Ok(null()));
}

#[test]
fn partial_eval_coalesce_with_null_gives_the_other() {
    let known = Bindings::new();
    assert_eq!(partial_eval_coalesce(&known, vec![null(), var("x")]), Ok(var("x")));
    assert_eq!(partial_eval_coalesce(&known, vec![var("x"), null()]), Ok(var("x")));
    assert_eq!(partial_eval_coalesce(&known, vec![null(), num(3)]), Ok(num(3)));
}

#[test]
fn partial_eval_coalesce_simplifies_what_it_keeps() {
    let known = row_with_x(Value::Int(4));
    let got = partial_eval_coalesce(&known, vec![null(), var("x")]);
    assert_eq!(got, Ok(num(4)));
    let sum = Expr::Apply(Op::Add, vec![num(1), num(2)]);
    assert_eq!(
        partial_eval_coalesce(&known, vec![var("y"), sum]),
        Ok(coalesce(vec![var("y"), num(3)]))
    );
}

#[test]
fn partial_eval_flattens_nested_coalesce() {
    let known = Bindings::new();
    let nested = coalesce(vec![var("a"), var("b")]);
    let got = partial_eval_coalesce(&known, vec![nested, null(), var("c")]);
    assert_eq!(got, Ok(coalesce(vec![var("a"), var("b"), var("c")])));
}

#[test]
fn partial_eval_flattens_coalesce_on_the_right() {
    let known = Bindings::new();
    let nested = coalesce(vec![null(), var("b"), coalesce(vec![var("c"), null()])]);
    let got = partial_eval_coalesce(&known, vec![var("a"), nested]);
    assert_eq!(got, Ok(coalesce(vec![var("a"), var("b"), var("c")])));
}

#[test]
fn partial_eval_coalesce_keeps_constants_that_are_not_null() {
    let known = Bindings::new();
    let got = partial_eval_coalesce(&known, vec![var("a"), num(1), var("b")]);
    assert_eq!(got, Ok(coalesce(vec![var("a"), num(1), var("b")])));
}

#[test]
fn partial_eval_coalesce_reports_the_first_failure() {
    let known = Bindings::new();
    let second = Expr::Apply(Op::Add, vec![num(1)]);
    let got = partial_eval_coalesce(&known, vec![var("a"), broken(), second]);
    assert_eq!(got, Err(broken_error()));
}

#[test]
fn partial_eval_if_null_discards_branches() {
    let known = Bindings::new();
    assert_eq!(partial_eval_if_expr(&known, null(), broken(), var("x")), Ok(null()));
    assert_eq!(partial_eval_if_expr(&known, null(), broken(), broken()), Ok(null()));
}

#[test]
fn partial_eval_if_constant_takes_the_chosen_branch() {
    let known = row_with_x(Value::Int(4));
    assert_eq!(partial_eval_if_expr(&known, truth(true), var("x"), broken()), Ok(num(4)));
    assert_eq!(partial_eval_if_expr(&known, truth(false), broken(), var("y")), Ok(var("y")));
    assert_eq!(
        partial_eval_if_expr(&known, truth(true), broken(), var("y")),
        Err(broken_error())
    );
}

#[test]
fn partial_eval_if_condition_from_known_variable() {
    let known = row_with_x(Value::Bool(false));
    assert_eq!(partial_eval_if_expr(&known, var("x"), num(1), num(2)), Ok(num(2)));
}

#[test]
fn partial_eval_if_keeps_an_open_condition() {
    let known = row_with_x(Value::Int(4));
    let sum = Expr::Apply(Op::Add, vec![var("x"), num(1)]);
    let got = partial_eval_if_expr(&known, var("c"), sum, var("x"));
    assert_eq!(got, Ok(Expr::IfExpr(Box::new((var("c"), num(5), num(4))))));
}

#[test]
fn partial_eval_if_keeps_a_condition_of_the_wrong_kind() {
    let known = Bindings::new();
    let got = partial_eval_if_expr(&known, num(1), var("a"), var("b"));
    assert_eq!(got, Ok(Expr::IfExpr(Box::new((num(1), var("a"), var("b"))))));
}

#[test]
fn partial_eval_if_reports_failures_in_order() {
    let known = Bindings::new();
    let second = Expr::Apply(Op::Add, vec![num(1)]);
    assert_eq!(
        partial_eval_if_expr(&known, var("c"), broken(), second),
        Err(broken_error())
    );
    assert_eq!(
        partial_eval_if_expr(&known, broken(), num(1), num(2)),
        Err(broken_error())
    );
}

#[test]
fn partial_eval_switch_drops_dead_arms() {
    let known = Bindings::new();
    let args = vec![
        (num(1), num(0)),
        (num(2), num(20)),
        (var("x"), num(30)),
        (num(1), num(10)),
        (var("y"), num(40)),
    ];
    let got = partial_eval_switch_expr(&known, args);
    assert_eq!(got, Ok(Expr::SwitchExpr(vec![(num(1), num(10)), (var("x"), num(30))])));
}

#[test]
fn partial_eval_switch_collapses_to_the_matching_result() {
    let known = row_with_x(Value::Int(6));
    let args = vec![(num(1), num(0)), (num(2), num(20)), (num(1), var("x")), (num(1), num(9))];
    assert_eq!(partial_eval_switch_expr(&known, args), Ok(num(6)));
}

#[test]
fn partial_eval_switch_collapses_to_the_default() {
    let known = Bindings::new();
    let args = vec![(num(1), var("d")), (num(2), num(20)), (num(3), num(30))];
    assert_eq!(partial_eval_switch_expr(&known, args), Ok(var("d")));
    assert_eq!(partial_eval_switch_expr(&known, vec![(var("s"), num(7))]), Ok(num(7)));
}

#[test]
fn partial_eval_switch_leaves_the_default_as_it_stands() {
    let known = row_with_x(Value::Int(6));
    let args = vec![(num(1), var("x")), (num(2), num(20))];
    assert_eq!(partial_eval_switch_expr(&known, args), Ok(var("x")));
    let kept = vec![(var("s"), var("x")), (num(2), var("x"))];
    assert_eq!(
        partial_eval_switch_expr(&known, kept),
        Ok(Expr::SwitchExpr(vec![(var("s"), var("x")), (num(2), num(6))]))
    );
}

#[test]
fn partial_eval_switch_keeps_every_arm_of_an_open_subject() {
    let known = Bindings::new();
    let args = vec![(var("s"), num(0)), (num(1), num(10)), (num(1), num(20))];
    assert_eq!(
        partial_eval_switch_expr(&known, args),
        Ok(Expr::SwitchExpr(vec![(var("s"), num(0)), (num(1), num(10)), (num(1), num(20))]))
    );
}

#[test]
fn partial_eval_switch_does_not_simplify_what_it_drops() {
    let known = Bindings::new();
    let dropped = vec![(num(1), num(0)), (num(2), broken())];
    assert_eq!(partial_eval_switch_expr(&known, dropped), Ok(num(0)));
    let after_match = vec![(num(1), num(0)), (num(1), num(10)), (broken(), broken())];
    assert_eq!(partial_eval_switch_expr(&known, after_match), Ok(num(10)));
}

#[test]
fn partial_eval_switch_reports_failures() {
    let known = Bindings::new();
    assert_eq!(
        partial_eval_switch_expr(&known, vec![(broken(), num(0)), (num(1), num(10))]),
        Err(broken_error())
    );
    assert_eq!(
        partial_eval_switch_expr(&known, vec![(num(1), num(0)), (broken(), num(10))]),
        Err(broken_error())
    );
    assert_eq!(
        partial_eval_switch_expr(&known, vec![(num(1), num(0)), (num(1), broken())]),
        Err(broken_error())
    );
    assert_eq!(
        partial_eval_switch_expr(&known, vec![(num(1), num(0)), (var("c"), broken())]),
        Err(broken_error())
    );
}

#[test]
fn partial_eval_switch_matches_null_with_null() {
    let known = Bindings::new();
    let args = vec![(null(), num(0)), (num(1), num(10)), (null(), num(20))];
    assert_eq!(partial_eval_switch_expr(&known, args), Ok(num(20)));
}
