//! Operators: the scalar functions that an expression applies to arguments.

pub mod control;

use vstd::prelude::*;
use crate::data::eval::{outcome, EvalError, EvalErrorView, Outcome};
use crate::data::op::control::{coalesce_values, OpCoalesce};
use crate::data::value::{value_views, Value, ValueView};

verus! {

/// The operators that an expression can apply. Each has a name, a declared
/// number of arguments, two flags and a rule that gives its result from the
/// values of its arguments.
#[derive(Clone, Copy, Debug, PartialEq, Eq, Structural)]
pub enum Op {
    /// `~~`: the first argument that is not null.
    Coalesce,
    /// `is_null`: whether the one argument is null.
    IsNull,
    /// `!`: the negation of a boolean.
    Not,
    /// `==`: whether the two arguments are the same value.
    Equal,
    /// `+`: the sum of two integers.
    Add,
    /// `volatile`: its one argument, as it is. A call counts as having a side
    /// effect, so partial evaluation leaves it where it stands: the argument
    /// is handed over when a row is evaluated, and not before.
    Volatile,
}

impl Op {
    /// The name that identifies the operator.
    pub open spec fn spec_name(self) -> Seq<char> {
        match self {
            Op::Coalesce => "~~"@,
            Op::IsNull => "is_null"@,
            Op::Not => "!"@,
            Op::Equal => "=="@,
            Op::Add => "+"@,
            Op::Volatile => "volatile"@,
        }
    }

    /// The number of arguments that the operator takes; `None` when it takes
    /// any number.
    pub open spec fn spec_arity(self) -> Option<nat> {
        match self {
            Op::Coalesce => None,
            Op::IsNull => Some(1),
            Op::Not => Some(1),
            Op::Equal => Some(2),
            Op::Add => Some(2),
            Op::Volatile => Some(1),
        }
    }

    /// Whether a call does more than return a value. A call of such an operator
    /// is never folded ahead of time.
    pub open spec fn spec_has_side_effect(self) -> bool {
        self == Op::Volatile
    }

    /// Whether the result is null as soon as one argument is null, without the
    /// rule being asked.
    pub open spec fn spec_non_null_args(self) -> bool {
        match self {
            Op::Coalesce => false,
            Op::IsNull => false,
            Op::Not => true,
            Op::Equal => true,
            Op::Add => true,
            Op::Volatile => false,
        }
    }

    /// Whether `count` arguments are as many as the operator declares.
    pub open spec fn accepts(self, count: nat) -> bool {
        self.spec_arity() matches Some(n) ==> n == count
    }

    /// The rule of the operator: its result on the values `args`. A wrong
    /// number of arguments is an arity mismatch, a value of a kind that the
    /// operator cannot take a type mismatch that carries all the arguments.
    pub open spec fn spec_eval(self, args: Seq<ValueView>) -> Outcome {
        if !self.accepts(args.len()) {
            Err(
                EvalErrorView::ArityMismatch {
                    name: self.spec_name(),
                    expected: self.spec_arity().unwrap(),
                    found: args.len(),
                },
            )
        } else {
            match self {
                Op::Coalesce => Ok(coalesce_values(args)),
                Op::IsNull => Ok(ValueView::Bool(args[0] is Null)),
                Op::Not => match args[0] {
                    ValueView::Bool(b) => Ok(ValueView::Bool(!b)),
                    _ => Err(EvalErrorView::OpTypeMismatch(self.spec_name(), args)),
                },
                Op::Equal => Ok(ValueView::Bool(args[0] == args[1])),
                Op::Add => match (args[0], args[1]) {
                    (ValueView::Int(a), ValueView::Int(b)) => if i64::MIN <= a + b <= i64::MAX {
                        Ok(ValueView::Int(a + b))
                    } else {
                        Err(EvalErrorView::Overflow(self.spec_name()))
                    },
                    _ => Err(EvalErrorView::OpTypeMismatch(self.spec_name(), args)),
                },
                Op::Volatile => Ok(args[0]),
            }
        }
    }

    /// The name that identifies the operator.
    pub fn name(&self) -> (r: &'static str)
        ensures
            r@ == self.spec_name(),
    {
        match self {
            Op::Coalesce => OpCoalesce.name(),
            Op::IsNull => "is_null",
            Op::Not => "!",
            Op::Equal => "==",
            Op::Add => "+",
            Op::Volatile => "volatile",
        }
    }

    /// The number of arguments that the operator takes; `None` when it takes
    /// any number.
    pub fn arity(&self) -> (r: Option<usize>)
        ensures
            r is Some == self.spec_arity() is Some,
            r matches Some(n) ==> n == self.spec_arity().unwrap(),
    {
        match self {
            Op::Coalesce => OpCoalesce.arity(),
            Op::IsNull => Some(1),
            Op::Not => Some(1),
            Op::Equal => Some(2),
            Op::Add => Some(2),
            Op::Volatile => Some(1),
        }
    }

    /// Whether a call does more than return a value.
    pub fn has_side_effect(&self) -> (r: bool)
        ensures
            r == self.spec_has_side_effect(),
    {
        match self {
            Op::Coalesce => OpCoalesce.has_side_effect(),
            Op::Volatile => true,
            _ => false,
        }
    }

    /// Whether the result is null as soon as one argument is null.
    pub fn non_null_args(&self) -> (r: bool)
        ensures
            r == self.spec_non_null_args(),
    {
        match self {
            Op::Coalesce => OpCoalesce.non_null_args(),
            Op::IsNull => false,
            Op::Volatile => false,
            _ => true,
        }
    }

    /// Applies the rule of the operator to values that are already evaluated.
    pub fn eval(&self, args: Vec<Value>) -> (r: Result<Value, EvalError>)
        ensures
            outcome(r) == self.spec_eval(value_views(args@)),
    {
        if let Some(n) = self.arity() {
            if args.len() != n {
                return Err(
                    EvalError::ArityMismatch {
                        name: self.name().to_owned(),
                        expected: n,
                        found: args.len(),
                    },
                );
            }
        }
        match self {
            Op::Coalesce => OpCoalesce.eval(args),
            Op::IsNull => Ok(Value::Bool(args[0].is_null())),
            Op::Not => match &args[0] {
                Value::Bool(b) => Ok(Value::Bool(!*b)),
                _ => Err(EvalError::OpTypeMismatch(self.name().to_owned(), args)),
            },
            Op::Equal => Ok(Value::Bool(args[0] == args[1])),
            Op::Add => match (&args[0], &args[1]) {
                (Value::Int(a), Value::Int(b)) => match a.checked_add(*b) {
                    Some(sum) => Ok(Value::Int(sum)),
                    None => Err(EvalError::Overflow(self.name().to_owned())),
                },
                _ => Err(EvalError::OpTypeMismatch(self.name().to_owned(), args)),
            },
            Op::Volatile => {
                let mut args = args;
                match args.pop() {
                    Some(v) => Ok(v),
                    None => Ok(Value::Null),
                }
            },
        }
    }
}

/// An operator is identified by its name: no two operators share one.
pub proof fn names_identify_operators(a: Op, b: Op)
    requires
        a.spec_name() == b.spec_name(),
    ensures
        a == b,
{
    reveal_strlit("~~");
    reveal_strlit("is_null");
    reveal_strlit("!");
    reveal_strlit("==");
    reveal_strlit("+");
    reveal_strlit("volatile");
    assert("volatile"@.len() == 8);
    assert("~~"@.len() == 2 && "~~"@[0] == '~');
    assert("is_null"@.len() == 7);
    assert("!"@.len() == 1 && "!"@[0] == '!');
    assert("=="@.len() == 2 && "=="@[0] == '=');
    assert("+"@.len() == 1 && "+"@[0] == '+');
}

} // verus!
