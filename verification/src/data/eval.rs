//! Evaluation failures, and the two contexts that an embedding caller supplies.

use vstd::prelude::*;
use vstd::std_specs::cmp::PartialEqSpecImpl;
use crate::data::value::{clone_values, same_values, value_views, Value, ValueView};

verus! {

/// What an [`EvalError`] stands for.
pub enum EvalErrorView {
    /// The named operator cannot work on these values.
    OpTypeMismatch(Seq<char>, Seq<ValueView>),
    /// The named operator takes `expected` arguments and was given `found`.
    ArityMismatch { name: Seq<char>, expected: nat, found: nat },
    /// The row binds no value to this variable.
    UnboundVariable(Seq<char>),
    /// The result of the named operator does not fit the integer type.
    Overflow(Seq<char>),
}

/// Why an evaluation failed. The values it carries are owned, so that the
/// error can be reported after the row is gone.
#[derive(Debug)]
pub enum EvalError {
    OpTypeMismatch(String, Vec<Value>),
    ArityMismatch { name: String, expected: usize, found: usize },
    UnboundVariable(String),
    Overflow(String),
}

impl View for EvalError {
    type V = EvalErrorView;

    open spec fn view(&self) -> EvalErrorView {
        match self {
            EvalError::OpTypeMismatch(name, values) => EvalErrorView::OpTypeMismatch(
                name@,
                value_views(values@),
            ),
            EvalError::ArityMismatch { name, expected, found } => EvalErrorView::ArityMismatch {
                name: name@,
                expected: *expected as nat,
                found: *found as nat,
            },
            EvalError::UnboundVariable(name) => EvalErrorView::UnboundVariable(name@),
            EvalError::Overflow(name) => EvalErrorView::Overflow(name@),
        }
    }
}

impl Clone for EvalError {
    fn clone(&self) -> (r: EvalError)
        ensures
            r@ == self@,
    {
        match self {
            EvalError::OpTypeMismatch(name, values) => EvalError::OpTypeMismatch(
                name.clone(),
                clone_values(values),
            ),
            EvalError::ArityMismatch { name, expected, found } => EvalError::ArityMismatch {
                name: name.clone(),
                expected: *expected,
                found: *found,
            },
            EvalError::UnboundVariable(name) => EvalError::UnboundVariable(name.clone()),
            EvalError::Overflow(name) => EvalError::Overflow(name.clone()),
        }
    }
}

impl PartialEq for EvalError {
    fn eq(&self, other: &EvalError) -> (r: bool) {
        match (self, other) {
            (EvalError::OpTypeMismatch(n1, v1), EvalError::OpTypeMismatch(n2, v2)) => *n1 == *n2
                && same_values(v1, v2),
            (
                EvalError::ArityMismatch { name: n1, expected: e1, found: f1 },
                EvalError::ArityMismatch { name: n2, expected: e2, found: f2 },
            ) => *n1 == *n2 && *e1 == *e2 && *f1 == *f2,
            (EvalError::UnboundVariable(n1), EvalError::UnboundVariable(n2)) => *n1 == *n2,
            (EvalError::Overflow(n1), EvalError::Overflow(n2)) => *n1 == *n2,
            _ => false,
        }
    }
}

impl PartialEqSpecImpl for EvalError {
    open spec fn obeys_eq_spec() -> bool {
        true
    }

    open spec fn eq_spec(&self, other: &EvalError) -> bool {
        self@ == other@
    }
}

impl Eq for EvalError {}

/// The outcome of evaluating against a row, as the contracts state it.
pub type Outcome = Result<ValueView, EvalErrorView>;

/// The view of the result of an evaluation.
pub open spec fn outcome(r: Result<Value, EvalError>) -> Outcome {
    match r {
        Ok(v) => Ok(v@),
        Err(e) => Err(e@),
    }
}

/// The values that a context binds to variable names.
pub type Bound = Map<Seq<char>, ValueView>;

/// What row evaluation asks of its caller: the value that the current row
/// binds to a variable.
pub trait RowEvalContext {
    /// The row: the value of each variable that it binds.
    spec fn row(&self) -> Bound;

    /// The value bound to `name`, or `UnboundVariable` when the row binds none.
    fn resolve(&self, name: &String) -> (r: Result<Value, EvalError>)
        ensures
            outcome(r) == lookup_row(self.row(), name@),
    ;
}

/// The outcome of resolving `name` against `row`.
pub open spec fn lookup_row(row: Bound, name: Seq<char>) -> Outcome {
    if row.contains_key(name) {
        Ok(row[name])
    } else {
        Err(EvalErrorView::UnboundVariable(name))
    }
}

/// What partial evaluation asks of its caller: the variables whose value is
/// already known before any row is read.
pub trait ExprEvalContext {
    /// The variables that are known ahead of time, each with its value.
    spec fn known(&self) -> Bound;

    /// The value of `name` if it is known ahead of time.
    fn resolve(&self, name: &String) -> (r: Option<Value>)
        ensures
            r is Some == self.known().contains_key(name@),
            r matches Some(v) ==> v@ == self.known()[name@],
    ;
}

/// The map that a list of bindings stands for. A later binding of a name
/// takes the place of an earlier one.
pub open spec fn bindings_of(entries: Seq<(String, Value)>) -> Bound
    decreases entries.len(),
{
    if entries.len() == 0 {
        Map::empty()
    } else {
        bindings_of(entries.drop_last()).insert(entries.last().0@, entries.last().1@)
    }
}

/// Values bound to names. It serves as the row of a row evaluation, and as
/// what is known ahead of time in a partial evaluation.
pub struct Bindings {
    entries: Vec<(String, Value)>,
}

impl View for Bindings {
    type V = Bound;

    closed spec fn view(&self) -> Bound {
        bindings_of(self.entries@)
    }
}

impl Bindings {
    /// Bindings that bind nothing.
    pub fn new() -> (r: Bindings)
        ensures
            r@ == Map::<Seq<char>, ValueView>::empty(),
    {
        Bindings { entries: Vec::new() }
    }

    /// Binds `value` to `name`, in place of any value bound to it before.
    pub fn bind(&mut self, name: String, value: Value)
        ensures
            final(self)@ == old(self)@.insert(name@, value@),
    {
        proof {
            assert(self.entries@.push((name, value)).drop_last() =~= self.entries@);
        }
        self.entries.push((name, value));
    }

    /// The value bound to `name`, if there is one.
    pub fn get(&self, name: &String) -> (r: Option<Value>)
        ensures
            r is Some == self@.contains_key(name@),
            r matches Some(v) ==> v@ == self@[name@],
    {
        let ghost all = self.entries@;
        let mut i: usize = self.entries.len();
        assert(all.take(i as int) =~= all);
        while i > 0
            invariant
                i <= self.entries.len(),
                all == self.entries@,
                bindings_of(all).contains_key(name@) == bindings_of(
                    all.take(i as int),
                ).contains_key(name@),
                bindings_of(all).contains_key(name@) ==> bindings_of(all)[name@] == bindings_of(
                    all.take(i as int),
                )[name@],
            decreases i,
        {
            assert(all.take(i as int).drop_last() =~= all.take(i - 1));
            assert(all.take(i as int).last() == all[i - 1]);
            i -= 1;
            if self.entries[i].0 == *name {
                return Some(self.entries[i].1.clone());
            }
        }
        None
    }
}

impl RowEvalContext for Bindings {
    open spec fn row(&self) -> Bound {
        self@
    }

    fn resolve(&self, name: &String) -> (r: Result<Value, EvalError>) {
        match self.get(name) {
            Some(v) => Ok(v),
            None => Err(EvalError::UnboundVariable(name.clone())),
        }
    }
}

impl ExprEvalContext for Bindings {
    open spec fn known(&self) -> Bound {
        self@
    }

    fn resolve(&self, name: &String) -> (r: Option<Value>) {
        self.get(name)
    }
}

} // verus!
