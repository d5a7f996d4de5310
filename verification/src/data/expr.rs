//! The expression tree and what its two evaluations compute.

use vstd::prelude::*;
use crate::data::eval::{
    lookup_row, outcome, Bound, EvalError, EvalErrorView, ExprEvalContext, Outcome, RowEvalContext,
};
use crate::data::op::Op;
use crate::data::op::control::{
    coalesce_outcomes, if_outcome, lemma_coalesce_two, partial_eval_coalesce,
    partial_eval_if_expr, partial_eval_switch_expr, row_eval_coalesce, row_eval_if_expr,
    row_eval_switch_expr, simplify_coalesce, simplify_if, simplify_switch, switch_outcome,
};
use crate::data::equivalence::partial_eval_keeps_well_formed;
use crate::data::value::{value_views, Value, ValueView};

verus! {

/// What an [`Expr`] stands for: the same tree over the views of its values and
/// names.
pub enum ExprView {
    Const(ValueView),
    Variable(Seq<char>),
    Apply(Op, Seq<ExprView>),
    IfExpr(Box<ExprView>, Box<ExprView>, Box<ExprView>),
    SwitchExpr(Seq<(ExprView, ExprView)>),
}

/// A scalar expression.
#[derive(Debug, PartialEq)]
pub enum Expr {
    /// A literal.
    Const(Value),
    /// A variable, which a context resolves.
    Variable(String),
    /// An operator applied to arguments, in order.
    Apply(Op, Vec<Expr>),
    /// A condition, the expression to take when it is true, and the one to
    /// take when it is false.
    IfExpr(Box<(Expr, Expr, Expr)>),
    /// The first pair holds the subject and the default result. Every other
    /// pair is an arm: a candidate that is compared with the subject, and the
    /// result to take when they are equal.
    SwitchExpr(Vec<(Expr, Expr)>),
}

impl View for Expr {
    type V = ExprView;

    open spec fn view(&self) -> ExprView
        decreases self,
    {
        match self {
            Expr::Const(v) => ExprView::Const(v@),
            Expr::Variable(name) => ExprView::Variable(name@),
            Expr::Apply(op, args) => ExprView::Apply(
                *op,
                Seq::new(
                    args.len() as nat,
                    |i: int|
                        if 0 <= i < args.len() {
                            args[i].view()
                        } else {
                            ExprView::Const(ValueView::Null)
                        },
                ),
            ),
            Expr::IfExpr(parts) => ExprView::IfExpr(
                Box::new(parts.0.view()),
                Box::new(parts.1.view()),
                Box::new(parts.2.view()),
            ),
            Expr::SwitchExpr(pairs) => ExprView::SwitchExpr(
                Seq::new(
                    pairs.len() as nat,
                    |i: int|
                        if 0 <= i < pairs.len() {
                            pair_view(pairs[i])
                        } else {
                            (ExprView::Const(ValueView::Null), ExprView::Const(ValueView::Null))
                        },
                ),
            ),
        }
    }
}

/// The views of the two halves of a pair of expressions.
pub open spec fn pair_view(pair: (Expr, Expr)) -> (ExprView, ExprView)
    decreases pair,
{
    (pair.0.view(), pair.1.view())
}

/// The views of a sequence of expressions, in the same order.
pub open spec fn expr_views(exprs: Seq<Expr>) -> Seq<ExprView> {
    Seq::new(exprs.len(), |i: int| exprs[i]@)
}

/// The views of a sequence of pairs of expressions, in the same order.
pub open spec fn pair_views(pairs: Seq<(Expr, Expr)>) -> Seq<(ExprView, ExprView)> {
    Seq::new(pairs.len(), |i: int| pair_view(pairs[i]))
}

impl Clone for Expr {
    /// A copy of the whole tree.
    #[verifier::loop_isolation(false)]
    fn clone(&self) -> (r: Expr)
        ensures
            r@ == self@,
        decreases self,
    {
        match self {
            Expr::Const(v) => Expr::Const(v.clone()),
            Expr::Variable(name) => Expr::Variable(name.clone()),
            Expr::Apply(op, args) => {
                let mut copies: Vec<Expr> = Vec::new();
                let mut i: usize = 0;
                while i < args.len()
                    invariant
                        i <= args.len(),
                        copies.len() == i,
                        forall|j: int| 0 <= j < i ==> (#[trigger] copies[j])@ == args[j]@,
                    decreases args.len() - i,
                {
                    copies.push(args[i].clone());
                    i += 1;
                }
                let out = Expr::Apply(*op, copies);
                assert(out@->Apply_1 =~= self@->Apply_1);
                out
            },
            Expr::IfExpr(parts) => Expr::IfExpr(
                Box::new((parts.0.clone(), parts.1.clone(), parts.2.clone())),
            ),
            Expr::SwitchExpr(pairs) => {
                let mut copies: Vec<(Expr, Expr)> = Vec::new();
                let mut i: usize = 0;
                while i < pairs.len()
                    invariant
                        i <= pairs.len(),
                        copies.len() == i,
                        forall|j: int|
                            0 <= j < i ==> pair_view(#[trigger] copies[j]) == pair_view(pairs[j]),
                    decreases pairs.len() - i,
                {
                    copies.push((pairs[i].0.clone(), pairs[i].1.clone()));
                    i += 1;
                }
                let out = Expr::SwitchExpr(copies);
                assert(out@->SwitchExpr_0 =~= self@->SwitchExpr_0);
                out
            },
        }
    }
}

/// What partial evaluation comes to, as the contracts state it.
pub type Simplified = Result<ExprView, EvalErrorView>;

/// The view of the result of a partial evaluation.
pub open spec fn simplified(r: Result<Expr, EvalError>) -> Simplified {
    match r {
        Ok(e) => Ok(e@),
        Err(e) => Err(e@),
    }
}

impl ExprView {
    /// Every switch in the tree has its first pair, the one that holds the
    /// subject and the default.
    pub open spec fn well_formed(self) -> bool
        decreases self,
    {
        match self {
            ExprView::Const(_) => true,
            ExprView::Variable(_) => true,
            ExprView::Apply(_, args) => forall|i: int|
                0 <= i < args.len() ==> (#[trigger] args[i]).well_formed(),
            ExprView::IfExpr(cond, if_part, else_part) => cond.well_formed()
                && if_part.well_formed() && else_part.well_formed(),
            ExprView::SwitchExpr(pairs) => pairs.len() > 0 && forall|i: int|
                0 <= i < pairs.len() ==> (#[trigger] pairs[i]).0.well_formed()
                    && pairs[i].1.well_formed(),
        }
    }

    /// The number of nodes of the tree.
    pub open spec fn size(self) -> nat
        decreases self,
    {
        match self {
            ExprView::Const(_) => 1,
            ExprView::Variable(_) => 1,
            ExprView::Apply(_, args) => 1 + total_size(args),
            ExprView::IfExpr(cond, if_part, else_part) => 1 + cond.size() + if_part.size()
                + else_part.size(),
            ExprView::SwitchExpr(pairs) => 1 + total_pair_size(pairs),
        }
    }

    /// The outcome of evaluating the tree against `row`.
    ///
    /// An application of coalesce gives the first of its arguments, from the
    /// left, that does not evaluate to null; what stands to the right of it
    /// has no part in the outcome. An application of any other operator first
    /// holds the number of arguments against the declared one, then takes the
    /// arguments from the left.
    pub open spec fn row_eval(self, row: Bound) -> Outcome
        decreases self,
    {
        match self {
            ExprView::Const(v) => Ok(v),
            ExprView::Variable(name) => lookup_row(row, name),
            ExprView::Apply(op, args) => if op == Op::Coalesce {
                coalesce_outcomes(row_outcomes(args, row))
            } else {
                apply_outcome(op, row_outcomes(args, row))
            },
            ExprView::IfExpr(cond, if_part, else_part) => if_outcome(
                cond.row_eval(row),
                if_part.row_eval(row),
                else_part.row_eval(row),
            ),
            ExprView::SwitchExpr(pairs) => {
                let outcomes = row_pair_outcomes(pairs, row);
                if pairs.len() == 0 {
                    Ok(ValueView::Null)
                } else {
                    switch_outcome(outcomes[0].0, outcomes.drop_first(), outcomes[0].1)
                }
            },
        }
    }

    /// The tree that partial evaluation makes of this one when the variables
    /// in `known` have the values given there, or the failure that it reports.
    pub open spec fn partial_eval(self, known: Bound) -> Simplified
        decreases self,
    {
        match self {
            ExprView::Const(v) => Ok(ExprView::Const(v)),
            ExprView::Variable(name) => if known.contains_key(name) {
                Ok(ExprView::Const(known[name]))
            } else {
                Ok(ExprView::Variable(name))
            },
            ExprView::Apply(op, args) => if op == Op::Coalesce {
                simplify_coalesce(partial_evals(args, known))
            } else {
                simplify_apply(op, partial_evals(args, known))
            },
            ExprView::IfExpr(cond, if_part, else_part) => simplify_if(
                cond.partial_eval(known),
                if_part.partial_eval(known),
                else_part.partial_eval(known),
            ),
            ExprView::SwitchExpr(pairs) => {
                let simplified = partial_pair_evals(pairs, known);
                if pairs.len() == 0 {
                    Ok(self)
                } else {
                    simplify_switch(simplified[0].0, pairs[0].1, simplified.drop_first())
                }
            },
        }
    }
}

/// The outcomes of evaluating each of `exprs` against `row`.
pub open spec fn row_outcomes(exprs: Seq<ExprView>, row: Bound) -> Seq<Outcome>
    decreases exprs,
{
    Seq::new(
        exprs.len(),
        |i: int|
            if 0 <= i < exprs.len() {
                exprs[i].row_eval(row)
            } else {
                Ok(ValueView::Null)
            },
    )
}

/// The outcomes of evaluating both halves of each of `pairs` against `row`.
pub open spec fn row_pair_outcomes(pairs: Seq<(ExprView, ExprView)>, row: Bound) -> Seq<
    (Outcome, Outcome),
>
    decreases pairs,
{
    Seq::new(
        pairs.len(),
        |i: int|
            if 0 <= i < pairs.len() {
                (pairs[i].0.row_eval(row), pairs[i].1.row_eval(row))
            } else {
                (Ok(ValueView::Null), Ok(ValueView::Null))
            },
    )
}

/// What partial evaluation makes of each of `exprs`.
pub open spec fn partial_evals(exprs: Seq<ExprView>, known: Bound) -> Seq<Simplified>
    decreases exprs,
{
    Seq::new(
        exprs.len(),
        |i: int|
            if 0 <= i < exprs.len() {
                exprs[i].partial_eval(known)
            } else {
                Ok(ExprView::Const(ValueView::Null))
            },
    )
}

/// What partial evaluation makes of both halves of each of `pairs`.
pub open spec fn partial_pair_evals(pairs: Seq<(ExprView, ExprView)>, known: Bound) -> Seq<
    (Simplified, Simplified),
>
    decreases pairs,
{
    Seq::new(
        pairs.len(),
        |i: int|
            if 0 <= i < pairs.len() {
                (pairs[i].0.partial_eval(known), pairs[i].1.partial_eval(known))
            } else {
                (Ok(ExprView::Const(ValueView::Null)), Ok(ExprView::Const(ValueView::Null)))
            },
    )
}

/// The sizes of `exprs`, added up.
pub open spec fn total_size(exprs: Seq<ExprView>) -> nat
    decreases exprs, exprs.len(),
{
    if exprs.len() == 0 {
        0
    } else {
        exprs.last().size() + total_size(exprs.drop_last())
    }
}

/// The sizes of both halves of each of `pairs`, added up.
pub open spec fn total_pair_size(pairs: Seq<(ExprView, ExprView)>) -> nat
    decreases pairs, pairs.len(),
{
    if pairs.len() == 0 {
        0
    } else {
        pairs.last().0.size() + pairs.last().1.size() + total_pair_size(pairs.drop_last())
    }
}

/// The error of an application whose number of arguments is not the declared
/// one.
pub open spec fn arity_mismatch(op: Op, found: nat) -> EvalErrorView {
    EvalErrorView::ArityMismatch {
        name: op.spec_name(),
        expected: op.spec_arity().unwrap(),
        found,
    }
}

/// The outcome of applying `op`, which is not coalesce, to arguments with the
/// outcomes `args`.
///
/// A wrong number of arguments is an arity mismatch, whatever the arguments
/// are. Otherwise the arguments count from the left: the first that fails
/// gives the failure; where the operator wants no null argument, a null
/// before any failure gives null; and where neither happens the rule of the
/// operator is applied to the values.
pub open spec fn apply_outcome(op: Op, args: Seq<Outcome>) -> Outcome {
    if !op.accepts(args.len()) {
        Err(arity_mismatch(op, args.len()))
    } else {
        apply_args(op, args, Seq::empty())
    }
}

/// The outcome of applying `op` when the arguments before `args` have come to
/// the values `done`.
pub open spec fn apply_args(op: Op, args: Seq<Outcome>, done: Seq<ValueView>) -> Outcome
    decreases args.len(),
{
    if args.len() == 0 {
        op.spec_eval(done)
    } else {
        match args[0] {
            Err(e) => Err(e),
            Ok(v) => if v is Null && op.spec_non_null_args() {
                Ok(ValueView::Null)
            } else {
                apply_args(op, args.drop_first(), done.push(v))
            },
        }
    }
}

/// The outcomes that are the values `values`.
pub open spec fn ok_outcomes(values: Seq<ValueView>) -> Seq<Outcome> {
    Seq::new(values.len(), |i: int| Ok(values[i]))
}

/// The expressions of `args` when each of them is one; else the first failure.
pub open spec fn all_simplified(args: Seq<Simplified>) -> Result<Seq<ExprView>, EvalErrorView>
    decreases args.len(),
{
    if args.len() == 0 {
        Ok(Seq::empty())
    } else {
        match args[0] {
            Err(e) => Err(e),
            Ok(x) => match all_simplified(args.drop_first()) {
                Err(e) => Err(e),
                Ok(rest) => Ok(seq![x] + rest),
            },
        }
    }
}

/// Whether every one of `exprs` is a constant.
pub open spec fn all_const(exprs: Seq<ExprView>) -> bool {
    forall|i: int| 0 <= i < exprs.len() ==> (#[trigger] exprs[i]) is Const
}

/// The values of the constants `exprs`, as outcomes.
pub open spec fn const_outcomes(exprs: Seq<ExprView>) -> Seq<Outcome> {
    Seq::new(exprs.len(), |i: int| Ok(exprs[i]->Const_0))
}

/// What partial evaluation makes of an application of `op`, which is not
/// coalesce, to arguments that it has made `args` of.
///
/// A wrong number of arguments is reported at once. Then the first argument
/// that failed gives the failure. Where every argument has become a constant
/// and the operator has no side effect, the application is evaluated now: its
/// value takes its place, and its failure is reported. Otherwise the
/// application stays, over the simplified arguments.
pub open spec fn simplify_apply(op: Op, args: Seq<Simplified>) -> Simplified {
    if !op.accepts(args.len()) {
        Err(arity_mismatch(op, args.len()))
    } else {
        match all_simplified(args) {
            Err(e) => Err(e),
            Ok(exprs) => if !op.spec_has_side_effect() && all_const(exprs) {
                match apply_args(op, const_outcomes(exprs), Seq::empty()) {
                    Ok(v) => Ok(ExprView::Const(v)),
                    Err(e) => Err(e),
                }
            } else {
                Ok(ExprView::Apply(op, exprs))
            },
        }
    }
}

impl Expr {
    /// Evaluates the expression against the row that `ctx` stands for.
    pub fn row_eval<T: RowEvalContext>(&self, ctx: &T) -> (r: Result<Value, EvalError>)
        requires
            self@.well_formed(),
        ensures
            outcome(r) == self@.row_eval(ctx.row()),
        decreases self@.size(), 1nat,
    {
        match self {
            Expr::Const(v) => Ok(v.clone()),
            Expr::Variable(name) => ctx.resolve(name),
            Expr::Apply(op, args) => {
                let ghost views = self@->Apply_1;
                assert(views =~= expr_views(args@));
                assert forall|i: int| 0 <= i < args.len() implies
                    (#[trigger] args[i])@.well_formed() by {
                    assert(views[i].well_formed());
                }
                match op {
                    Op::Coalesce => {
                        if args.len() == 2 {
                            proof {
                                lemma_total_size_two(views);
                                lemma_coalesce_two(row_outcomes(views, ctx.row()));
                            }
                            row_eval_coalesce(ctx, &args[0], &args[1])
                        } else {
                            row_eval_coalesce_args(ctx, args)
                        }
                    },
                    _ => row_eval_apply(ctx, *op, args),
                }
            },
            Expr::IfExpr(parts) => row_eval_if_expr(ctx, &parts.0, &parts.1, &parts.2),
            Expr::SwitchExpr(pairs) => {
                let ghost views = self@->SwitchExpr_0;
                assert(views =~= pair_views(pairs@));
                assert forall|i: int| 0 <= i < pairs.len() implies
                    (#[trigger] pairs[i]).0@.well_formed()
                    && pairs[i].1@.well_formed() by {
                    assert(views[i].0.well_formed());
                }
                row_eval_switch_expr(ctx, pairs.as_slice())
            },
        }
    }

    /// An application of `op` to `args`, if they are as many as the operator
    /// declares; else an arity mismatch.
    pub fn apply(op: Op, args: Vec<Expr>) -> (r: Result<Expr, EvalError>)
        ensures
            simplified(r) == if op.accepts(args.len() as nat) {
                Ok(ExprView::Apply(op, expr_views(args@)))
            } else {
                Err(arity_mismatch(op, args.len() as nat))
            },
    {
        if let Some(n) = op.arity() {
            if args.len() != n {
                return Err(
                    EvalError::ArityMismatch {
                        name: op.name().to_owned(),
                        expected: n,
                        found: args.len(),
                    },
                );
            }
        }
        let ghost views = expr_views(args@);
        let out = Expr::Apply(op, args);
        assert(out@->Apply_1 =~= views);
        Ok(out)
    }

    /// A switch on `subject` with the arms `arms`, each a candidate and a
    /// result, and the result `default` for a subject that no arm matches. A
    /// switch that is built here has its first pair.
    pub fn switch(subject: Expr, default: Expr, arms: Vec<(Expr, Expr)>) -> (r: Expr)
        ensures
            r@ == ExprView::SwitchExpr(seq![(subject@, default@)] + pair_views(arms@)),
            subject@.well_formed() && default@.well_formed() && (forall|i: int|
                0 <= i < arms.len() ==> (#[trigger] arms[i]).0@.well_formed()
                    && arms[i].1@.well_formed()) ==> r@.well_formed(),
    {
        let ghost head = (subject@, default@);
        let ghost tail = pair_views(arms@);
        let mut rest = arms;
        let mut pairs: Vec<(Expr, Expr)> = Vec::new();
        pairs.push((subject, default));
        pairs.append(&mut rest);
        let ghost views = pair_views(pairs@);
        assert(views =~= seq![head] + tail) by {
            assert(views[0] == head);
            assert forall|j: int| 1 <= j < views.len() implies views[j] == tail[j - 1] by {
                assert(pair_view(pairs@[j]) == views[j]);
            }
        }
        let out = Expr::SwitchExpr(pairs);
        assert(out@->SwitchExpr_0 =~= views);
        proof {
            if head.0.well_formed() && head.1.well_formed() && forall|i: int|
                0 <= i < arms.len() ==> (#[trigger] arms[i]).0@.well_formed()
                    && arms[i].1@.well_formed() {
                assert forall|i: int| 0 <= i < views.len() implies
                    (#[trigger] views[i]).0.well_formed() && views[i].1.well_formed() by {
                    if i > 0 {
                        assert(views[i] == tail[i - 1]);
                        assert(arms[i - 1].0@.well_formed());
                    }
                }
            }
        }
        out
    }

    /// Whether every switch in the expression has its first pair.
    #[verifier::loop_isolation(false)]
    pub fn is_well_formed(&self) -> (r: bool)
        ensures
            r == self@.well_formed(),
        decreases self,
    {
        match self {
            Expr::Const(_) => true,
            Expr::Variable(_) => true,
            Expr::Apply(_, args) => {
                let ghost views = self@->Apply_1;
                assert(views =~= expr_views(args@));
                let mut i: usize = 0;
                while i < args.len()
                    invariant
                        i <= args.len(),
                        views == expr_views(args@),
                        forall|j: int| 0 <= j < i ==> (#[trigger] views[j]).well_formed(),
                    decreases args.len() - i,
                {
                    if !args[i].is_well_formed() {
                        assert(!views[i as int].well_formed());
                        return false;
                    }
                    i += 1;
                }
                true
            },
            Expr::IfExpr(parts) => parts.0.is_well_formed() && parts.1.is_well_formed()
                && parts.2.is_well_formed(),
            Expr::SwitchExpr(pairs) => {
                let ghost views = self@->SwitchExpr_0;
                assert(views =~= pair_views(pairs@));
                if pairs.len() == 0 {
                    return false;
                }
                let mut i: usize = 0;
                while i < pairs.len()
                    invariant
                        i <= pairs.len(),
                        views == pair_views(pairs@),
                        forall|j: int|
                            0 <= j < i ==> (#[trigger] views[j]).0.well_formed()
                                && views[j].1.well_formed(),
                    decreases pairs.len() - i,
                {
                    if !pairs[i].0.is_well_formed() || !pairs[i].1.is_well_formed() {
                        assert(!(views[i as int].0.well_formed()
                            && views[i as int].1.well_formed()));
                        return false;
                    }
                    i += 1;
                }
                true
            },
        }
    }

    /// Whether the expression is a constant.
    pub fn is_const(&self) -> (r: bool)
        ensures
            r == (self@ is Const),
    {
        match self {
            Expr::Const(_) => true,
            _ => false,
        }
    }

    /// Simplifies the expression with what `ctx` knows ahead of time. The
    /// expression is used up; the result is a new one.
    pub fn partial_eval<T: ExprEvalContext>(self, ctx: &T) -> (r: Result<Expr, EvalError>)
        requires
            self@.well_formed(),
        ensures
            simplified(r) == self@.partial_eval(ctx.known()),
            r matches Ok(e) ==> e@.well_formed(),
        decreases self@.size(), 2nat,
    {
        let ghost view = self@;
        proof {
            if view.partial_eval(ctx.known()) is Ok {
                partial_eval_keeps_well_formed(view, ctx.known());
            }
        }
        match self {
            Expr::Const(v) => Ok(Expr::Const(v)),
            Expr::Variable(name) => match ctx.resolve(&name) {
                Some(v) => Ok(Expr::Const(v)),
                None => Ok(Expr::Variable(name)),
            },
            Expr::Apply(op, args) => {
                let ghost views = view->Apply_1;
                assert(views =~= expr_views(args@));
                assert forall|i: int| 0 <= i < args.len() implies
                    (#[trigger] args[i])@.well_formed() by {
                    assert(views[i].well_formed());
                }
                match op {
                    Op::Coalesce => partial_eval_coalesce(ctx, args),
                    _ => partial_eval_apply(ctx, op, args),
                }
            },
            Expr::IfExpr(parts) => {
                let (cond, if_part, else_part) = *parts;
                partial_eval_if_expr(ctx, cond, if_part, else_part)
            },
            Expr::SwitchExpr(pairs) => {
                let ghost views = view->SwitchExpr_0;
                assert(views =~= pair_views(pairs@));
                assert forall|i: int| 0 <= i < pairs.len() implies
                    (#[trigger] pairs[i]).0@.well_formed()
                    && pairs[i].1@.well_formed() by {
                    assert(views[i].0.well_formed());
                }
                partial_eval_switch_expr(ctx, pairs)
            },
        }
    }
}

/// Applies `op` to values as an application applies it to arguments that have
/// these values: null as soon as a null meets an operator that wants none,
/// else the rule of the operator.
pub fn apply_values(op: Op, values: Vec<Value>) -> (r: Result<Value, EvalError>)
    ensures
        outcome(r) == apply_args(op, ok_outcomes(value_views(values@)), Seq::empty()),
{
    let ghost all = ok_outcomes(value_views(values@));
    assert(all.skip(0) =~= all);
    assert(value_views(values@).take(0) =~= Seq::<ValueView>::empty());
    if op.non_null_args() {
        let mut i: usize = 0;
        while i < values.len()
            invariant
                i <= values.len(),
                all == ok_outcomes(value_views(values@)),
                op.spec_non_null_args(),
                apply_args(op, all, Seq::empty()) == apply_args(
                    op,
                    all.skip(i as int),
                    value_views(values@).take(i as int),
                ),
            decreases values.len() - i,
        {
            assert(all.skip(i as int)[0] == Ok::<ValueView, EvalErrorView>(values[i as int]@));
            assert(all.skip(i as int).drop_first() =~= all.skip(i + 1));
            assert(value_views(values@).take(i as int).push(values[i as int]@) =~= value_views(
                values@,
            ).take(i + 1));
            if values[i].is_null() {
                return Ok(Value::Null);
            }
            i += 1;
        }
        assert(value_views(values@).take(values.len() as int) =~= value_views(values@));
    } else {
        proof {
            lemma_apply_args_plain(op, value_views(values@), 0);
        }
    }
    op.eval(values)
}

/// Evaluates a coalesce of any number of arguments: the arguments from the
/// left, up to the first that is not null.
fn row_eval_coalesce_args<T: RowEvalContext>(ctx: &T, args: &Vec<Expr>) -> (r: Result<
    Value,
    EvalError,
>)
    requires
        forall|i: int| 0 <= i < args.len() ==> (#[trigger] args[i])@.well_formed(),
    ensures
        outcome(r) == coalesce_outcomes(row_outcomes(expr_views(args@), ctx.row())),
    decreases 1 + total_size(expr_views(args@)), 0nat,
{
    let ghost all = row_outcomes(expr_views(args@), ctx.row());
    assert(all.skip(0) =~= all);
    let mut i: usize = 0;
    while i < args.len()
        invariant
            i <= args.len(),
            all == row_outcomes(expr_views(args@), ctx.row()),
            forall|j: int| 0 <= j < args.len() ==> (#[trigger] args[j])@.well_formed(),
            coalesce_outcomes(all) == coalesce_outcomes(all.skip(i as int)),
        decreases args.len() - i,
    {
        proof {
            lemma_total_size_at(expr_views(args@), i as int);
            lemma_size_positive(args[i as int]@);
        }
        let r = args[i].row_eval(ctx);
        assert(all.skip(i as int)[0] == outcome(r));
        assert(all.skip(i as int).drop_first() =~= all.skip(i + 1));
        match r {
            Err(e) => {
                return Err(e);
            },
            Ok(v) => {
                if !v.is_null() {
                    return Ok(v);
                }
            },
        }
        i += 1;
    }
    Ok(Value::Null)
}

/// Evaluates an application of an operator other than coalesce.
fn row_eval_apply<T: RowEvalContext>(ctx: &T, op: Op, args: &Vec<Expr>) -> (r: Result<
    Value,
    EvalError,
>)
    requires
        op != Op::Coalesce,
        forall|i: int| 0 <= i < args.len() ==> (#[trigger] args[i])@.well_formed(),
    ensures
        outcome(r) == apply_outcome(op, row_outcomes(expr_views(args@), ctx.row())),
    decreases 1 + total_size(expr_views(args@)), 0nat,
{
    if let Some(n) = op.arity() {
        if args.len() != n {
            return Err(
                EvalError::ArityMismatch {
                    name: op.name().to_owned(),
                    expected: n,
                    found: args.len(),
                },
            );
        }
    }
    let ghost all = row_outcomes(expr_views(args@), ctx.row());
    assert(all.skip(0) =~= all);
    let mut values: Vec<Value> = Vec::new();
    assert(value_views(values@) =~= Seq::<ValueView>::empty());
    let mut i: usize = 0;
    while i < args.len()
        invariant
            i <= args.len(),
            op.accepts(args.len() as nat),
            all == row_outcomes(expr_views(args@), ctx.row()),
            forall|j: int| 0 <= j < args.len() ==> (#[trigger] args[j])@.well_formed(),
            apply_args(op, all, Seq::empty()) == apply_args(
                op,
                all.skip(i as int),
                value_views(values@),
            ),
        decreases args.len() - i,
    {
        proof {
            lemma_total_size_at(expr_views(args@), i as int);
            lemma_size_positive(args[i as int]@);
        }
        let r = args[i].row_eval(ctx);
        assert(all.skip(i as int)[0] == outcome(r));
        assert(all.skip(i as int).drop_first() =~= all.skip(i + 1));
        match r {
            Err(e) => {
                return Err(e);
            },
            Ok(v) => {
                if op.non_null_args() && v.is_null() {
                    return Ok(Value::Null);
                }
                assert(value_views(values@.push(v)) =~= value_views(values@).push(v@));
                values.push(v);
            },
        }
        i += 1;
    }
    op.eval(values)
}

/// Simplifies each of `args` in order, up to the first that fails.
fn partial_eval_args<T: ExprEvalContext>(ctx: &T, args: Vec<Expr>) -> (r: Result<
    Vec<Expr>,
    EvalError,
>)
    requires
        forall|i: int| 0 <= i < args.len() ==> (#[trigger] args[i])@.well_formed(),
    ensures
        match r {
            Ok(exprs) => all_simplified(partial_evals(expr_views(args@), ctx.known())) == Ok::<
                Seq<ExprView>,
                EvalErrorView,
            >(expr_views(exprs@)),
            Err(e) => all_simplified(partial_evals(expr_views(args@), ctx.known())) == Err::<
                Seq<ExprView>,
                EvalErrorView,
            >(e@),
        },
    decreases 1 + total_size(expr_views(args@)), 0nat,
{
    let ghost given = args@;
    let ghost all = partial_evals(expr_views(given), ctx.known());
    let mut done: Vec<Expr> = Vec::new();
    proof {
        assert(all.take(0) =~= Seq::<Simplified>::empty());
        assert(expr_views(done@) =~= Seq::<ExprView>::empty());
    }
    for arg in it: args
        invariant
            it.seq() == given,
            all == partial_evals(expr_views(given), ctx.known()),
            forall|j: int| 0 <= j < given.len() ==> (#[trigger] given[j])@.well_formed(),
            all_simplified(all.take(it.index() as int)) == Ok::<Seq<ExprView>, EvalErrorView>(
                expr_views(done@),
            ),
    {
        let ghost i = it.index() as int;
        proof {
            lemma_total_size_at(expr_views(given), i);
            lemma_all_simplified_step(all, i);
        }
        match arg.partial_eval(ctx) {
            Err(e) => {
                proof {
                    lemma_all_simplified_failure(all, i + 1);
                }
                return Err(e);
            },
            Ok(x) => {
                assert(expr_views(done@.push(x)) =~= expr_views(done@) + seq![x@]);
                done.push(x);
            },
        }
    }
    assert(all.take(all.len() as int) =~= all);
    Ok(done)
}

/// Simplifies an application of an operator other than coalesce.
fn partial_eval_apply<T: ExprEvalContext>(ctx: &T, op: Op, args: Vec<Expr>) -> (r: Result<
    Expr,
    EvalError,
>)
    requires
        op != Op::Coalesce,
        forall|i: int| 0 <= i < args.len() ==> (#[trigger] args[i])@.well_formed(),
    ensures
        simplified(r) == simplify_apply(op, partial_evals(expr_views(args@), ctx.known())),
    decreases 1 + total_size(expr_views(args@)), 1nat,
{
    if let Some(n) = op.arity() {
        if args.len() != n {
            return Err(
                EvalError::ArityMismatch {
                    name: op.name().to_owned(),
                    expected: n,
                    found: args.len(),
                },
            );
        }
    }
    let exprs = match partial_eval_args(ctx, args) {
        Ok(exprs) => exprs,
        Err(e) => {
            return Err(e);
        },
    };
    if op.has_side_effect() || !all_are_const(&exprs) {
        let ghost views = expr_views(exprs@);
        let out = Expr::Apply(op, exprs);
        assert(out@->Apply_1 =~= views);
        return Ok(out);
    }
    let ghost folded = expr_views(exprs@);
    let mut values: Vec<Value> = Vec::new();
    for expr in it: exprs
        invariant
            folded == expr_views(it.seq()),
            all_const(folded),
            values.len() == it.index(),
            forall|j: int| 0 <= j < it.index() ==> (#[trigger] values[j])@ == folded[j]->Const_0,
    {
        assert(folded[it.index() as int] is Const);
        match expr {
            Expr::Const(v) => {
                values.push(v);
            },
            _ => {},
        }
    }
    assert(ok_outcomes(value_views(values@)) =~= const_outcomes(folded));
    match apply_values(op, values) {
        Ok(v) => Ok(Expr::Const(v)),
        Err(e) => Err(e),
    }
}

/// Whether every one of `exprs` is a constant.
fn all_are_const(exprs: &Vec<Expr>) -> (r: bool)
    ensures
        r == all_const(expr_views(exprs@)),
{
    let mut i: usize = 0;
    while i < exprs.len()
        invariant
            i <= exprs.len(),
            forall|j: int| 0 <= j < i ==> (#[trigger] expr_views(exprs@)[j]) is Const,
        decreases exprs.len() - i,
    {
        if !exprs[i].is_const() {
            assert(!(expr_views(exprs@)[i as int] is Const));
            return false;
        }
        i += 1;
    }
    true
}

/// A tree has at least one node.
pub proof fn lemma_size_positive(e: ExprView)
    ensures
        e.size() >= 1,
{
}

/// Each of `exprs` is no larger than all of them together.
pub proof fn lemma_total_size_at(exprs: Seq<ExprView>, i: int)
    requires
        0 <= i < exprs.len(),
    ensures
        exprs[i].size() <= total_size(exprs),
    decreases exprs.len(),
{
    if i < exprs.len() - 1 {
        lemma_total_size_at(exprs.drop_last(), i);
    }
}

/// Two expressions together are as large as the two are.
pub proof fn lemma_total_size_two(exprs: Seq<ExprView>)
    requires
        exprs.len() == 2,
    ensures
        total_size(exprs) == exprs[0].size() + exprs[1].size(),
{
    assert(exprs.drop_last().drop_last().len() == 0);
    assert(total_size(exprs.drop_last()) == exprs[0].size() + total_size(
        exprs.drop_last().drop_last(),
    ));
}

/// Each pair of `pairs` is no larger than all of them together.
pub proof fn lemma_total_pair_size_at(pairs: Seq<(ExprView, ExprView)>, i: int)
    requires
        0 <= i < pairs.len(),
    ensures
        pairs[i].0.size() + pairs[i].1.size() <= total_pair_size(pairs),
    decreases pairs.len(),
{
    if i < pairs.len() - 1 {
        lemma_total_pair_size_at(pairs.drop_last(), i);
    }
}

/// An operator that takes null arguments is handed every value.
proof fn lemma_apply_args_plain(op: Op, values: Seq<ValueView>, i: int)
    requires
        !op.spec_non_null_args(),
        0 <= i <= values.len(),
    ensures
        apply_args(op, ok_outcomes(values).skip(i), values.take(i)) == op.spec_eval(values),
    decreases values.len() - i,
{
    let rest = ok_outcomes(values).skip(i);
    if i == values.len() {
        assert(values.take(i) =~= values);
    } else {
        assert(rest[0] == Ok::<ValueView, EvalErrorView>(values[i]));
        assert(rest.drop_first() =~= ok_outcomes(values).skip(i + 1));
        assert(values.take(i).push(values[i]) =~= values.take(i + 1));
        lemma_apply_args_plain(op, values, i + 1);
    }
}

/// The first `i + 1` of `args` are the first `i` and the one after them.
pub proof fn lemma_all_simplified_step(args: Seq<Simplified>, i: int)
    requires
        0 <= i < args.len(),
    ensures
        all_simplified(args.take(i + 1)) == match all_simplified(args.take(i)) {
            Err(e) => Err(e),
            Ok(before) => match args[i] {
                Err(e) => Err(e),
                Ok(x) => Ok(before + seq![x]),
            },
        },
    decreases i,
{
    let whole = args.take(i + 1);
    if i == 0 {
        assert(whole.drop_first() =~= Seq::<Simplified>::empty());
        assert(args.take(0) =~= Seq::<Simplified>::empty());
        assert(all_simplified(whole.drop_first()) == Ok::<Seq<ExprView>, EvalErrorView>(
            Seq::empty(),
        ));
        if args[0] is Ok {
            assert(seq![args[0]->Ok_0] + Seq::<ExprView>::empty() =~= Seq::<ExprView>::empty()
                + seq![args[0]->Ok_0]);
        }
    } else {
        let tail = args.drop_first();
        assert(whole.drop_first() =~= tail.take(i));
        assert(args.take(i).drop_first() =~= tail.take(i - 1));
        lemma_all_simplified_step(tail, i - 1);
        if args[0] is Ok && all_simplified(tail.take(i - 1)) is Ok && args[i] is Ok {
            let x0 = args[0]->Ok_0;
            let before = all_simplified(tail.take(i - 1))->Ok_0;
            let x = args[i]->Ok_0;
            assert(seq![x0] + (before + seq![x]) =~= (seq![x0] + before) + seq![x]);
        }
    }
}

/// A failure among the first of `args` is the failure of all of them.
pub proof fn lemma_all_simplified_failure(args: Seq<Simplified>, i: int)
    requires
        0 <= i <= args.len(),
        all_simplified(args.take(i)) is Err,
    ensures
        all_simplified(args) == all_simplified(args.take(i)),
    decreases i,
{
    if i == 0 {
        assert(args.take(0) =~= Seq::<Simplified>::empty());
    } else {
        assert(args.take(i).drop_first() =~= args.drop_first().take(i - 1));
        if args[0] is Ok {
            lemma_all_simplified_failure(args.drop_first(), i - 1);
        }
    }
}

} // verus!
