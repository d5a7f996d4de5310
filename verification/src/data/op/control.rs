//! The operators that decide which of their arguments is evaluated: coalesce,
//! the conditional and the multi-way switch.

use vstd::prelude::*;
use crate::data::eval::{
    outcome, EvalError, EvalErrorView, ExprEvalContext, Outcome, RowEvalContext,
};
use crate::data::expr::{
    expr_views, lemma_size_positive, lemma_total_pair_size_at, lemma_total_size_at, pair_views,
    partial_evals, partial_pair_evals, row_pair_outcomes, simplified,
    total_pair_size, total_size, Expr, ExprView, Simplified,
};
use crate::data::op::Op;
use crate::data::equivalence::partial_eval_keeps_well_formed;
use crate::data::value::{value_views, Value, ValueView};

verus! {

/// The conditional. It is no operator that an application applies: an
/// expression has a node of its own for it. It has a name, under which it
/// reports a condition of the wrong kind.
pub struct OpCond;

impl OpCond {
    /// The name of the conditional.
    pub fn name(&self) -> (r: &'static str)
        ensures
            r@ == if_name(),
    {
        "if"
    }
}

/// The coalesce operator, `~~`.
pub struct OpCoalesce;

impl OpCoalesce {
    /// Coalesce takes any number of arguments.
    pub fn arity(&self) -> (r: Option<usize>)
        ensures
            r is None,
    {
        None
    }

    /// Coalesce does nothing but give a value.
    pub fn has_side_effect(&self) -> (r: bool)
        ensures
            !r,
    {
        false
    }

    /// The name of the coalesce operator.
    pub fn name(&self) -> (r: &'static str)
        ensures
            r@ == "~~"@,
    {
        "~~"
    }

    /// Coalesce is handed null arguments like any others.
    pub fn non_null_args(&self) -> (r: bool)
        ensures
            !r,
    {
        false
    }

    /// The first argument that is not null, and null when every argument is
    /// null or there is none. Never fails.
    pub fn eval(&self, args: Vec<Value>) -> (r: Result<Value, EvalError>)
        ensures
            outcome(r) == Ok::<ValueView, EvalErrorView>(coalesce_values(value_views(args@))),
    {
        let ghost all = value_views(args@);
        assert(all.skip(0) =~= all);
        for arg in it: args
            invariant
                all == value_views(it.seq()),
                coalesce_values(all) == coalesce_values(all.skip(it.index() as int)),
        {
            assert(all.skip(it.index() as int)[0] == arg@);
            assert(all.skip(it.index() as int).drop_first() =~= all.skip(it.index() + 1));
            if !arg.is_null() {
                return Ok(arg);
            }
        }
        Ok(Value::Null)
    }
}

/// The first of `values` that is not null; null when there is none.
pub open spec fn coalesce_values(values: Seq<ValueView>) -> ValueView
    decreases values.len(),
{
    if values.len() == 0 {
        ValueView::Null
    } else if values[0] is Null {
        coalesce_values(values.drop_first())
    } else {
        values[0]
    }
}

/// The outcome of a coalesce of two arguments with the outcomes `left` and
/// `right`: that of the left one, unless it is null. The right one counts only
/// when the left one is null.
pub open spec fn coalesce_outcome(left: Outcome, right: Outcome) -> Outcome {
    match left {
        Ok(ValueView::Null) => right,
        _ => left,
    }
}

/// The outcome of a coalesce of arguments with the outcomes `args`: the first
/// that is not null, be it a value or a failure, and null when there is none.
pub open spec fn coalesce_outcomes(args: Seq<Outcome>) -> Outcome
    decreases args.len(),
{
    if args.len() == 0 {
        Ok(ValueView::Null)
    } else {
        coalesce_outcome(args[0], coalesce_outcomes(args.drop_first()))
    }
}

/// The name of the conditional.
pub open spec fn if_name() -> Seq<char> {
    "if"@
}

/// The outcome of a conditional from the outcomes of its three parts.
///
/// A failing condition gives its failure, a null condition gives null, and a
/// condition of any kind but boolean is a type mismatch that names the
/// conditional and carries the value. The part that is not chosen has no part
/// in the outcome.
pub open spec fn if_outcome(cond: Outcome, if_part: Outcome, else_part: Outcome) -> Outcome {
    match cond {
        Err(e) => Err(e),
        Ok(ValueView::Bool(b)) => if b {
            if_part
        } else {
            else_part
        },
        Ok(ValueView::Null) => Ok(ValueView::Null),
        Ok(v) => Err(EvalErrorView::OpTypeMismatch(if_name(), seq![v])),
    }
}

/// The outcome of a switch whose subject has the value `subject`: the result
/// of the first arm whose candidate has that value, and `default` when there
/// is none. A candidate that fails before any arm has matched gives its
/// failure. Each arm is the outcome of its candidate and that of its result.
pub open spec fn first_match(
    subject: ValueView,
    arms: Seq<(Outcome, Outcome)>,
    default: Outcome,
) -> Outcome
    decreases arms.len(),
{
    if arms.len() == 0 {
        default
    } else {
        match arms[0].0 {
            Err(e) => Err(e),
            Ok(candidate) => if candidate == subject {
                arms[0].1
            } else {
                first_match(subject, arms.drop_first(), default)
            },
        }
    }
}

/// The outcome of a switch from the outcomes of its subject, of its arms and
/// of its default. A failing subject gives its failure.
pub open spec fn switch_outcome(
    subject: Outcome,
    arms: Seq<(Outcome, Outcome)>,
    default: Outcome,
) -> Outcome {
    match subject {
        Err(e) => Err(e),
        Ok(v) => first_match(v, arms, default),
    }
}

/// Evaluates a coalesce of two arguments against the row of `ctx`: the left
/// one, and the right one only when the left one is null.
pub fn row_eval_coalesce<T: RowEvalContext>(ctx: &T, left: &Expr, right: &Expr) -> (r: Result<
    Value,
    EvalError,
>)
    requires
        left@.well_formed(),
        right@.well_formed(),
    ensures
        outcome(r) == coalesce_outcome(left@.row_eval(ctx.row()), right@.row_eval(ctx.row())),
    decreases 1 + left@.size() + right@.size(), 0nat,
{
    proof {
        lemma_size_positive(left@);
        lemma_size_positive(right@);
    }
    let left = match left.row_eval(ctx) {
        Ok(v) => v,
        Err(e) => {
            return Err(e);
        },
    };
    if !left.is_null() {
        return Ok(left);
    }
    right.row_eval(ctx)
}

/// Evaluates a conditional against the row of `ctx`: the condition, and then
/// the one part that it chooses, if it chooses one.
pub fn row_eval_if_expr<T: RowEvalContext>(
    ctx: &T,
    cond: &Expr,
    if_part: &Expr,
    else_part: &Expr,
) -> (r: Result<Value, EvalError>)
    requires
        cond@.well_formed(),
        if_part@.well_formed(),
        else_part@.well_formed(),
    ensures
        outcome(r) == if_outcome(
            cond@.row_eval(ctx.row()),
            if_part@.row_eval(ctx.row()),
            else_part@.row_eval(ctx.row()),
        ),
    decreases 1 + cond@.size() + if_part@.size() + else_part@.size(), 0nat,
{
    proof {
        lemma_size_positive(cond@);
        lemma_size_positive(if_part@);
        lemma_size_positive(else_part@);
    }
    let cond = match cond.row_eval(ctx) {
        Ok(v) => v,
        Err(e) => {
            return Err(e);
        },
    };
    match cond {
        Value::Bool(b) => if b {
            if_part.row_eval(ctx)
        } else {
            else_part.row_eval(ctx)
        },
        Value::Null => Ok(Value::Null),
        v => {
            let mut values: Vec<Value> = Vec::new();
            values.push(v);
            assert(value_views(values@) =~= seq![v@]);
            Err(EvalError::OpTypeMismatch(OpCond.name().to_owned(), values))
        },
    }
}

/// Evaluates a switch against the row of `ctx`. The first pair of `args`
/// holds the subject and the default; the others are the arms. The subject is
/// evaluated once, then the candidates in order up to the first that equals
/// it, then the result of that arm, or the default when no arm matched.
pub fn row_eval_switch_expr<T: RowEvalContext>(ctx: &T, args: &[(Expr, Expr)]) -> (r: Result<
    Value,
    EvalError,
>)
    requires
        args.len() > 0,
        forall|i: int|
            0 <= i < args.len() ==> (#[trigger] args[i]).0@.well_formed()
                && args[i].1@.well_formed(),
    ensures
        outcome(r) == switch_outcome(
            args[0].0@.row_eval(ctx.row()),
            row_pair_outcomes(pair_views(args@), ctx.row()).drop_first(),
            args[0].1@.row_eval(ctx.row()),
        ),
    decreases 1 + total_pair_size(pair_views(args@)), 0nat,
{
    proof {
        lemma_total_pair_size_at(pair_views(args@), 0);
        lemma_size_positive(args[0].0@);
        lemma_size_positive(args[0].1@);
    }
    let subject = match args[0].0.row_eval(ctx) {
        Ok(v) => v,
        Err(e) => {
            return Err(e);
        },
    };
    let ghost all = row_pair_outcomes(pair_views(args@), ctx.row());
    let ghost default = args[0].1@.row_eval(ctx.row());
    assert(all.drop_first() =~= all.skip(1));
    let mut i: usize = 1;
    while i < args.len()
        invariant
            1 <= i <= args.len(),
            args[0].0@.row_eval(ctx.row()) == Ok::<ValueView, EvalErrorView>(subject@),
            all == row_pair_outcomes(pair_views(args@), ctx.row()),
            default == args[0].1@.row_eval(ctx.row()),
            forall|j: int|
                0 <= j < args.len() ==> (#[trigger] args[j]).0@.well_formed()
                    && args[j].1@.well_formed(),
            first_match(subject@, all.drop_first(), default) == first_match(
                subject@,
                all.skip(i as int),
                default,
            ),
        decreases args.len() - i,
    {
        proof {
            lemma_total_pair_size_at(pair_views(args@), i as int);
            lemma_size_positive(args[i as int].0@);
            lemma_size_positive(args[i as int].1@);
        }
        let candidate = match args[i].0.row_eval(ctx) {
            Ok(v) => v,
            Err(e) => {
                assert(all.skip(i as int)[0].0 == Err::<ValueView, EvalErrorView>(e@));
                return Err(e);
            },
        };
        assert(all.skip(i as int)[0] == (
            Ok::<ValueView, EvalErrorView>(candidate@),
            args[i as int].1@.row_eval(ctx.row()),
        ));
        assert(all.skip(i as int).drop_first() =~= all.skip(i + 1));
        if candidate == subject {
            return args[i].1.row_eval(ctx);
        }
        i += 1;
    }
    args[0].1.row_eval(ctx)
}

/// Whether `expr` is an application of coalesce.
pub open spec fn is_coalesce(expr: ExprView) -> bool {
    expr matches ExprView::Apply(op, _) && op == Op::Coalesce
}

/// What a simplified argument of a coalesce adds to the arguments that stay:
/// nothing when it is the constant null, its own arguments when it is a
/// coalesce, and else itself.
pub open spec fn spliced(arg: ExprView) -> Seq<ExprView> {
    match arg {
        ExprView::Const(ValueView::Null) => Seq::empty(),
        ExprView::Apply(Op::Coalesce, inner) => inner,
        _ => seq![arg],
    }
}

/// The arguments that stay of a coalesce whose arguments partial evaluation
/// has made `args` of, or the first failure among them.
pub open spec fn collect_coalesce(args: Seq<Simplified>) -> Result<Seq<ExprView>, EvalErrorView>
    decreases args.len(),
{
    if args.len() == 0 {
        Ok(Seq::empty())
    } else {
        match args[0] {
            Err(e) => Err(e),
            Ok(arg) => match collect_coalesce(args.drop_first()) {
                Err(e) => Err(e),
                Ok(rest) => Ok(spliced(arg) + rest),
            },
        }
    }
}

/// The expression that stands for a coalesce of `collected`: the constant null
/// for none, the argument itself for one, a coalesce for more.
pub open spec fn rebuild_coalesce(collected: Seq<ExprView>) -> ExprView {
    if collected.len() == 0 {
        ExprView::Const(ValueView::Null)
    } else if collected.len() == 1 {
        collected[0]
    } else {
        ExprView::Apply(Op::Coalesce, collected)
    }
}

/// What partial evaluation makes of a coalesce whose arguments it has made
/// `args` of.
pub open spec fn simplify_coalesce(args: Seq<Simplified>) -> Simplified {
    match collect_coalesce(args) {
        Err(e) => Err(e),
        Ok(collected) => Ok(rebuild_coalesce(collected)),
    }
}

/// What partial evaluation makes of a conditional whose three parts it has
/// made `cond`, `if_part` and `else_part` of.
///
/// A condition that has become the constant null gives the constant null,
/// whatever the two parts are or fail with. One that has become a boolean
/// constant gives what was made of the part that it chooses; the other part
/// counts for nothing. Otherwise the conditional stays, over the three
/// simplified parts, and a part that failed gives its failure, the first part
/// before the second.
pub open spec fn simplify_if(cond: Simplified, if_part: Simplified, else_part: Simplified)
    -> Simplified {
    match cond {
        Err(e) => Err(e),
        Ok(ExprView::Const(ValueView::Null)) => Ok(ExprView::Const(ValueView::Null)),
        Ok(ExprView::Const(ValueView::Bool(b))) => if b {
            if_part
        } else {
            else_part
        },
        Ok(c) => match if_part {
            Err(e) => Err(e),
            Ok(t) => match else_part {
                Err(e) => Err(e),
                Ok(f) => Ok(ExprView::IfExpr(Box::new(c), Box::new(t), Box::new(f))),
            },
        },
    }
}

/// The expression that stands for a switch on `subject` with the default
/// `default` and the arms `kept`: the default alone when no arm is left.
pub open spec fn rebuild_switch(
    subject: ExprView,
    default: ExprView,
    kept: Seq<(ExprView, ExprView)>,
) -> ExprView {
    if kept.len() == 0 {
        default
    } else {
        ExprView::SwitchExpr(seq![(subject, default)] + kept)
    }
}

/// The default and the arms that are left of a switch once its subject has
/// become `subject`, when the arms before `arms` have left `kept`.
///
/// Each arm is what was made of its candidate and of its result. Where the
/// subject and the candidate are both constants, the arm is decided now: if
/// they are equal its result becomes the default and no later arm is looked
/// at; if not, the arm is dropped, and what was made of its result counts for
/// nothing. Any other arm stays.
pub open spec fn settle_arms(
    subject: ExprView,
    default: ExprView,
    arms: Seq<(Simplified, Simplified)>,
    kept: Seq<(ExprView, ExprView)>,
) -> Result<(ExprView, Seq<(ExprView, ExprView)>), EvalErrorView>
    decreases arms.len(),
{
    if arms.len() == 0 {
        Ok((default, kept))
    } else {
        match arms[0].0 {
            Err(e) => Err(e),
            Ok(candidate) => if subject is Const && candidate is Const {
                if candidate == subject {
                    match arms[0].1 {
                        Err(e) => Err(e),
                        Ok(result) => Ok((result, kept)),
                    }
                } else {
                    settle_arms(subject, default, arms.drop_first(), kept)
                }
            } else {
                match arms[0].1 {
                    Err(e) => Err(e),
                    Ok(result) => settle_arms(
                        subject,
                        default,
                        arms.drop_first(),
                        kept.push((candidate, result)),
                    ),
                }
            },
        }
    }
}

/// What partial evaluation makes of a switch with the default `default`, from
/// what it has made of the subject and of the arms. The default is taken as it
/// stands.
pub open spec fn simplify_switch(
    subject: Simplified,
    default: ExprView,
    arms: Seq<(Simplified, Simplified)>,
) -> Simplified {
    match subject {
        Err(e) => Err(e),
        Ok(s) => match settle_arms(s, default, arms, Seq::empty()) {
            Err(e) => Err(e),
            Ok((last_default, kept)) => Ok(rebuild_switch(s, last_default, kept)),
        },
    }
}

/// Simplifies a coalesce of `args`. Each argument is simplified first. One
/// that has become the constant null is dropped, one that has become a
/// coalesce gives its own arguments in its place. Of what is left, none
/// stands for the constant null, one stands for itself, and more make a
/// coalesce.
pub fn partial_eval_coalesce<T: ExprEvalContext>(ctx: &T, args: Vec<Expr>) -> (r: Result<
    Expr,
    EvalError,
>)
    requires
        forall|i: int| 0 <= i < args.len() ==> (#[trigger] args[i])@.well_formed(),
    ensures
        simplified(r) == simplify_coalesce(partial_evals(expr_views(args@), ctx.known())),
        r matches Ok(e) ==> e@.well_formed(),
    decreases 1 + total_size(expr_views(args@)), 0nat,
{
    let ghost given = args@;
    proof {
        let node = ExprView::Apply(Op::Coalesce, expr_views(args@));
        if node.partial_eval(ctx.known()) is Ok {
            partial_eval_keeps_well_formed(node, ctx.known());
        }
    }
    let ghost all = partial_evals(expr_views(given), ctx.known());
    let mut collected: Vec<Expr> = Vec::new();
    proof {
        assert(all.take(0) =~= Seq::<Simplified>::empty());
        assert(expr_views(collected@) =~= Seq::<ExprView>::empty());
    }
    for arg in it: args
        invariant
            it.seq() == given,
            all == partial_evals(expr_views(given), ctx.known()),
            forall|j: int| 0 <= j < given.len() ==> (#[trigger] given[j])@.well_formed(),
            collect_coalesce(all.take(it.index() as int)) == Ok::<Seq<ExprView>, EvalErrorView>(
                expr_views(collected@),
            ),
    {
        let ghost i = it.index() as int;
        let ghost before = expr_views(collected@);
        proof {
            lemma_total_size_at(expr_views(given), i);
            lemma_collect_coalesce_step(all, i);
        }
        match arg.partial_eval(ctx) {
            Err(e) => {
                proof {
                    lemma_collect_coalesce_failure(all, i + 1);
                }
                return Err(e);
            },
            Ok(Expr::Const(Value::Null)) => {
                assert(before + Seq::<ExprView>::empty() =~= before);
            },
            Ok(Expr::Apply(Op::Coalesce, inner)) => {
                let mut inner = inner;
                let ghost spliced_in = expr_views(inner@);
                assert(spliced_in =~= (Expr::Apply(Op::Coalesce, inner)@)->Apply_1);
                assert(expr_views(collected@ + inner@) =~= before + spliced_in);
                collected.append(&mut inner);
            },
            Ok(expr) => {
                assert(expr_views(collected@.push(expr)) =~= before + seq![expr@]);
                collected.push(expr);
            },
        }
    }
    assert(all.take(all.len() as int) =~= all);
    if collected.len() == 0 {
        Ok(Expr::Const(Value::Null))
    } else if collected.len() == 1 {
        match collected.pop() {
            Some(only) => Ok(only),
            None => Ok(Expr::Const(Value::Null)),
        }
    } else {
        let ghost views = expr_views(collected@);
        let out = Expr::Apply(Op::Coalesce, collected);
        assert(out@->Apply_1 =~= views);
        Ok(out)
    }
}

/// Simplifies a conditional. The condition is simplified first; the two
/// parts are simplified only as far as the result needs them.
pub fn partial_eval_if_expr<T: ExprEvalContext>(
    ctx: &T,
    cond: Expr,
    if_part: Expr,
    else_part: Expr,
) -> (r: Result<Expr, EvalError>)
    requires
        cond@.well_formed(),
        if_part@.well_formed(),
        else_part@.well_formed(),
    ensures
        simplified(r) == simplify_if(
            cond@.partial_eval(ctx.known()),
            if_part@.partial_eval(ctx.known()),
            else_part@.partial_eval(ctx.known()),
        ),
        r matches Ok(e) ==> e@.well_formed(),
    decreases 1 + cond@.size() + if_part@.size() + else_part@.size(), 0nat,
{
    proof {
        let node = ExprView::IfExpr(Box::new(cond@), Box::new(if_part@), Box::new(else_part@));
        if node.partial_eval(ctx.known()) is Ok {
            partial_eval_keeps_well_formed(node, ctx.known());
        }
        lemma_size_positive(cond@);
        lemma_size_positive(if_part@);
        lemma_size_positive(else_part@);
    }
    let cond = match cond.partial_eval(ctx) {
        Ok(e) => e,
        Err(e) => {
            return Err(e);
        },
    };
    match cond {
        Expr::Const(Value::Null) => Ok(Expr::Const(Value::Null)),
        Expr::Const(Value::Bool(b)) => if b {
            if_part.partial_eval(ctx)
        } else {
            else_part.partial_eval(ctx)
        },
        cond => {
            let if_part = match if_part.partial_eval(ctx) {
                Ok(e) => e,
                Err(e) => {
                    return Err(e);
                },
            };
            let else_part = match else_part.partial_eval(ctx) {
                Ok(e) => e,
                Err(e) => {
                    return Err(e);
                },
            };
            Ok(Expr::IfExpr(Box::new((cond, if_part, else_part))))
        },
    }
}

/// Simplifies a switch. The first pair of `args` holds the subject and the
/// default; the others are the arms. The subject is simplified, then the
/// arms in order. Once an arm has been found to match a constant subject, the
/// arms after it are left alone. The default is not simplified.
pub fn partial_eval_switch_expr<T: ExprEvalContext>(ctx: &T, args: Vec<(Expr, Expr)>) -> (r:
    Result<Expr, EvalError>)
    requires
        args.len() > 0,
        forall|i: int|
            0 <= i < args.len() ==> (#[trigger] args[i]).0@.well_formed()
                && args[i].1@.well_formed(),
    ensures
        simplified(r) == simplify_switch(
            args[0].0@.partial_eval(ctx.known()),
            args[0].1@,
            partial_pair_evals(pair_views(args@), ctx.known()).drop_first(),
        ),
        r matches Ok(e) ==> e@.well_formed(),
    decreases 1 + total_pair_size(pair_views(args@)), 0nat,
{
    let ghost given = args@;
    let ghost all = partial_pair_evals(pair_views(given), ctx.known());
    proof {
        let node = ExprView::SwitchExpr(pair_views(args@));
        assert(node.well_formed()) by {
            assert forall|i: int| 0 <= i < args.len() implies (#[trigger] pair_views(
                args@,
            )[i]).0.well_formed() && pair_views(args@)[i].1.well_formed() by {
                assert(args[i].0@.well_formed());
            }
        }
        if node.partial_eval(ctx.known()) is Ok {
            partial_eval_keeps_well_formed(node, ctx.known());
        }
        lemma_total_pair_size_at(pair_views(given), 0);
        lemma_size_positive(given[0].0@);
        lemma_size_positive(given[0].1@);
    }
    let mut arms = args;
    let (subject, first_default) = arms.remove(0);
    let subject = match subject.partial_eval(ctx) {
        Ok(e) => e,
        Err(e) => {
            return Err(e);
        },
    };
    let ghost default_view = first_default@;
    let mut default = first_default;
    let subject_known = subject.is_const();
    let mut decided = false;
    let mut collected: Vec<(Expr, Expr)> = Vec::new();
    proof {
        assert(all.drop_first().skip(0) =~= all.drop_first());
        assert(pair_views(collected@) =~= Seq::<(ExprView, ExprView)>::empty());
        assert(arms@ =~= given.drop_first());
    }
    for pair in it: arms
        invariant
            given == args@,
            given.len() > 0,
            args[0].0@.partial_eval(ctx.known()) == Ok::<ExprView, EvalErrorView>(subject@),
            default_view == args[0].1@,
            it.seq() == given.drop_first(),
            all == partial_pair_evals(pair_views(given), ctx.known()),
            forall|j: int|
                0 <= j < given.len() ==> (#[trigger] given[j]).0@.well_formed()
                    && given[j].1@.well_formed(),
            subject_known == (subject@ is Const),
            settle_arms(subject@, default_view, all.drop_first(), Seq::empty()) == if decided {
                Ok::<(ExprView, Seq<(ExprView, ExprView)>), EvalErrorView>(
                    (default@, pair_views(collected@)),
                )
            } else {
                settle_arms(
                    subject@,
                    default@,
                    all.drop_first().skip(it.index() as int),
                    pair_views(collected@),
                )
            },
    {
        let ghost i = it.index() as int;
        let ghost rest = all.drop_first().skip(i);
        proof {
            lemma_total_pair_size_at(pair_views(given), i + 1);
            lemma_size_positive(given[i + 1].0@);
            lemma_size_positive(given[i + 1].1@);
            assert(rest.drop_first() =~= all.drop_first().skip(i + 1));
            assert(rest[0] == all[i + 1]);
            assert(pair == given[i + 1]);
            assert(pair_views(given)[i + 1] == (pair.0@, pair.1@));
            assert(all[i + 1] == (
                pair.0@.partial_eval(ctx.known()),
                pair.1@.partial_eval(ctx.known()),
            ));
        }
        if !decided {
            let (candidate, result) = pair;
            let candidate = match candidate.partial_eval(ctx) {
                Ok(e) => e,
                Err(e) => {
                    return Err(e);
                },
            };
            if subject_known && candidate.is_const() {
                if same_const(&candidate, &subject) {
                    default =
                    match result.partial_eval(ctx) {
                        Ok(e) => e,
                        Err(e) => {
                            return Err(e);
                        },
                    };
                    decided = true;
                }
            } else {
                let result = match result.partial_eval(ctx) {
                    Ok(e) => e,
                    Err(e) => {
                        return Err(e);
                    },
                };
                assert(pair_views(collected@.push((candidate, result))) =~= pair_views(
                    collected@,
                ).push((candidate@, result@)));
                collected.push((candidate, result));
            }
        }
    }
    if collected.len() == 0 {
        Ok(default)
    } else {
        Ok(Expr::switch(subject, default, collected))
    }
}

/// Whether two constants hold the same value.
fn same_const(a: &Expr, b: &Expr) -> (r: bool)
    requires
        a@ is Const,
        b@ is Const,
    ensures
        r == (a@ == b@),
{
    match (a, b) {
        (Expr::Const(x), Expr::Const(y)) => *x == *y,
        _ => false,
    }
}

/// A coalesce of two outcomes is the coalesce of the sequence of the two.
pub proof fn lemma_coalesce_two(args: Seq<Outcome>)
    requires
        args.len() == 2,
    ensures
        coalesce_outcomes(args) == coalesce_outcome(args[0], args[1]),
{
    assert(args.drop_first().drop_first().len() == 0);
    assert(coalesce_outcomes(args.drop_first()) == coalesce_outcome(
        args[1],
        coalesce_outcomes(args.drop_first().drop_first()),
    ));
}

/// The arguments that stay of the first `i + 1` of `args` are those that stay
/// of the first `i`, and then what the one after them adds.
pub proof fn lemma_collect_coalesce_step(args: Seq<Simplified>, i: int)
    requires
        0 <= i < args.len(),
    ensures
        collect_coalesce(args.take(i + 1)) == match collect_coalesce(args.take(i)) {
            Err(e) => Err(e),
            Ok(before) => match args[i] {
                Err(e) => Err(e),
                Ok(x) => Ok(before + spliced(x)),
            },
        },
    decreases i,
{
    let whole = args.take(i + 1);
    if i == 0 {
        assert(whole.drop_first() =~= Seq::<Simplified>::empty());
        assert(args.take(0) =~= Seq::<Simplified>::empty());
        assert(collect_coalesce(whole.drop_first()) == Ok::<Seq<ExprView>, EvalErrorView>(
            Seq::empty(),
        ));
        if args[0] is Ok {
            assert(spliced(args[0]->Ok_0) + Seq::<ExprView>::empty() =~= Seq::<ExprView>::empty()
                + spliced(args[0]->Ok_0));
        }
    } else {
        let tail = args.drop_first();
        assert(whole.drop_first() =~= tail.take(i));
        assert(args.take(i).drop_first() =~= tail.take(i - 1));
        lemma_collect_coalesce_step(tail, i - 1);
        if args[0] is Ok && collect_coalesce(tail.take(i - 1)) is Ok && args[i] is Ok {
            let first = spliced(args[0]->Ok_0);
            let before = collect_coalesce(tail.take(i - 1))->Ok_0;
            let last = spliced(args[i]->Ok_0);
            assert(first + (before + last) =~= (first + before) + last);
        }
    }
}

/// A failure among the first of `args` is the failure of all of them.
pub proof fn lemma_collect_coalesce_failure(args: Seq<Simplified>, i: int)
    requires
        0 <= i <= args.len(),
        collect_coalesce(args.take(i)) is Err,
    ensures
        collect_coalesce(args) == collect_coalesce(args.take(i)),
    decreases i,
{
    if i == 0 {
        assert(args.take(0) =~= Seq::<Simplified>::empty());
    } else {
        assert(args.take(i).drop_first() =~= args.drop_first().take(i - 1));
        if args[0] is Ok {
            lemma_collect_coalesce_failure(args.drop_first(), i - 1);
        }
    }
}

} // verus!
