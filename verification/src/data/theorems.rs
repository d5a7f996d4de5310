//! What holds of the two evaluations, for every expression.

use vstd::prelude::*;
use crate::data::equivalence::{lemma_apply_preserved, lemma_coalesce_outcomes_concat};
use crate::data::eval::{Bound, EvalErrorView};
use crate::data::expr::{
    all_const, all_simplified, apply_args, arity_mismatch, const_outcomes, ok_outcomes,
    partial_evals, row_outcomes, simplify_apply, ExprView, Simplified,
};
use crate::data::op::Op;
use crate::data::op::control::{
    coalesce_outcome, coalesce_outcomes, coalesce_values, collect_coalesce, if_name,
    lemma_coalesce_two, rebuild_coalesce, settle_arms, simplify_coalesce, spliced,
};
use crate::data::settled::{lemma_collect_coalesce_settled, partial_eval_settles};
use crate::data::value::ValueView;

verus! {

/// The coalesce of `left` and `right`.
pub open spec fn coalesce_of(left: ExprView, right: ExprView) -> ExprView {
    ExprView::Apply(Op::Coalesce, seq![left, right])
}

/// The conditional on `cond` with the parts `if_part` and `else_part`.
pub open spec fn if_of(cond: ExprView, if_part: ExprView, else_part: ExprView) -> ExprView {
    ExprView::IfExpr(Box::new(cond), Box::new(if_part), Box::new(else_part))
}

/// A coalesce whose left argument evaluates to a value that is not null
/// evaluates to that value, whatever the right argument is: one that fails
/// does not make the coalesce fail.
pub proof fn coalesce_short_circuit(left: ExprView, right: ExprView, row: Bound, v: ValueView)
    requires
        left.row_eval(row) == Ok::<ValueView, EvalErrorView>(v),
        !(v is Null),
    ensures
        coalesce_of(left, right).row_eval(row) == Ok::<ValueView, EvalErrorView>(v),
{
    lemma_coalesce_of_row_eval(left, right, row);
}

/// A coalesce of a constant that is not null and of any expression evaluates
/// to the constant.
pub proof fn coalesce_of_constant(v: ValueView, right: ExprView, row: Bound)
    requires
        !(v is Null),
    ensures
        coalesce_of(ExprView::Const(v), right).row_eval(row) == Ok::<ValueView, EvalErrorView>(v),
{
    coalesce_short_circuit(ExprView::Const(v), right, row, v);
}

/// A coalesce inside a coalesce evaluates as the one coalesce of all the
/// arguments: `(a ~~ b) ~~ c` and the coalesce of `a`, `b` and `c` come to the
/// same outcome against every row.
pub proof fn coalesce_is_associative(a: ExprView, b: ExprView, c: ExprView, row: Bound)
    ensures
        coalesce_of(coalesce_of(a, b), c).row_eval(row) == ExprView::Apply(
            Op::Coalesce,
            seq![a, b, c],
        ).row_eval(row),
{
    lemma_coalesce_of_row_eval(a, b, row);
    lemma_coalesce_of_row_eval(coalesce_of(a, b), c, row);
    let all = row_outcomes(seq![a, b, c], row);
    let first = seq![a.row_eval(row), b.row_eval(row)];
    let last = seq![c.row_eval(row)];
    assert(all =~= first + last);
    lemma_coalesce_outcomes_concat(first, last);
    lemma_coalesce_two(first);
    assert(last.drop_first().len() == 0);
    assert(coalesce_outcomes(last.drop_first()) == Ok::<ValueView, EvalErrorView>(
        ValueView::Null,
    ));
}

/// A coalesce of arguments that all evaluate to a value gives what the rule
/// of the coalesce operator gives on those values: evaluating from the left
/// and stopping early changes nothing but the failures that are met.
pub proof fn coalesce_agrees_with_rule(values: Seq<ValueView>)
    ensures
        coalesce_outcomes(ok_outcomes(values)) == Ok::<ValueView, EvalErrorView>(
            coalesce_values(values),
        ),
    decreases values.len(),
{
    if values.len() > 0 {
        assert(ok_outcomes(values).drop_first() =~= ok_outcomes(values.drop_first()));
        coalesce_agrees_with_rule(values.drop_first());
    }
}

/// Partial evaluation makes the constant null of a coalesce of two constant
/// nulls.
pub proof fn coalesce_of_nulls_collapses(known: Bound)
    ensures
        coalesce_of(
            ExprView::Const(ValueView::Null),
            ExprView::Const(ValueView::Null),
        ).partial_eval(known) == Ok::<ExprView, EvalErrorView>(ExprView::Const(ValueView::Null)),
{
    let null = ExprView::Const(ValueView::Null);
    lemma_coalesce_of_partial_eval(null, null, known);
    lemma_collect_coalesce_two(Ok(null), Ok(null));
    assert(spliced(null) + spliced(null) =~= Seq::<ExprView>::empty());
}

/// Partial evaluation makes of a coalesce of the constant null and of `x`
/// what it makes of `x` alone.
///
/// This is stated for every `x` but one that partial evaluation turns into a
/// coalesce of fewer than two arguments. Such a coalesce is never built by a
/// simplification; it can only be the default of a switch, which is taken as
/// it stands.
pub proof fn coalesce_with_null_is_identity(x: ExprView, known: Bound)
    requires
        x.partial_eval(known) matches Ok(ExprView::Apply(Op::Coalesce, inner)) ==> inner.len()
            >= 2,
    ensures
        coalesce_of(ExprView::Const(ValueView::Null), x).partial_eval(known) == x.partial_eval(
            known,
        ),
{
    let null = ExprView::Const(ValueView::Null);
    lemma_coalesce_of_partial_eval(null, x, known);
    lemma_collect_coalesce_two(Ok(null), x.partial_eval(known));
    if x.partial_eval(known) is Ok {
        let simple = x.partial_eval(known)->Ok_0;
        assert(spliced(null) + spliced(simple) =~= spliced(simple));
    }
}

/// Partial evaluation makes of a coalesce of the constant null and of `x`
/// what it makes of `x` alone, when the default of every switch in `x` is
/// settled.
pub proof fn coalesce_with_null_is_identity_over_settled_defaults(x: ExprView, known: Bound)
    requires
        x.well_formed(),
        x.defaults_settled(known),
    ensures
        coalesce_of(ExprView::Const(ValueView::Null), x).partial_eval(known) == x.partial_eval(
            known,
        ),
{
    if x.partial_eval(known) is Ok {
        partial_eval_settles(x, known);
    }
    coalesce_with_null_is_identity(x, known);
}

/// Whether the arguments `stay` that are left of an inner coalesce come back
/// when the expression that stands for it is taken apart again, before the
/// arguments `after`.
///
/// They do but for a single argument that is itself the constant null or a
/// coalesce. Such an argument is never built by a simplification; it can only
/// come out of the default of a switch, which is taken as it stands. And even
/// then nothing is lost when no argument follows and the argument is the
/// constant null or a coalesce of two arguments or more.
pub open spec fn splices_back(stay: Seq<ExprView>, after: Seq<ExprView>) -> bool {
    stay.len() == 1 ==> {
        ||| spliced(stay[0]) == seq![stay[0]]
        ||| after.len() == 0 && stay[0] == ExprView::Const(ValueView::Null)
        ||| after.len() == 0 && (stay[0] matches ExprView::Apply(Op::Coalesce, inner)
            && inner.len() >= 2)
    }
}

/// Partial evaluation flattens a coalesce inside a coalesce: it makes of
/// `(a ~~ b) ~~ c` what it makes of the one coalesce of `a`, `b` and `c`.
///
/// This is stated for every `a`, `b` and `c` but those for which what is left
/// of `a ~~ b` does not come back when it is taken apart again (see
/// [`splices_back`]).
pub proof fn coalesce_flattens(a: ExprView, b: ExprView, c: ExprView, known: Bound)
    requires
        collect_coalesce(seq![a.partial_eval(known), b.partial_eval(known)]) matches Ok(stay)
            ==> (c.partial_eval(known) matches Ok(last) ==> splices_back(stay, spliced(last))),
    ensures
        coalesce_of(coalesce_of(a, b), c).partial_eval(known) == ExprView::Apply(
            Op::Coalesce,
            seq![a, b, c],
        ).partial_eval(known),
{
    let pa = a.partial_eval(known);
    let pb = b.partial_eval(known);
    let pc = c.partial_eval(known);
    let inner = coalesce_of(a, b);
    lemma_coalesce_of_partial_eval(a, b, known);
    lemma_coalesce_of_partial_eval(inner, c, known);
    lemma_collect_coalesce_two(inner.partial_eval(known), pc);
    assert(partial_evals(seq![a, b, c], known) =~= seq![pa, pb] + seq![pc]);
    lemma_collect_coalesce_concat(seq![pa, pb], seq![pc]);
    let last = seq![pc];
    assert(collect_coalesce(last) == match pc {
        Err(e) => Err::<Seq<ExprView>, EvalErrorView>(e),
        Ok(r) => Ok(spliced(r)),
    }) by {
        assert(last[0] == pc);
        assert(last.drop_first() =~= Seq::<Simplified>::empty());
        assert(collect_coalesce(last.drop_first()) == Ok::<Seq<ExprView>, EvalErrorView>(
            Seq::empty(),
        ));
        if pc is Ok {
            assert(spliced(pc->Ok_0) + Seq::<ExprView>::empty() =~= spliced(pc->Ok_0));
        }
    }
    if collect_coalesce(seq![pa, pb]) is Ok && pc is Ok {
        let stay = collect_coalesce(seq![pa, pb])->Ok_0;
        let after = spliced(pc->Ok_0);
        if stay.len() == 1 && spliced(stay[0]) != seq![stay[0]] {
            assert(after =~= Seq::<ExprView>::empty());
            assert(stay + after =~= stay);
            assert(spliced(rebuild_coalesce(stay)) + after =~= spliced(rebuild_coalesce(stay)));
        } else {
            assert(spliced(rebuild_coalesce(stay)) =~= stay);
        }
    }
}

/// Partial evaluation flattens a coalesce inside a coalesce, whatever `c` is,
/// when the default of every switch in `a` and in `b` is settled.
pub proof fn coalesce_flattens_over_settled_defaults(
    a: ExprView,
    b: ExprView,
    c: ExprView,
    known: Bound,
)
    requires
        a.well_formed(),
        b.well_formed(),
        a.defaults_settled(known),
        b.defaults_settled(known),
    ensures
        coalesce_of(coalesce_of(a, b), c).partial_eval(known) == ExprView::Apply(
            Op::Coalesce,
            seq![a, b, c],
        ).partial_eval(known),
{
    let made = seq![a.partial_eval(known), b.partial_eval(known)];
    if collect_coalesce(made) is Ok {
        lemma_collect_coalesce_two(made[0], made[1]);
        partial_eval_settles(a, known);
        partial_eval_settles(b, known);
        lemma_collect_coalesce_settled(made, known);
        let stay = collect_coalesce(made)->Ok_0;
        if stay.len() == 1 {
            assert(spliced(stay[0]) == seq![stay[0]]);
        }
    }
    coalesce_flattens(a, b, c, known);
}

/// What partial evaluation makes of `(a ~~ b) ~~ c` evaluates as the one
/// coalesce of `a`, `b` and `c`, against every row against which what it
/// makes of each of `a`, `b` and `c` evaluates as that expression does.
/// Flattening itself changes no outcome.
pub proof fn coalesce_flattening_preserves_row_eval(
    a: ExprView,
    b: ExprView,
    c: ExprView,
    known: Bound,
    row: Bound,
)
    requires
        coalesce_of(coalesce_of(a, b), c).partial_eval(known) is Ok,
        a.partial_eval(known) matches Ok(x) ==> x.row_eval(row) == a.row_eval(row),
        b.partial_eval(known) matches Ok(x) ==> x.row_eval(row) == b.row_eval(row),
        c.partial_eval(known) matches Ok(x) ==> x.row_eval(row) == c.row_eval(row),
    ensures
        coalesce_of(coalesce_of(a, b), c).partial_eval(known)->Ok_0.row_eval(row)
            == ExprView::Apply(Op::Coalesce, seq![a, b, c]).row_eval(row),
{
    let inner = coalesce_of(a, b);
    lemma_coalesce_of_partial_eval(a, b, known);
    lemma_coalesce_of_partial_eval(inner, c, known);
    lemma_collect_coalesce_two(inner.partial_eval(known), c.partial_eval(known));
    assert(partial_evals(seq![a, b], known) =~= seq![a.partial_eval(known), b.partial_eval(known)]);
    assert(row_outcomes(seq![a, b], row) =~= seq![a.row_eval(row), b.row_eval(row)]);
    lemma_apply_preserved(Op::Coalesce, seq![a, b], known, row);
    assert(partial_evals(seq![inner, c], known) =~= seq![
        inner.partial_eval(known),
        c.partial_eval(known),
    ]);
    assert(row_outcomes(seq![inner, c], row) =~= seq![inner.row_eval(row), c.row_eval(row)]);
    lemma_apply_preserved(Op::Coalesce, seq![inner, c], known, row);
    coalesce_is_associative(a, b, c, row);
}

/// A conditional on the constant null evaluates to null, whatever its two
/// parts are.
pub proof fn if_null_row_eval(if_part: ExprView, else_part: ExprView, row: Bound)
    ensures
        if_of(ExprView::Const(ValueView::Null), if_part, else_part).row_eval(row) == Ok::<
            ValueView,
            EvalErrorView,
        >(ValueView::Null),
{
    assert(ExprView::Const(ValueView::Null).row_eval(row) == Ok::<ValueView, EvalErrorView>(
        ValueView::Null,
    ));
}

/// Partial evaluation makes the constant null of a conditional on the
/// constant null, whatever its two parts are: also where the simplification
/// of a part would fail.
pub proof fn if_null_partial_eval(if_part: ExprView, else_part: ExprView, known: Bound)
    ensures
        if_of(ExprView::Const(ValueView::Null), if_part, else_part).partial_eval(known) == Ok::<
            ExprView,
            EvalErrorView,
        >(ExprView::Const(ValueView::Null)),
{
    assert(ExprView::Const(ValueView::Null).partial_eval(known) == Ok::<ExprView, EvalErrorView>(
        ExprView::Const(ValueView::Null),
    ));
}

/// A conditional whose condition evaluates to a value that is neither a
/// boolean nor null fails with a type mismatch that names the conditional and
/// carries the value.
pub proof fn if_type_mismatch(
    cond: ExprView,
    if_part: ExprView,
    else_part: ExprView,
    row: Bound,
    v: ValueView,
)
    requires
        cond.row_eval(row) == Ok::<ValueView, EvalErrorView>(v),
        !(v is Null),
        !(v is Bool),
    ensures
        if_of(cond, if_part, else_part).row_eval(row) == Err::<ValueView, EvalErrorView>(
            EvalErrorView::OpTypeMismatch(if_name(), seq![v]),
        ),
{
}

/// With a constant subject, an arm whose candidate has become a different
/// constant is dropped: the switch is simplified as if the arm were not
/// there, whatever its result is.
pub proof fn switch_drops_dead_arm(
    subject: ExprView,
    default: ExprView,
    candidate: ExprView,
    result: Simplified,
    later: Seq<(Simplified, Simplified)>,
    kept: Seq<(ExprView, ExprView)>,
)
    requires
        subject is Const,
        candidate is Const,
        candidate != subject,
    ensures
        settle_arms(subject, default, seq![(Ok(candidate), result)] + later, kept) == settle_arms(
            subject,
            default,
            later,
            kept,
        ),
{
    let arms = seq![(Ok::<ExprView, EvalErrorView>(candidate), result)] + later;
    assert(arms.drop_first() =~= later);
}

/// With a constant subject, no arm is looked at after the first whose
/// candidate has become the same constant: the result of that arm becomes the
/// default, and the arms after it have no part in what the switch becomes.
pub proof fn switch_stops_at_match(
    subject: ExprView,
    default: ExprView,
    result: ExprView,
    later: Seq<(Simplified, Simplified)>,
    kept: Seq<(ExprView, ExprView)>,
)
    requires
        subject is Const,
    ensures
        settle_arms(subject, default, seq![(Ok(subject), Ok(result))] + later, kept) == Ok::<
            (ExprView, Seq<(ExprView, ExprView)>),
            EvalErrorView,
        >((result, kept)),
{
}

/// With a constant subject, every arm that stays has a candidate that is not
/// a constant.
pub proof fn switch_keeps_only_open_arms(
    subject: ExprView,
    default: ExprView,
    arms: Seq<(Simplified, Simplified)>,
    kept: Seq<(ExprView, ExprView)>,
)
    requires
        subject is Const,
        forall|j: int| 0 <= j < kept.len() ==> !((#[trigger] kept[j]).0 is Const),
    ensures
        settle_arms(subject, default, arms, kept) matches Ok((_, left)) ==> forall|j: int|
            0 <= j < left.len() ==> !((#[trigger] left[j]).0 is Const),
    decreases arms.len(),
{
    if arms.len() == 0 {
    } else if arms[0].0 is Ok {
        let candidate = arms[0].0->Ok_0;
        if candidate is Const {
            if candidate != subject {
                switch_keeps_only_open_arms(subject, default, arms.drop_first(), kept);
            }
        } else if arms[0].1 is Ok {
            switch_keeps_only_open_arms(
                subject,
                default,
                arms.drop_first(),
                kept.push((candidate, arms[0].1->Ok_0)),
            );
        }
    }
}

/// An application with a number of arguments other than the one that the
/// operator declares fails with an arity mismatch, in row evaluation and in
/// partial evaluation alike, whatever the arguments are: the rule of the
/// operator has no part in the result.
pub proof fn arity_is_enforced(op: Op, args: Seq<ExprView>, row: Bound, known: Bound)
    requires
        !op.accepts(args.len()),
    ensures
        ExprView::Apply(op, args).row_eval(row) == Err::<ValueView, EvalErrorView>(
            arity_mismatch(op, args.len()),
        ),
        ExprView::Apply(op, args).partial_eval(known) == Err::<ExprView, EvalErrorView>(
            arity_mismatch(op, args.len()),
        ),
{
    assert(row_outcomes(args, row).len() == args.len());
    assert(partial_evals(args, known).len() == args.len());
}

/// An application of an operator that has a side effect is never evaluated
/// ahead of time: with the right number of arguments, none of which fails to
/// simplify, it stays an application, over the simplified arguments, also
/// when all of them are constants.
pub proof fn side_effects_are_not_folded(op: Op, args: Seq<Simplified>)
    requires
        op.spec_has_side_effect(),
        op.accepts(args.len()),
        all_simplified(args) is Ok,
    ensures
        simplify_apply(op, args) == Ok::<ExprView, EvalErrorView>(
            ExprView::Apply(op, all_simplified(args)->Ok_0),
        ),
{
}

/// An application of an operator without a side effect to arguments that have
/// all become constants is evaluated ahead of time: its value takes its
/// place, and its failure is reported at once.
pub proof fn constant_applications_are_folded(op: Op, args: Seq<Simplified>)
    requires
        !op.spec_has_side_effect(),
        op.accepts(args.len()),
        all_simplified(args) is Ok,
        all_const(all_simplified(args)->Ok_0),
    ensures
        simplify_apply(op, args) == match apply_args(
            op,
            const_outcomes(all_simplified(args)->Ok_0),
            Seq::empty(),
        ) {
            Ok(v) => Ok::<ExprView, EvalErrorView>(ExprView::Const(v)),
            Err(e) => Err(e),
        },
{
}

/// A coalesce of two expressions evaluates as the coalesce of their outcomes.
pub proof fn lemma_coalesce_of_row_eval(left: ExprView, right: ExprView, row: Bound)
    ensures
        coalesce_of(left, right).row_eval(row) == coalesce_outcome(
            left.row_eval(row),
            right.row_eval(row),
        ),
{
    let outcomes = row_outcomes(seq![left, right], row);
    assert(outcomes[0] == left.row_eval(row));
    assert(outcomes[1] == right.row_eval(row));
    lemma_coalesce_two(outcomes);
}

/// What partial evaluation makes of a coalesce of two expressions.
pub proof fn lemma_coalesce_of_partial_eval(left: ExprView, right: ExprView, known: Bound)
    ensures
        coalesce_of(left, right).partial_eval(known) == simplify_coalesce(
            seq![left.partial_eval(known), right.partial_eval(known)],
        ),
{
    assert(partial_evals(seq![left, right], known) =~= seq![
        left.partial_eval(known),
        right.partial_eval(known),
    ]);
}

/// The arguments that stay of a coalesce of two simplified arguments.
pub proof fn lemma_collect_coalesce_two(left: Simplified, right: Simplified)
    ensures
        collect_coalesce(seq![left, right]) == match left {
            Err(e) => Err(e),
            Ok(l) => match right {
                Err(e) => Err(e),
                Ok(r) => Ok(spliced(l) + spliced(r)),
            },
        },
{
    let both = seq![left, right];
    let last = seq![right];
    assert(both.drop_first() =~= last);
    assert(last.drop_first() =~= Seq::<Simplified>::empty());
    assert(collect_coalesce(last.drop_first()) == Ok::<Seq<ExprView>, EvalErrorView>(
        Seq::empty(),
    ));
    assert(collect_coalesce(last) == match right {
        Err(e) => Err::<Seq<ExprView>, EvalErrorView>(e),
        Ok(r) => Ok(spliced(r)),
    }) by {
        assert(last[0] == right);
        if right is Ok {
            assert(spliced(right->Ok_0) + Seq::<ExprView>::empty() =~= spliced(right->Ok_0));
        }
    }
    assert(both[0] == left);
}

/// The arguments that stay of two runs of simplified arguments are those that
/// stay of the first run and then those that stay of the second.
pub proof fn lemma_collect_coalesce_concat(a: Seq<Simplified>, b: Seq<Simplified>)
    ensures
        collect_coalesce(a + b) == match collect_coalesce(a) {
            Err(e) => Err(e),
            Ok(first) => match collect_coalesce(b) {
                Err(e) => Err(e),
                Ok(second) => Ok(first + second),
            },
        },
    decreases a.len(),
{
    if a.len() == 0 {
        assert(a + b =~= b);
        if collect_coalesce(b) is Ok {
            assert(Seq::<ExprView>::empty() + collect_coalesce(b)->Ok_0 =~= collect_coalesce(
                b,
            )->Ok_0);
        }
    } else {
        assert((a + b).drop_first() =~= a.drop_first() + b);
        assert((a + b)[0] == a[0]);
        lemma_collect_coalesce_concat(a.drop_first(), b);
        if a[0] is Ok && collect_coalesce(a.drop_first()) is Ok && collect_coalesce(b) is Ok {
            let head = spliced(a[0]->Ok_0);
            let first = collect_coalesce(a.drop_first())->Ok_0;
            let second = collect_coalesce(b)->Ok_0;
            assert(head + (first + second) =~= (head + first) + second);
        }
    }
}

} // verus!
