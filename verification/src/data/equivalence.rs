//! What partial evaluation keeps: an expression stays well formed, and it
//! evaluates to what it did.

use vstd::prelude::*;
use crate::data::eval::{Bound, EvalErrorView, Outcome};
use crate::data::expr::{
    all_const, all_simplified, apply_args, const_outcomes, partial_evals, partial_pair_evals,
    row_outcomes, row_pair_outcomes, ExprView, Simplified,
};
use crate::data::op::Op;
use crate::data::op::control::{
    coalesce_outcome, coalesce_outcomes, collect_coalesce, first_match, rebuild_coalesce,
    settle_arms, spliced,
};
use crate::data::value::ValueView;

verus! {

impl ExprView {
    /// Every switch in the tree has at least one arm besides its first pair.
    pub open spec fn switches_have_arms(self) -> bool
        decreases self,
    {
        match self {
            ExprView::Const(_) => true,
            ExprView::Variable(_) => true,
            ExprView::Apply(_, args) => forall|i: int|
                0 <= i < args.len() ==> (#[trigger] args[i]).switches_have_arms(),
            ExprView::IfExpr(cond, if_part, else_part) => cond.switches_have_arms()
                && if_part.switches_have_arms() && else_part.switches_have_arms(),
            ExprView::SwitchExpr(pairs) => pairs.len() != 1 && forall|i: int|
                0 <= i < pairs.len() ==> (#[trigger] pairs[i]).0.switches_have_arms()
                    && pairs[i].1.switches_have_arms(),
        }
    }

    /// Every switch in the tree that has no arm has a subject that evaluates
    /// to a value against `row`.
    pub open spec fn bare_subjects_evaluate(self, row: Bound) -> bool
        decreases self,
    {
        match self {
            ExprView::Const(_) => true,
            ExprView::Variable(_) => true,
            ExprView::Apply(_, args) => forall|i: int|
                0 <= i < args.len() ==> (#[trigger] args[i]).bare_subjects_evaluate(row),
            ExprView::IfExpr(cond, if_part, else_part) => cond.bare_subjects_evaluate(row)
                && if_part.bare_subjects_evaluate(row) && else_part.bare_subjects_evaluate(row),
            ExprView::SwitchExpr(pairs) => (pairs.len() == 1 ==> pairs[0].0.row_eval(row) is Ok)
                && forall|i: int|
                0 <= i < pairs.len() ==> (#[trigger] pairs[i]).0.bare_subjects_evaluate(row)
                    && pairs[i].1.bare_subjects_evaluate(row),
        }
    }
}

/// Partial evaluation makes a well-formed expression of a well-formed
/// expression: what it gives can be evaluated against a row, or simplified
/// again.
pub proof fn partial_eval_keeps_well_formed(e: ExprView, known: Bound)
    requires
        e.well_formed(),
        e.partial_eval(known) is Ok,
    ensures
        e.partial_eval(known)->Ok_0.well_formed(),
    decreases e,
{
    match e {
        ExprView::Const(_) => {},
        ExprView::Variable(name) => {},
        ExprView::Apply(op, args) => {
            let made = partial_evals(args, known);
            assert forall|i: int| 0 <= i < made.len() implies ((#[trigger] made[i]) matches Ok(x)
                ==> x.well_formed()) by {
                if made[i] is Ok {
                    partial_eval_keeps_well_formed(args[i], known);
                }
            }
            if op == Op::Coalesce {
                lemma_collect_coalesce_well_formed(made);
            } else {
                assert(all_simplified(made) is Ok);
                lemma_all_simplified_elements(made);
                let exprs = all_simplified(made)->Ok_0;
                assert forall|i: int| 0 <= i < exprs.len() implies
                    (#[trigger] exprs[i]).well_formed() by {
                    assert(made[i] == Ok::<ExprView, EvalErrorView>(exprs[i]));
                }
            }
        },
        ExprView::IfExpr(cond, if_part, else_part) => {
            partial_eval_keeps_well_formed(*cond, known);
            if if_part.partial_eval(known) is Ok {
                partial_eval_keeps_well_formed(*if_part, known);
            }
            if else_part.partial_eval(known) is Ok {
                partial_eval_keeps_well_formed(*else_part, known);
            }
        },
        ExprView::SwitchExpr(pairs) => {
            let made = partial_pair_evals(pairs, known);
            let subject = made[0].0->Ok_0;
            let arms = made.drop_first();
            partial_eval_keeps_well_formed(pairs[0].0, known);
            assert(pairs[0].1.well_formed());
            assert forall|j: int| 0 <= j < arms.len() implies ((#[trigger] arms[j]).0 matches Ok(
                c,
            ) ==> c.well_formed()) by {
                assert(arms[j] == made[j + 1]);
                assert(pairs[j + 1].0.well_formed());
                if arms[j].0 is Ok {
                    partial_eval_keeps_well_formed(pairs[j + 1].0, known);
                }
            }
            assert forall|j: int| 0 <= j < arms.len() implies ((#[trigger] arms[j]).1 matches Ok(
                t,
            ) ==> t.well_formed()) by {
                assert(arms[j] == made[j + 1]);
                assert(pairs[j + 1].1.well_formed());
                if arms[j].1 is Ok {
                    partial_eval_keeps_well_formed(pairs[j + 1].1, known);
                }
            }
            lemma_settle_arms_well_formed(subject, pairs[0].1, arms, Seq::empty());
            let (last_default, left) = settle_arms(subject, pairs[0].1, arms, Seq::empty())->Ok_0;
            if left.len() > 0 {
                let rebuilt = seq![(subject, last_default)] + left;
                assert forall|j: int| 0 <= j < rebuilt.len() implies (
                #[trigger] rebuilt[j]).0.well_formed() && rebuilt[j].1.well_formed() by {
                    if j > 0 {
                        assert(rebuilt[j] == left[j - 1]);
                    }
                }
            }
        },
    }
}

/// Partial evaluation does not change what an expression evaluates to.
///
/// Let partial evaluation make `e` into another expression, knowing the
/// variables of `known`. Against every row that binds those variables to the
/// values that `known` gives them, the two evaluate to the same outcome: the
/// same value, or the same failure.
///
/// This is stated for rows against which the subject of every switch without
/// arms evaluates to a value; there is no such switch where every switch has
/// an arm. A switch without arms is made into its default, and with that its
/// subject is lost, and so is the failure of a subject that fails.
pub proof fn partial_eval_preserves_row_eval(e: ExprView, known: Bound, row: Bound)
    requires
        e.bare_subjects_evaluate(row),
        known.submap_of(row),
        e.partial_eval(known) is Ok,
    ensures
        e.partial_eval(known)->Ok_0.row_eval(row) == e.row_eval(row),
    decreases e,
{
    match e {
        ExprView::Const(v) => {
            assert(ExprView::Const(v).row_eval(row) == Ok::<ValueView, EvalErrorView>(v));
        },
        ExprView::Variable(name) => {
            if known.contains_key(name) {
                assert(row.contains_key(name) && row[name] == known[name]);
                assert(ExprView::Const(known[name]).row_eval(row) == Ok::<
                    ValueView,
                    EvalErrorView,
                >(known[name]));
            }
        },
        ExprView::Apply(op, args) => {
            assert forall|i: int| 0 <= i < args.len() implies ((#[trigger] partial_evals(
                args,
                known,
            )[i]) matches Ok(x) ==> x.row_eval(row) == row_outcomes(args, row)[i]) by {
                if partial_evals(args, known)[i] is Ok {
                    partial_eval_preserves_row_eval(args[i], known, row);
                }
            }
            lemma_apply_preserved(op, args, known, row);
        },
        ExprView::IfExpr(cond, if_part, else_part) => {
            if cond.partial_eval(known) is Ok {
                partial_eval_preserves_row_eval(*cond, known, row);
            }
            if if_part.partial_eval(known) is Ok {
                partial_eval_preserves_row_eval(*if_part, known, row);
            }
            if else_part.partial_eval(known) is Ok {
                partial_eval_preserves_row_eval(*else_part, known, row);
            }
            lemma_if_preserved(*cond, *if_part, *else_part, known, row);
        },
        ExprView::SwitchExpr(pairs) => {
            assert forall|j: int| 0 <= j < pairs.len() implies ((#[trigger] partial_pair_evals(
                pairs,
                known,
            )[j]).0 matches Ok(c) ==> c.row_eval(row) == row_pair_outcomes(pairs, row)[j].0) by {
                if partial_pair_evals(pairs, known)[j].0 is Ok {
                    partial_eval_preserves_row_eval(pairs[j].0, known, row);
                }
            }
            assert forall|j: int| 1 <= j < pairs.len() implies ((#[trigger] partial_pair_evals(
                pairs,
                known,
            )[j]).1 matches Ok(t) ==> t.row_eval(row) == row_pair_outcomes(pairs, row)[j].1) by {
                if partial_pair_evals(pairs, known)[j].1 is Ok {
                    partial_eval_preserves_row_eval(pairs[j].1, known, row);
                }
            }
            if pairs.len() >= 1 {
                lemma_switch_preserved(pairs, known, row);
            }
        },
    }
}

/// Partial evaluation does not change what an expression evaluates to, against
/// any row that agrees with what was known, when every switch in the
/// expression has an arm.
pub proof fn partial_eval_preserves_row_eval_with_arms(e: ExprView, known: Bound, row: Bound)
    requires
        e.switches_have_arms(),
        known.submap_of(row),
        e.partial_eval(known) is Ok,
    ensures
        e.partial_eval(known)->Ok_0.row_eval(row) == e.row_eval(row),
{
    arms_rule_out_bare_subjects(e, row);
    partial_eval_preserves_row_eval(e, known, row);
}

/// Where every switch has an arm, there is no switch without arms whose
/// subject could fail.
pub proof fn arms_rule_out_bare_subjects(e: ExprView, row: Bound)
    requires
        e.switches_have_arms(),
    ensures
        e.bare_subjects_evaluate(row),
    decreases e,
{
    match e {
        ExprView::Const(_) => {},
        ExprView::Variable(_) => {},
        ExprView::Apply(_, args) => {
            assert forall|i: int| 0 <= i < args.len() implies (
            #[trigger] args[i]).bare_subjects_evaluate(row) by {
                arms_rule_out_bare_subjects(args[i], row);
            }
        },
        ExprView::IfExpr(cond, if_part, else_part) => {
            arms_rule_out_bare_subjects(*cond, row);
            arms_rule_out_bare_subjects(*if_part, row);
            arms_rule_out_bare_subjects(*else_part, row);
        },
        ExprView::SwitchExpr(pairs) => {
            assert forall|i: int| 0 <= i < pairs.len() implies (
            #[trigger] pairs[i]).0.bare_subjects_evaluate(row)
                && pairs[i].1.bare_subjects_evaluate(row) by {
                arms_rule_out_bare_subjects(pairs[i].0, row);
                arms_rule_out_bare_subjects(pairs[i].1, row);
            }
        },
    }
}

/// An application that partial evaluation has worked on evaluates as before,
/// when what it has made of each argument evaluates as the argument did.
pub proof fn lemma_apply_preserved(op: Op, args: Seq<ExprView>, known: Bound, row: Bound)
    requires
        ExprView::Apply(op, args).partial_eval(known) is Ok,
        forall|i: int|
            0 <= i < args.len() ==> ((#[trigger] partial_evals(args, known)[i]) matches Ok(x)
                ==> x.row_eval(row) == row_outcomes(args, row)[i]),
    ensures
        ExprView::Apply(op, args).partial_eval(known)->Ok_0.row_eval(row) == ExprView::Apply(
            op,
            args,
        ).row_eval(row),
{
    let made = partial_evals(args, known);
    let outcomes = row_outcomes(args, row);
    if op == Op::Coalesce {
        lemma_collect_coalesce_row_eval(made, outcomes, row);
        lemma_rebuild_coalesce_row_eval(collect_coalesce(made)->Ok_0, row);
    } else {
        lemma_all_simplified_elements(made);
        let exprs = all_simplified(made)->Ok_0;
        assert forall|i: int| 0 <= i < exprs.len() implies exprs[i].row_eval(row)
            == outcomes[i] by {
            assert(made[i] == Ok::<ExprView, EvalErrorView>(exprs[i]));
        }
        assert(row_outcomes(exprs, row) =~= outcomes);
        if !op.spec_has_side_effect() && all_const(exprs) {
            assert(const_outcomes(exprs) =~= outcomes) by {
                assert forall|i: int| 0 <= i < exprs.len() implies const_outcomes(exprs)[i]
                    == outcomes[i] by {
                    assert(exprs[i] is Const);
                    assert(exprs[i].row_eval(row) == outcomes[i]);
                }
            }
            let folded = apply_args(op, const_outcomes(exprs), Seq::empty());
            assert(ExprView::Const(folded->Ok_0).row_eval(row) == folded);
        }
    }
}

/// A conditional that partial evaluation has worked on evaluates as before,
/// when what it has made of each part evaluates as the part did.
pub proof fn lemma_if_preserved(
    cond: ExprView,
    if_part: ExprView,
    else_part: ExprView,
    known: Bound,
    row: Bound,
)
    requires
        ExprView::IfExpr(Box::new(cond), Box::new(if_part), Box::new(else_part)).partial_eval(
            known,
        ) is Ok,
        cond.partial_eval(known) matches Ok(c) ==> c.row_eval(row) == cond.row_eval(row),
        if_part.partial_eval(known) matches Ok(t) ==> t.row_eval(row) == if_part.row_eval(row),
        else_part.partial_eval(known) matches Ok(f) ==> f.row_eval(row) == else_part.row_eval(
            row,
        ),
    ensures
        ExprView::IfExpr(Box::new(cond), Box::new(if_part), Box::new(else_part)).partial_eval(
            known,
        )->Ok_0.row_eval(row) == ExprView::IfExpr(
            Box::new(cond),
            Box::new(if_part),
            Box::new(else_part),
        ).row_eval(row),
{
    let c = cond.partial_eval(known)->Ok_0;
    match c {
        ExprView::Const(ValueView::Null) => {
            assert(c.row_eval(row) == Ok::<ValueView, EvalErrorView>(ValueView::Null));
        },
        ExprView::Const(ValueView::Bool(b)) => {
            assert(c.row_eval(row) == Ok::<ValueView, EvalErrorView>(ValueView::Bool(b)));
        },
        _ => {},
    }
}

/// A switch that partial evaluation has worked on evaluates as before, when
/// what it has made of the subject, of each candidate and of each result
/// evaluates as these did, and the switch has an arm or a subject that
/// evaluates to a value.
pub proof fn lemma_switch_preserved(pairs: Seq<(ExprView, ExprView)>, known: Bound, row: Bound)
    requires
        pairs.len() >= 1,
        pairs.len() == 1 ==> row_pair_outcomes(pairs, row)[0].0 is Ok,
        ExprView::SwitchExpr(pairs).partial_eval(known) is Ok,
        forall|j: int|
            0 <= j < pairs.len() ==> ((#[trigger] partial_pair_evals(pairs, known)[j]).0 matches Ok(
                c,
            ) ==> c.row_eval(row) == row_pair_outcomes(pairs, row)[j].0),
        forall|j: int|
            1 <= j < pairs.len() ==> ((#[trigger] partial_pair_evals(pairs, known)[j]).1 matches Ok(
                t,
            ) ==> t.row_eval(row) == row_pair_outcomes(pairs, row)[j].1),
    ensures
        ExprView::SwitchExpr(pairs).partial_eval(known)->Ok_0.row_eval(row)
            == ExprView::SwitchExpr(pairs).row_eval(row),
{
    let made = partial_pair_evals(pairs, known);
    let outcomes = row_pair_outcomes(pairs, row);
    let subject = made[0].0->Ok_0;
    let default = pairs[0].1;
    let arms = made.drop_first();
    assert(subject.row_eval(row) == outcomes[0].0);
    assert(default.row_eval(row) == outcomes[0].1);
    assert forall|j: int| 0 <= j < arms.len() implies ((#[trigger] arms[j]).0 matches Ok(c)
        ==> c.row_eval(row) == outcomes.drop_first()[j].0) by {
        assert(arms[j] == made[j + 1]);
    }
    assert forall|j: int| 0 <= j < arms.len() implies ((#[trigger] arms[j]).1 matches Ok(t)
        ==> t.row_eval(row) == outcomes.drop_first()[j].1) by {
        assert(arms[j] == made[j + 1]);
    }
    let (last_default, left) = settle_arms(subject, default, arms, Seq::empty())->Ok_0;
    let left_outcomes = row_pair_outcomes(left, row);
    if left.len() > 0 {
        let rebuilt = seq![(subject, last_default)] + left;
        assert(row_pair_outcomes(rebuilt, row).drop_first() =~= left_outcomes);
        assert(row_pair_outcomes(rebuilt, row)[0] == (
            subject.row_eval(row),
            last_default.row_eval(row),
        ));
    }
    match subject.row_eval(row) {
        Err(_) => {
            lemma_settle_arms_keeps_all(subject, default, arms, Seq::empty());
        },
        Ok(value) => {
            lemma_settle_arms_row_eval(
                subject,
                default,
                arms,
                Seq::empty(),
                outcomes.drop_first(),
                row,
                value,
            );
            assert(row_pair_outcomes(Seq::<(ExprView, ExprView)>::empty(), row)
                + outcomes.drop_first() =~= outcomes.drop_first());
            assert(left.len() == 0 ==> left_outcomes.len() == 0);
        },
    }
}

/// Where every one of `args` is an expression, `all_simplified` gives them in
/// order.
pub proof fn lemma_all_simplified_elements(args: Seq<Simplified>)
    requires
        all_simplified(args) is Ok,
    ensures
        all_simplified(args)->Ok_0.len() == args.len(),
        forall|i: int|
            0 <= i < args.len() ==> #[trigger] args[i] == Ok::<ExprView, EvalErrorView>(
                all_simplified(args)->Ok_0[i],
            ),
    decreases args.len(),
{
    if args.len() > 0 {
        lemma_all_simplified_elements(args.drop_first());
        let rest = all_simplified(args.drop_first())->Ok_0;
        let all = all_simplified(args)->Ok_0;
        assert(all == seq![args[0]->Ok_0] + rest);
        assert forall|i: int| 0 <= i < args.len() implies #[trigger] args[i] == Ok::<
            ExprView,
            EvalErrorView,
        >(all[i]) by {
            if i > 0 {
                assert(args[i] == args.drop_first()[i - 1]);
            }
        }
    }
}

/// A coalesce over two runs of outcomes is the coalesce of what each run
/// comes to.
pub proof fn lemma_coalesce_outcomes_concat(a: Seq<Outcome>, b: Seq<Outcome>)
    ensures
        coalesce_outcomes(a + b) == coalesce_outcome(coalesce_outcomes(a), coalesce_outcomes(b)),
    decreases a.len(),
{
    if a.len() == 0 {
        assert(a + b =~= b);
    } else {
        assert((a + b).drop_first() =~= a.drop_first() + b);
        lemma_coalesce_outcomes_concat(a.drop_first(), b);
    }
}

/// What the arguments that a simplified argument adds to a coalesce come to
/// is what the argument itself comes to.
pub proof fn lemma_spliced_row_eval(x: ExprView, row: Bound)
    ensures
        coalesce_outcomes(row_outcomes(spliced(x), row)) == coalesce_outcome(
            x.row_eval(row),
            Ok(ValueView::Null),
        ),
{
    let added = row_outcomes(spliced(x), row);
    match x {
        ExprView::Const(ValueView::Null) => {
            assert(added.len() == 0);
            assert(x.row_eval(row) == Ok::<ValueView, EvalErrorView>(ValueView::Null));
        },
        ExprView::Apply(Op::Coalesce, inner) => {
            assert(x.row_eval(row) == coalesce_outcomes(row_outcomes(inner, row)));
        },
        _ => {
            assert(spliced(x) == seq![x]);
            assert(added.len() == 1);
            assert(added[0] == x.row_eval(row));
            assert(added.drop_first().len() == 0);
            assert(coalesce_outcomes(added.drop_first()) == Ok::<ValueView, EvalErrorView>(
                ValueView::Null,
            ));
        },
    }
}

/// The arguments that stay of a coalesce come to what the arguments came to
/// before they were simplified, when each simplified argument comes to what
/// the argument did.
pub proof fn lemma_collect_coalesce_row_eval(
    args: Seq<Simplified>,
    outcomes: Seq<Outcome>,
    row: Bound,
)
    requires
        args.len() == outcomes.len(),
        collect_coalesce(args) is Ok,
        forall|i: int|
            0 <= i < args.len() ==> ((#[trigger] args[i]) matches Ok(x) ==> x.row_eval(row)
                == outcomes[i]),
    ensures
        coalesce_outcomes(row_outcomes(collect_coalesce(args)->Ok_0, row)) == coalesce_outcomes(
            outcomes,
        ),
    decreases args.len(),
{
    if args.len() == 0 {
        assert(row_outcomes(collect_coalesce(args)->Ok_0, row).len() == 0);
    } else {
        let x = args[0]->Ok_0;
        let rest = collect_coalesce(args.drop_first())->Ok_0;
        assert forall|i: int| 0 <= i < args.drop_first().len() implies ((
        #[trigger] args.drop_first()[i]) matches Ok(y) ==> y.row_eval(row)
            == outcomes.drop_first()[i]) by {
            assert(args.drop_first()[i] == args[i + 1]);
        }
        lemma_collect_coalesce_row_eval(args.drop_first(), outcomes.drop_first(), row);
        assert(row_outcomes(spliced(x) + rest, row) =~= row_outcomes(spliced(x), row)
            + row_outcomes(rest, row));
        lemma_coalesce_outcomes_concat(row_outcomes(spliced(x), row), row_outcomes(rest, row));
        lemma_spliced_row_eval(x, row);
        assert(x.row_eval(row) == outcomes[0]);
    }
}

/// The expression that stands for a coalesce of `collected` evaluates as a
/// coalesce of `collected`.
pub proof fn lemma_rebuild_coalesce_row_eval(collected: Seq<ExprView>, row: Bound)
    ensures
        rebuild_coalesce(collected).row_eval(row) == coalesce_outcomes(
            row_outcomes(collected, row),
        ),
{
    let outcomes = row_outcomes(collected, row);
    if collected.len() == 0 {
        assert(outcomes.len() == 0);
        assert(ExprView::Const(ValueView::Null).row_eval(row) == Ok::<ValueView, EvalErrorView>(
            ValueView::Null,
        ));
    } else if collected.len() == 1 {
        assert(outcomes.len() == 1);
        assert(outcomes[0] == collected[0].row_eval(row));
        assert(outcomes.drop_first().len() == 0);
        assert(coalesce_outcomes(outcomes.drop_first()) == Ok::<ValueView, EvalErrorView>(
            ValueView::Null,
        ));
    } else {
        assert(rebuild_coalesce(collected) == ExprView::Apply(Op::Coalesce, collected));
    }
}

/// A switch over two runs of arms is a switch over the first run whose
/// default is the switch over the second.
pub proof fn lemma_first_match_concat(
    subject: ValueView,
    a: Seq<(Outcome, Outcome)>,
    b: Seq<(Outcome, Outcome)>,
    default: Outcome,
)
    ensures
        first_match(subject, a + b, default) == first_match(
            subject,
            a,
            first_match(subject, b, default),
        ),
    decreases a.len(),
{
    if a.len() == 0 {
        assert(a + b =~= b);
    } else {
        assert((a + b).drop_first() =~= a.drop_first() + b);
        lemma_first_match_concat(subject, a.drop_first(), b, default);
    }
}

/// Where the subject is not a constant, every arm stays.
pub proof fn lemma_settle_arms_keeps_all(
    subject: ExprView,
    default: ExprView,
    arms: Seq<(Simplified, Simplified)>,
    kept: Seq<(ExprView, ExprView)>,
)
    requires
        !(subject is Const),
        settle_arms(subject, default, arms, kept) is Ok,
    ensures
        settle_arms(subject, default, arms, kept)->Ok_0.1.len() == kept.len() + arms.len(),
    decreases arms.len(),
{
    if arms.len() > 0 {
        lemma_settle_arms_keeps_all(
            subject,
            default,
            arms.drop_first(),
            kept.push((arms[0].0->Ok_0, arms[0].1->Ok_0)),
        );
    }
}

/// The default and the arms that are left of a switch choose the outcome that
/// the switch chose before it was simplified, when what was made of each
/// candidate and of each result comes to what these did.
pub proof fn lemma_settle_arms_row_eval(
    subject: ExprView,
    default: ExprView,
    arms: Seq<(Simplified, Simplified)>,
    kept: Seq<(ExprView, ExprView)>,
    outcomes: Seq<(Outcome, Outcome)>,
    row: Bound,
    value: ValueView,
)
    requires
        subject.row_eval(row) == Ok::<ValueView, EvalErrorView>(value),
        arms.len() == outcomes.len(),
        settle_arms(subject, default, arms, kept) is Ok,
        forall|j: int|
            0 <= j < arms.len() ==> ((#[trigger] arms[j]).0 matches Ok(c) ==> c.row_eval(row)
                == outcomes[j].0),
        forall|j: int|
            0 <= j < arms.len() ==> ((#[trigger] arms[j]).1 matches Ok(t) ==> t.row_eval(row)
                == outcomes[j].1),
    ensures
        ({
            let (last_default, left) = settle_arms(subject, default, arms, kept)->Ok_0;
            first_match(value, row_pair_outcomes(left, row), last_default.row_eval(row))
                == first_match(
                value,
                row_pair_outcomes(kept, row) + outcomes,
                default.row_eval(row),
            )
        }),
    decreases arms.len(),
{
    let before = row_pair_outcomes(kept, row);
    if arms.len() == 0 {
        assert(before + outcomes =~= before);
    } else {
        let candidate = arms[0].0->Ok_0;
        let later = arms.drop_first();
        let later_outcomes = outcomes.drop_first();
        assert(candidate.row_eval(row) == outcomes[0].0);
        assert forall|j: int| 0 <= j < later.len() implies ((#[trigger] later[j]).0 matches Ok(
            c,
        ) ==> c.row_eval(row) == later_outcomes[j].0) by {
            assert(later[j] == arms[j + 1]);
        }
        assert forall|j: int| 0 <= j < later.len() implies ((#[trigger] later[j]).1 matches Ok(
            t,
        ) ==> t.row_eval(row) == later_outcomes[j].1) by {
            assert(later[j] == arms[j + 1]);
        }
        assert(outcomes =~= seq![outcomes[0]] + later_outcomes);
        lemma_first_match_concat(value, before, outcomes, default.row_eval(row));
        if subject is Const && candidate is Const {
            if candidate == subject {
                let result = arms[0].1->Ok_0;
                assert(result.row_eval(row) == outcomes[0].1);
            } else {
                lemma_settle_arms_row_eval(
                    subject,
                    default,
                    later,
                    kept,
                    later_outcomes,
                    row,
                    value,
                );
                lemma_first_match_concat(value, before, later_outcomes, default.row_eval(row));
            }
        } else {
            let result = arms[0].1->Ok_0;
            assert(result.row_eval(row) == outcomes[0].1);
            lemma_settle_arms_row_eval(
                subject,
                default,
                later,
                kept.push((candidate, result)),
                later_outcomes,
                row,
                value,
            );
            assert(row_pair_outcomes(kept.push((candidate, result)), row) + later_outcomes
                =~= before + outcomes);
        }
    }
}

/// The arguments that stay of a coalesce are well formed when the simplified
/// arguments are.
proof fn lemma_collect_coalesce_well_formed(made: Seq<Simplified>)
    requires
        collect_coalesce(made) is Ok,
        forall|i: int|
            0 <= i < made.len() ==> ((#[trigger] made[i]) matches Ok(x) ==> x.well_formed()),
    ensures
        forall|i: int|
            0 <= i < collect_coalesce(made)->Ok_0.len() ==> (#[trigger] collect_coalesce(
                made,
            )->Ok_0[i]).well_formed(),
    decreases made.len(),
{
    if made.len() > 0 {
        let x = made[0]->Ok_0;
        let rest = collect_coalesce(made.drop_first())->Ok_0;
        assert forall|i: int| 0 <= i < made.drop_first().len() implies ((
        #[trigger] made.drop_first()[i]) matches Ok(y) ==> y.well_formed()) by {
            assert(made.drop_first()[i] == made[i + 1]);
        }
        lemma_collect_coalesce_well_formed(made.drop_first());
        assert(x.well_formed());
        let all = collect_coalesce(made)->Ok_0;
        assert(all == spliced(x) + rest);
        assert forall|i: int| 0 <= i < all.len() implies (#[trigger] all[i]).well_formed() by {
            if i < spliced(x).len() {
                assert(all[i] == spliced(x)[i]);
            } else {
                assert(all[i] == rest[i - spliced(x).len()]);
            }
        }
    }
}

/// The default and the arms that are left of a switch are well formed when
/// the default, the simplified arms and the arms kept so far are.
proof fn lemma_settle_arms_well_formed(
    subject: ExprView,
    default: ExprView,
    arms: Seq<(Simplified, Simplified)>,
    kept: Seq<(ExprView, ExprView)>,
)
    requires
        settle_arms(subject, default, arms, kept) is Ok,
        default.well_formed(),
        forall|j: int|
            0 <= j < kept.len() ==> (#[trigger] kept[j]).0.well_formed()
                && kept[j].1.well_formed(),
        forall|j: int|
            0 <= j < arms.len() ==> ((#[trigger] arms[j]).0 matches Ok(c) ==> c.well_formed()),
        forall|j: int|
            0 <= j < arms.len() ==> ((#[trigger] arms[j]).1 matches Ok(t) ==> t.well_formed()),
    ensures
        settle_arms(subject, default, arms, kept)->Ok_0.0.well_formed(),
        forall|j: int|
            0 <= j < settle_arms(subject, default, arms, kept)->Ok_0.1.len() ==> (
            #[trigger] settle_arms(subject, default, arms, kept)->Ok_0.1[j]).0.well_formed()
                && settle_arms(subject, default, arms, kept)->Ok_0.1[j].1.well_formed(),
    decreases arms.len(),
{
    if arms.len() > 0 {
        let candidate = arms[0].0->Ok_0;
        let later = arms.drop_first();
        assert forall|j: int| 0 <= j < later.len() implies ((#[trigger] later[j]).0 matches Ok(
            c,
        ) ==> c.well_formed()) by {
            assert(later[j] == arms[j + 1]);
        }
        assert forall|j: int| 0 <= j < later.len() implies ((#[trigger] later[j]).1 matches Ok(
            t,
        ) ==> t.well_formed()) by {
            assert(later[j] == arms[j + 1]);
        }
        if subject is Const && candidate is Const {
            if candidate != subject {
                lemma_settle_arms_well_formed(subject, default, later, kept);
            }
        } else {
            let result = arms[0].1->Ok_0;
            let more = kept.push((candidate, result));
            assert forall|j: int| 0 <= j < more.len() implies (#[trigger] more[j]).0.well_formed()
                && more[j].1.well_formed() by {
                if j < kept.len() {
                    assert(more[j] == kept[j]);
                }
            }
            lemma_settle_arms_well_formed(subject, default, later, more);
        }
    }
}

} // verus!
