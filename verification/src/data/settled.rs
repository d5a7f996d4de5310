//! Expressions in which partial evaluation finds nothing left to do.

use vstd::prelude::*;
use crate::data::equivalence::lemma_all_simplified_elements;
use crate::data::eval::{Bound, EvalErrorView};
use crate::data::expr::{
    all_const, all_simplified, partial_evals, partial_pair_evals, ExprView, Simplified,
};
use crate::data::op::Op;
use crate::data::op::control::{collect_coalesce, is_coalesce, settle_arms, spliced};
use crate::data::value::ValueView;

verus! {

impl ExprView {
    /// Nothing is left in the tree for partial evaluation to do when it knows
    /// the variables of `known`: no variable is known; no coalesce has fewer
    /// than two arguments, the constant null or another coalesce among them;
    /// no other application has the wrong number of arguments, or only
    /// constant ones unless its operator has a side effect; no condition is
    /// the constant null or a boolean constant; and no switch is without
    /// arms, or has an arm whose candidate is a constant while the subject is
    /// one. The default of a switch may be any expression.
    pub open spec fn is_settled(self, known: Bound) -> bool
        decreases self,
    {
        match self {
            ExprView::Const(_) => true,
            ExprView::Variable(name) => !known.contains_key(name),
            ExprView::Apply(op, args) => {
                &&& forall|i: int| 0 <= i < args.len() ==> (#[trigger] args[i]).is_settled(known)
                &&& if op == Op::Coalesce {
                    &&& args.len() >= 2
                    &&& forall|i: int|
                        0 <= i < args.len() ==> (#[trigger] args[i]) != ExprView::Const(
                            ValueView::Null,
                        ) && !is_coalesce(args[i])
                } else {
                    &&& op.accepts(args.len())
                    &&& op.spec_has_side_effect() || !all_const(args)
                }
            },
            ExprView::IfExpr(cond, if_part, else_part) => {
                &&& cond.is_settled(known)
                &&& if_part.is_settled(known)
                &&& else_part.is_settled(known)
                &&& *cond != ExprView::Const(ValueView::Null)
                &&& !(*cond matches ExprView::Const(ValueView::Bool(_)))
            },
            ExprView::SwitchExpr(pairs) => {
                &&& pairs.len() >= 2
                &&& pairs[0].0.is_settled(known)
                &&& forall|i: int|
                    1 <= i < pairs.len() ==> (#[trigger] pairs[i]).0.is_settled(known)
                        && pairs[i].1.is_settled(known) && !(pairs[0].0 is Const
                        && pairs[i].0 is Const)
            },
        }
    }

    /// The default of every switch in the tree is settled; the defaults of
    /// the switches inside a default are not looked at. Partial evaluation
    /// takes the default of a switch as it stands, so a default is as simple
    /// after it as it was before.
    pub open spec fn defaults_settled(self, known: Bound) -> bool
        decreases self,
    {
        match self {
            ExprView::Const(_) => true,
            ExprView::Variable(_) => true,
            ExprView::Apply(_, args) => forall|i: int|
                0 <= i < args.len() ==> (#[trigger] args[i]).defaults_settled(known),
            ExprView::IfExpr(cond, if_part, else_part) => cond.defaults_settled(known)
                && if_part.defaults_settled(known) && else_part.defaults_settled(known),
            ExprView::SwitchExpr(pairs) => {
                &&& pairs.len() > 0 ==> pairs[0].0.defaults_settled(known)
                    && pairs[0].1.is_settled(known)
                &&& forall|i: int|
                    1 <= i < pairs.len() ==> (#[trigger] pairs[i]).0.defaults_settled(known)
                        && pairs[i].1.defaults_settled(known)
            },
        }
    }
}

/// Partial evaluation leaves an expression as it is when nothing is left in
/// it to do. So partial evaluation of what it has fully simplified gives an
/// expression that evaluates as its input does: it is the input.
pub proof fn settled_is_unchanged(e: ExprView, known: Bound)
    requires
        e.is_settled(known),
    ensures
        e.partial_eval(known) == Ok::<ExprView, EvalErrorView>(e),
    decreases e,
{
    match e {
        ExprView::Const(_) => {},
        ExprView::Variable(_) => {},
        ExprView::Apply(op, args) => {
            let made = partial_evals(args, known);
            assert forall|i: int| 0 <= i < args.len() implies #[trigger] made[i] == Ok::<
                ExprView,
                EvalErrorView,
            >(args[i]) by {
                settled_is_unchanged(args[i], known);
            }
            if op == Op::Coalesce {
                lemma_collect_coalesce_of_plain(args, made);
            } else {
                lemma_all_simplified_of_unchanged(args, made);
            }
        },
        ExprView::IfExpr(cond, if_part, else_part) => {
            settled_is_unchanged(*cond, known);
            settled_is_unchanged(*if_part, known);
            settled_is_unchanged(*else_part, known);
        },
        ExprView::SwitchExpr(pairs) => {
            let made = partial_pair_evals(pairs, known);
            let arms = pairs.drop_first();
            settled_is_unchanged(pairs[0].0, known);
            assert forall|i: int| 0 <= i < arms.len() implies #[trigger] made.drop_first()[i] == (
                Ok::<ExprView, EvalErrorView>(arms[i].0),
                Ok::<ExprView, EvalErrorView>(arms[i].1),
            ) by {
                assert(arms[i] == pairs[i + 1]);
                assert(made.drop_first()[i] == made[i + 1]);
                settled_is_unchanged(pairs[i + 1].0, known);
                settled_is_unchanged(pairs[i + 1].1, known);
            }
            assert forall|i: int| 0 <= i < arms.len() implies !(pairs[0].0 is Const && (
            #[trigger] arms[i]).0 is Const) by {
                assert(arms[i] == pairs[i + 1]);
            }
            lemma_settle_arms_of_open(
                pairs[0].0,
                pairs[0].1,
                arms,
                made.drop_first(),
                Seq::empty(),
            );
            assert(Seq::<(ExprView, ExprView)>::empty() + arms =~= arms);
            assert(seq![(pairs[0].0, pairs[0].1)] + arms =~= pairs);
        },
    }
}

/// Partial evaluation leaves nothing to do: what it gives is settled. With
/// [`settled_is_unchanged`], simplifying a second time changes nothing.
///
/// This is stated for expressions in which the default of every switch is
/// settled. A switch that loses all its arms is made into its default as it
/// stands, and what is left to do in the default is then left to do in the
/// result.
pub proof fn partial_eval_settles(e: ExprView, known: Bound)
    requires
        e.well_formed(),
        e.defaults_settled(known),
        e.partial_eval(known) is Ok,
    ensures
        e.partial_eval(known)->Ok_0.is_settled(known),
        e.partial_eval(known)->Ok_0.partial_eval(known) == e.partial_eval(known),
    decreases e,
{
    match e {
        ExprView::Const(_) => {},
        ExprView::Variable(name) => {},
        ExprView::Apply(op, args) => {
            let made = partial_evals(args, known);
            assert forall|i: int| 0 <= i < made.len() implies ((#[trigger] made[i]) matches Ok(x)
                ==> x.is_settled(known)) by {
                if made[i] is Ok {
                    partial_eval_settles(args[i], known);
                }
            }
            if op == Op::Coalesce {
                lemma_collect_coalesce_settled(made, known);
            } else {
                lemma_all_simplified_elements(made);
                let exprs = all_simplified(made)->Ok_0;
                assert forall|i: int| 0 <= i < exprs.len() implies (#[trigger] exprs[i]).is_settled(
                    known,
                ) by {
                    assert(made[i] == Ok::<ExprView, EvalErrorView>(exprs[i]));
                }
            }
        },
        ExprView::IfExpr(cond, if_part, else_part) => {
            partial_eval_settles(*cond, known);
            if if_part.partial_eval(known) is Ok {
                partial_eval_settles(*if_part, known);
            }
            if else_part.partial_eval(known) is Ok {
                partial_eval_settles(*else_part, known);
            }
        },
        ExprView::SwitchExpr(pairs) => {
            let made = partial_pair_evals(pairs, known);
            let subject = made[0].0->Ok_0;
            let arms = made.drop_first();
            partial_eval_settles(pairs[0].0, known);
            assert forall|j: int| 0 <= j < arms.len() implies ((#[trigger] arms[j]).0 matches Ok(
                c,
            ) ==> c.is_settled(known)) by {
                assert(arms[j] == made[j + 1]);
                assert(pairs[j + 1].0.defaults_settled(known));
                assert(pairs[j + 1].0.well_formed());
                if arms[j].0 is Ok {
                    partial_eval_settles(pairs[j + 1].0, known);
                }
            }
            assert forall|j: int| 0 <= j < arms.len() implies ((#[trigger] arms[j]).1 matches Ok(
                t,
            ) ==> t.is_settled(known)) by {
                assert(arms[j] == made[j + 1]);
                assert(pairs[j + 1].1.defaults_settled(known));
                assert(pairs[j + 1].1.well_formed());
                if arms[j].1 is Ok {
                    partial_eval_settles(pairs[j + 1].1, known);
                }
            }
            lemma_settle_arms_settled(subject, pairs[0].1, arms, Seq::empty(), known);
            let (last_default, left) = settle_arms(subject, pairs[0].1, arms, Seq::empty())->Ok_0;
            if left.len() > 0 {
                let rebuilt = seq![(subject, last_default)] + left;
                assert(rebuilt[0] == (subject, last_default));
                assert forall|i: int| 1 <= i < rebuilt.len() implies (
                #[trigger] rebuilt[i]).0.is_settled(known) && rebuilt[i].1.is_settled(known)
                    && !(rebuilt[0].0 is Const && rebuilt[i].0 is Const) by {
                    assert(rebuilt[i] == left[i - 1]);
                }
            }
        },
    }
    settled_is_unchanged(e.partial_eval(known)->Ok_0, known);
}

/// Of arguments that are neither the constant null nor a coalesce, all stay.
proof fn lemma_collect_coalesce_of_plain(args: Seq<ExprView>, made: Seq<Simplified>)
    requires
        made.len() == args.len(),
        forall|i: int| 0 <= i < args.len() ==> #[trigger] made[i] == Ok::<
            ExprView,
            EvalErrorView,
        >(args[i]),
        forall|i: int|
            0 <= i < args.len() ==> (#[trigger] args[i]) != ExprView::Const(ValueView::Null)
                && !is_coalesce(args[i]),
    ensures
        collect_coalesce(made) == Ok::<Seq<ExprView>, EvalErrorView>(args),
    decreases args.len(),
{
    if args.len() == 0 {
        assert(args =~= Seq::<ExprView>::empty());
    } else {
        assert forall|i: int| 0 <= i < args.drop_first().len() implies
            #[trigger] made.drop_first()[i]
            == Ok::<ExprView, EvalErrorView>(args.drop_first()[i]) by {
            assert(made.drop_first()[i] == made[i + 1]);
        }
        assert forall|i: int| 0 <= i < args.drop_first().len() implies (
        #[trigger] args.drop_first()[i]) != ExprView::Const(ValueView::Null) && !is_coalesce(
            args.drop_first()[i],
        ) by {
            assert(args.drop_first()[i] == args[i + 1]);
        }
        lemma_collect_coalesce_of_plain(args.drop_first(), made.drop_first());
        assert(made[0] == Ok::<ExprView, EvalErrorView>(args[0]));
        assert(spliced(args[0]) == seq![args[0]]);
        assert(seq![args[0]] + args.drop_first() =~= args);
    }
}

/// Arguments that partial evaluation leaves as they are stay as they are.
proof fn lemma_all_simplified_of_unchanged(args: Seq<ExprView>, made: Seq<Simplified>)
    requires
        made.len() == args.len(),
        forall|i: int| 0 <= i < args.len() ==> #[trigger] made[i] == Ok::<
            ExprView,
            EvalErrorView,
        >(args[i]),
    ensures
        all_simplified(made) == Ok::<Seq<ExprView>, EvalErrorView>(args),
    decreases args.len(),
{
    if args.len() == 0 {
        assert(args =~= Seq::<ExprView>::empty());
    } else {
        assert forall|i: int| 0 <= i < args.drop_first().len() implies
            #[trigger] made.drop_first()[i]
            == Ok::<ExprView, EvalErrorView>(args.drop_first()[i]) by {
            assert(made.drop_first()[i] == made[i + 1]);
        }
        lemma_all_simplified_of_unchanged(args.drop_first(), made.drop_first());
        assert(made[0] == Ok::<ExprView, EvalErrorView>(args[0]));
        assert(seq![args[0]] + args.drop_first() =~= args);
    }
}

/// Arms of which none can be decided all stay.
proof fn lemma_settle_arms_of_open(
    subject: ExprView,
    default: ExprView,
    arms: Seq<(ExprView, ExprView)>,
    made: Seq<(Simplified, Simplified)>,
    kept: Seq<(ExprView, ExprView)>,
)
    requires
        made.len() == arms.len(),
        forall|i: int| 0 <= i < arms.len() ==> #[trigger] made[i] == (
            Ok::<ExprView, EvalErrorView>(arms[i].0),
            Ok::<ExprView, EvalErrorView>(arms[i].1),
        ),
        forall|i: int|
            0 <= i < arms.len() ==> !(subject is Const && (#[trigger] arms[i]).0 is Const),
    ensures
        settle_arms(subject, default, made, kept) == Ok::<
            (ExprView, Seq<(ExprView, ExprView)>),
            EvalErrorView,
        >((default, kept + arms)),
    decreases arms.len(),
{
    if arms.len() == 0 {
        assert(kept + arms =~= kept);
    } else {
        assert(made[0] == (
            Ok::<ExprView, EvalErrorView>(arms[0].0),
            Ok::<ExprView, EvalErrorView>(arms[0].1),
        ));
        assert(!(subject is Const && arms[0].0 is Const));
        assert forall|i: int| 0 <= i < arms.drop_first().len() implies
            #[trigger] made.drop_first()[i]
            == (
            Ok::<ExprView, EvalErrorView>(arms.drop_first()[i].0),
            Ok::<ExprView, EvalErrorView>(arms.drop_first()[i].1),
        ) by {
            assert(made.drop_first()[i] == made[i + 1]);
            assert(arms.drop_first()[i] == arms[i + 1]);
        }
        assert forall|i: int| 0 <= i < arms.drop_first().len() implies !(subject is Const && (
        #[trigger] arms.drop_first()[i]).0 is Const) by {
            assert(arms.drop_first()[i] == arms[i + 1]);
        }
        lemma_settle_arms_of_open(
            subject,
            default,
            arms.drop_first(),
            made.drop_first(),
            kept.push(arms[0]),
        );
        assert(kept.push(arms[0]) + arms.drop_first() =~= kept + arms);
    }
}

/// The arguments that stay of a coalesce are settled, and none of them is the
/// constant null or a coalesce, when the simplified arguments are settled.
pub proof fn lemma_collect_coalesce_settled(made: Seq<Simplified>, known: Bound)
    requires
        collect_coalesce(made) is Ok,
        forall|i: int|
            0 <= i < made.len() ==> ((#[trigger] made[i]) matches Ok(x) ==> x.is_settled(known)),
    ensures
        forall|i: int|
            0 <= i < collect_coalesce(made)->Ok_0.len() ==> {
                let x = #[trigger] collect_coalesce(made)->Ok_0[i];
                x.is_settled(known) && x != ExprView::Const(ValueView::Null) && !is_coalesce(x)
            },
    decreases made.len(),
{
    if made.len() > 0 {
        let x = made[0]->Ok_0;
        let rest = collect_coalesce(made.drop_first())->Ok_0;
        assert forall|i: int| 0 <= i < made.drop_first().len() implies ((
        #[trigger] made.drop_first()[i]) matches Ok(y) ==> y.is_settled(known)) by {
            assert(made.drop_first()[i] == made[i + 1]);
        }
        lemma_collect_coalesce_settled(made.drop_first(), known);
        assert(x.is_settled(known));
        let all = collect_coalesce(made)->Ok_0;
        assert(all == spliced(x) + rest);
        assert forall|i: int| 0 <= i < all.len() implies {
            let y = #[trigger] all[i];
            y.is_settled(known) && y != ExprView::Const(ValueView::Null) && !is_coalesce(y)
        } by {
            if i < spliced(x).len() {
                assert(all[i] == spliced(x)[i]);
            } else {
                assert(all[i] == rest[i - spliced(x).len()]);
            }
        }
    }
}

/// The arms that are left of a switch are settled and open, and the default
/// that is left is the default as it stood or settled, when the simplified
/// arms are settled.
proof fn lemma_settle_arms_settled(
    subject: ExprView,
    default: ExprView,
    arms: Seq<(Simplified, Simplified)>,
    kept: Seq<(ExprView, ExprView)>,
    known: Bound,
)
    requires
        settle_arms(subject, default, arms, kept) is Ok,
        default.is_settled(known),
        forall|j: int|
            0 <= j < kept.len() ==> (#[trigger] kept[j]).0.is_settled(known)
                && kept[j].1.is_settled(known) && !(subject is Const && kept[j].0 is Const),
        forall|j: int|
            0 <= j < arms.len() ==> ((#[trigger] arms[j]).0 matches Ok(c) ==> c.is_settled(known)),
        forall|j: int|
            0 <= j < arms.len() ==> ((#[trigger] arms[j]).1 matches Ok(t) ==> t.is_settled(known)),
    ensures
        settle_arms(subject, default, arms, kept)->Ok_0.0.is_settled(known),
        forall|j: int|
            0 <= j < settle_arms(subject, default, arms, kept)->Ok_0.1.len() ==> {
                let arm = #[trigger] settle_arms(subject, default, arms, kept)->Ok_0.1[j];
                arm.0.is_settled(known) && arm.1.is_settled(known) && !(subject is Const
                    && arm.0 is Const)
            },
    decreases arms.len(),
{
    if arms.len() > 0 {
        let candidate = arms[0].0->Ok_0;
        let later = arms.drop_first();
        assert forall|j: int| 0 <= j < later.len() implies ((#[trigger] later[j]).0 matches Ok(
            c,
        ) ==> c.is_settled(known)) by {
            assert(later[j] == arms[j + 1]);
        }
        assert forall|j: int| 0 <= j < later.len() implies ((#[trigger] later[j]).1 matches Ok(
            t,
        ) ==> t.is_settled(known)) by {
            assert(later[j] == arms[j + 1]);
        }
        if subject is Const && candidate is Const {
            if candidate != subject {
                lemma_settle_arms_settled(subject, default, later, kept, known);
            }
        } else {
            let result = arms[0].1->Ok_0;
            let more = kept.push((candidate, result));
            assert forall|j: int| 0 <= j < more.len() implies (#[trigger] more[j]).0.is_settled(
                known,
            ) && more[j].1.is_settled(known) && !(subject is Const && more[j].0 is Const) by {
                if j < kept.len() {
                    assert(more[j] == kept[j]);
                }
            }
            lemma_settle_arms_settled(subject, default, later, more, known);
        }
    }
}

} // verus!
