//! Which steps make a plan, and what becomes of them, in numbers of the steps.

use crate::decimal;
use crate::number::{Amount, Number};
use crate::plan;
use crate::plan::Step;
use crate::text;
use vstd::prelude::*;

verus! {

/// Whether a step is in order: an action and a condition of 1 to 160 characters each, apart
/// from white space around them, and a finite positive estimate.
pub open spec fn in_order(step: Step) -> bool {
    &&& 1 <= text::trimmed(step.action).len() <= 160
    &&& 1 <= text::trimmed(step.done_when).len() <= 160
    &&& step.estimate.finite() && !step.estimate.negative() && step.estimate.units() > 0
}

/// Steps make a plan exactly when there are from 2 to 8 of them, all in order, the plan is
/// complete, and their estimates can be added up. No steps make none, and that is no fault.
pub proof fn law_plans_in_order(steps: Seq<Step>, complete: bool)
    ensures
        steps.len() == 0 ==> plan::plan_fault(steps, complete) is None,
        steps.len() > 0 ==> (plan::plan_fault(steps, complete) is None <==> {
            &&& complete
            &&& 2 <= steps.len() <= 8
            &&& forall|i: int| 0 <= i < steps.len() ==> in_order(#[trigger] steps[i])
            &&& forall|n: int| 0 < n <= steps.len() ==> (#[trigger] plan::total(steps, n)).finite()
        }),
        steps.len() > 0 && !complete ==> plan::plan_fault(steps, complete) == Some(
            "plan_steps requires plan_complete=true"@,
        ),
        steps.len() > 0 && complete && !(2 <= steps.len() <= 8) ==> plan::plan_fault(
            steps,
            complete,
        ) == Some("plan_steps must contain between 2 and 8 steps"@),
{
    lemma_steps_in_order(steps, 0);
}

proof fn lemma_steps_in_order(steps: Seq<Step>, from: int)
    requires
        0 <= from <= steps.len(),
    ensures
        plan::steps_fault(steps, from) is None <==> {
            &&& forall|i: int| from <= i < steps.len() ==> in_order(#[trigger] steps[i])
            &&& forall|n: int|
                from < n <= steps.len() ==> (#[trigger] plan::total(steps, n)).finite()
        },
    decreases steps.len() - from,
{
    if from < steps.len() {
        lemma_steps_in_order(steps, from + 1);
        assert(plan::step_fault(steps[from], from) is None <==> in_order(steps[from]));
        assert(plan::total(steps, from + 1) == plan::total(steps, from + 1));
    }
}

/// What is told of a step that is not in order: its number, and what is wrong.
pub proof fn law_steps_out_of_order(step: Step, i: int)
    ensures
        ({
            let fault = plan::step_fault(step, i);
            let start = "plan_steps["@ + text::decimal(i as nat);
            let action = text::trimmed(step.action);
            let done = text::trimmed(step.done_when);
            &&& action.len() == 0 || done.len() == 0 ==> fault == Some(
                start + "] requires non-empty action and done_when"@,
            )
            &&& action.len() > 0 && done.len() > 0 && (action.len() > 160 || done.len() > 160)
                ==> fault == Some(
                start + "] action and done_when must each be at most 160 characters"@,
            )
            &&& 0 < action.len() <= 160 && 0 < done.len() <= 160 && !in_order(step) ==> fault
                == Some(start + "].estimated_seconds must be finite and > 0"@)
        }),
{
}

/// The estimate of a plan is the sum of its steps', added one after the other and each time
/// rounded as numbers are; for one step more it is what was before and that step.
pub proof fn law_estimates_add_up(steps: Seq<Step>, n: int)
    ensures
        plan::total(steps, 0) == (Number { bits: 0 }),
        n > 0 ==> plan::total(steps, n) == Number::rounded(
            plan::total(steps, n - 1).units() + steps[n - 1].estimate.units(),
        ),
{
}

/// A plan as text: its steps one after another, each with its number, action, estimate and
/// condition.
pub proof fn law_plans_as_text(steps: Seq<Step>, n: int)
    requires
        0 < n <= steps.len(),
        n <= 1 || steps.len() >= 2,
    ensures
        ({
            let step = steps[n - 1];
            let line = text::decimal(n as nat) + ". "@ + text::trimmed(step.action) + " ["@
                + plan::seconds_text(step.estimate) + "s; done: "@ + text::trimmed(
                step.done_when,
            ) + "]"@;
            &&& n == 1 ==> plan::plan_text(steps, n) == line
            &&& n > 1 ==> plan::plan_text(steps, n) == plan::plan_text(steps, n - 1) + " "@ + line
        }),
{
    let texts = Seq::new(n as nat, |i: int| plan::step_text(steps[i], i));
    let fewer = Seq::new((n - 1) as nat, |i: int| plan::step_text(steps[i], i));
    assert(texts.drop_last() =~= fewer);
}

/// The estimate of a step is written with up to three decimals: the nearest thousandth.
pub proof fn law_estimates_as_text(seconds: Number)
    ensures
        seconds.spec_amount() matches Amount::Billionths(value) ==> value >= 0
            ==> plan::seconds_text(seconds) == decimal::fixed(
            ((value as int + 500_000) / 1_000_000) as nat,
            3,
        ),
{
}

/// What was completed as a note: the first four items, each cut to 64 characters.
pub proof fn law_completed_notes(completed: Seq<Seq<char>>)
    ensures
        completed.len() > 0 ==> text::shortened(completed[0], 64).len() <= 64,
        completed.len() == 1 ==> plan::completed_text(completed) == text::shortened(
            completed[0],
            64,
        ),
        completed.len() == 2 ==> plan::completed_text(completed) == text::shortened(
            completed[0],
            64,
        ) + "; "@ + text::shortened(completed[1], 64),
        completed.len() == 3 ==> plan::completed_text(completed) == text::shortened(
            completed[0],
            64,
        ) + "; "@ + text::shortened(completed[1], 64) + "; "@ + text::shortened(completed[2], 64),
        completed.len() >= 4 ==> plan::completed_text(completed) == text::shortened(
            completed[0],
            64,
        ) + "; "@ + text::shortened(completed[1], 64) + "; "@ + text::shortened(completed[2], 64)
            + "; "@ + text::shortened(completed[3], 64),
{
    let short = |i: int| text::shortened(completed[i], 64);
    let four = Seq::new(4, short);
    let three = Seq::new(3, short);
    let two = Seq::new(2, short);
    let one = Seq::new(1, short);
    assert(four.drop_last() =~= three);
    assert(three.drop_last() =~= two);
    assert(two.drop_last() =~= one);
    let count: nat = if completed.len() <= 4 {
        completed.len()
    } else {
        4
    };
    assert(Seq::new(count, |i: int| text::shortened(completed[i], 64)) =~= Seq::new(count, short));
    reveal_with_fuel(text::joined, 5);
}

} // verus!
