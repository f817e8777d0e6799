//! Execution plans as agents submit them, and the notes that they become.

use crate::decimal;
use crate::names;
use crate::number::{Amount, Number};
use crate::text;
use vstd::prelude::*;
use vstd::string::StringExecFns;

verus! {

/// The fewest steps of a plan.
pub const MIN_PLAN_STEPS: usize = 2;

/// The most steps of a plan.
pub const MAX_PLAN_STEPS: usize = 8;

/// The longest field of a step, in characters.
pub const MAX_PLAN_FIELD_CHARS: usize = 160;

#[derive(Debug, Clone, PartialEq, Eq)]
pub struct PlanStepInput {
    /// Concrete action to perform.
    pub action: String,
    /// Bounded estimate for this step, in seconds.
    pub estimated_seconds: Number,
    /// Observable condition that proves the step is complete.
    pub done_when: String,
}

/// The contents of a [`PlanStepInput`].
pub struct Step {
    pub action: Seq<char>,
    pub estimate: Number,
    pub done_when: Seq<char>,
}

impl View for PlanStepInput {
    type V = Step;

    open spec fn view(&self) -> Step {
        Step {
            action: self.action@,
            estimate: self.estimated_seconds,
            done_when: self.done_when@,
        }
    }
}

pub open spec fn steps_of(steps: Seq<PlanStepInput>) -> Seq<Step> {
    Seq::new(steps.len(), |i: int| steps[i]@)
}

#[derive(Debug, Clone, PartialEq, Eq)]
pub struct StructuredPlan {
    pub note: String,
    pub estimated_seconds: Number,
}

/// What is wrong with step number `i`, if anything is.
pub open spec fn step_fault(step: Step, i: int) -> Option<Seq<char>> {
    let action = text::trimmed(step.action);
    let done_when = text::trimmed(step.done_when);
    let start = "plan_steps["@ + text::decimal(i as nat);
    if action.len() == 0 || done_when.len() == 0 {
        Some(start + "] requires non-empty action and done_when"@)
    } else if action.len() > MAX_PLAN_FIELD_CHARS || done_when.len() > MAX_PLAN_FIELD_CHARS {
        Some(start + "] action and done_when must each be at most 160 characters"@)
    } else if !(step.estimate.finite() && !step.estimate.negative() && step.estimate.units() > 0) {
        Some(start + "].estimated_seconds must be finite and > 0"@)
    } else {
        None
    }
}

/// The estimates of the first `n` steps, added one after another.
pub open spec fn total(steps: Seq<Step>, n: int) -> Number
    decreases n,
{
    if n <= 0 {
        Number { bits: 0 }
    } else {
        total(steps, n - 1).spec_plus(steps[n - 1].estimate)
    }
}

/// What is wrong with the first step, from number `i` on, that is faulty or takes the
/// total beyond all numbers.
pub open spec fn steps_fault(steps: Seq<Step>, i: int) -> Option<Seq<char>>
    decreases steps.len() - i,
{
    if i < 0 || i >= steps.len() {
        None
    } else if step_fault(steps[i], i) is Some {
        step_fault(steps[i], i)
    } else if !total(steps, i + 1).finite() {
        Some("plan_steps estimated_seconds total is not finite"@)
    } else {
        steps_fault(steps, i + 1)
    }
}

/// Why steps make no plan.
pub open spec fn plan_fault(steps: Seq<Step>, plan_complete: bool) -> Option<Seq<char>> {
    if steps.len() == 0 {
        None
    } else if !plan_complete {
        Some("plan_steps requires plan_complete=true"@)
    } else if steps.len() < MIN_PLAN_STEPS || steps.len() > MAX_PLAN_STEPS {
        Some("plan_steps must contain between 2 and 8 steps"@)
    } else {
        steps_fault(steps, 0)
    }
}

/// A number of seconds to three decimals.
pub open spec fn seconds_text(seconds: Number) -> Seq<char> {
    match seconds.spec_amount() {
        Amount::Billionths(value) => decimal::fixed(decimal::thousandths(value as nat), 3),
        _ => Seq::empty(),
    }
}

/// Step number `i` in one line.
pub open spec fn step_text(step: Step, i: int) -> Seq<char> {
    text::decimal((i + 1) as nat) + ". "@ + text::trimmed(step.action) + " ["@ + seconds_text(
        step.estimate,
    ) + "s; done: "@ + text::trimmed(step.done_when) + "]"@
}

/// The first `n` steps in one line.
pub open spec fn plan_text(steps: Seq<Step>, n: int) -> Seq<char> {
    text::joined(Seq::new(n as nat, |i: int| step_text(steps[i], i)), " "@)
}

fn fault_text(i: usize, what: &str) -> (r: String)
    ensures
        r@ == "plan_steps["@ + text::decimal(i as nat) + what@,
{
    "plan_steps[".to_owned().concat(text::decimal_text(i as u128).as_str()).concat(what)
}

fn check_step(step: &PlanStepInput, i: usize) -> (r: Result<(), String>)
    ensures
        match r {
            Ok(()) => step_fault(step@, i as int) is None,
            Err(e) => step_fault(step@, i as int) == Some(e@),
        },
{
    let action = step.action.trim();
    let done_when = step.done_when.trim();
    if action.is_empty() || done_when.is_empty() {
        return Err(fault_text(i, "] requires non-empty action and done_when"));
    }
    if action.unicode_len() > MAX_PLAN_FIELD_CHARS || done_when.unicode_len()
        > MAX_PLAN_FIELD_CHARS {
        return Err(
            fault_text(i, "] action and done_when must each be at most 160 characters"),
        );
    }
    if !step.estimated_seconds.is_positive() {
        return Err(fault_text(i, "].estimated_seconds must be finite and > 0"));
    }
    Ok(())
}

fn render_step(step: &PlanStepInput, i: usize) -> (r: String)
    requires
        step_fault(step@, i as int) is None,
        i < usize::MAX,
    ensures
        r@ == step_text(step@, i as int),
{
    let seconds = match step.estimated_seconds.amount() {
        Amount::Billionths(value) => decimal::round3(value as u128).to_text(),
        _ => String::new(),
    };
    text::decimal_text(i as u128 + 1).concat(". ").concat(step.action.trim()).concat(" [").concat(
        seconds.as_str(),
    ).concat("s; done: ").concat(step.done_when.trim()).concat("]")
}

/// Checks the steps of a plan, and makes a note and an estimate of them. No steps make
/// no plan.
pub fn structured_plan(steps: &Vec<PlanStepInput>, plan_complete: bool) -> (r: Result<
    Option<StructuredPlan>,
    String,
>)
    ensures
        ({
            let list = steps_of(steps@);
            match r {
                Ok(None) => list.len() == 0,
                Ok(Some(plan)) => {
                    &&& list.len() > 0
                    &&& plan_fault(list, plan_complete) is None
                    &&& plan.note@ == plan_text(list, list.len() as int)
                    &&& plan.estimated_seconds == total(list, list.len() as int)
                    &&& plan.estimated_seconds.finite()
                    &&& !plan.estimated_seconds.negative()
                },
                Err(e) => plan_fault(list, plan_complete) == Some(e@),
            }
        }),
{
    let ghost list = steps_of(steps@);
    if steps.len() == 0 {
        return Ok(None);
    }
    if !plan_complete {
        return Err("plan_steps requires plan_complete=true".to_owned());
    }
    if steps.len() < MIN_PLAN_STEPS || steps.len() > MAX_PLAN_STEPS {
        return Err("plan_steps must contain between 2 and 8 steps".to_owned());
    }
    let mut estimated_seconds = Number { bits: 0 };
    let mut note = String::new();
    let mut i: usize = 0;
    proof {
        assert(Number { bits: 0 }.finite());
        assert(Seq::new(0, |i: int| step_text(list[i], i)) =~= Seq::<Seq<char>>::empty());
    }
    while i < steps.len()
        invariant
            list == steps_of(steps@),
            plan_complete,
            MIN_PLAN_STEPS <= list.len() <= MAX_PLAN_STEPS,
            i <= steps.len(),
            estimated_seconds == total(list, i as int),
            estimated_seconds.finite(),
            !estimated_seconds.negative(),
            note@ == plan_text(list, i as int),
            steps_fault(list, 0) == steps_fault(list, i as int),
        decreases steps.len() - i,
    {
        assert(list[i as int] == steps@[i as int]@);
        check_step(&steps[i], i)?;
        estimated_seconds = estimated_seconds.plus(steps[i].estimated_seconds);
        if !estimated_seconds.is_finite() {
            return Err("plan_steps estimated_seconds total is not finite".to_owned());
        }
        let line = render_step(&steps[i], i);
        let ghost texts = Seq::new((i + 1) as nat, |i: int| step_text(list[i], i));
        proof {
            assert(texts.drop_last() =~= Seq::new(i as nat, |i: int| step_text(list[i], i)));
        }
        note = if i == 0 {
            line
        } else {
            note.concat(" ").concat(line.as_str())
        };
        i = i + 1;
    }
    Ok(Some(StructuredPlan { note, estimated_seconds }))
}

/// The most completed items that a note tells of.
pub const MAX_COMPLETED: usize = 4;

/// The longest completed item in a note, in characters.
pub const MAX_COMPLETED_CHARS: usize = 64;

/// The note that completed items make: the first few, each shortened.
pub open spec fn completed_text(completed: Seq<Seq<char>>) -> Seq<char> {
    let count = if completed.len() <= MAX_COMPLETED {
        completed.len()
    } else {
        MAX_COMPLETED as nat
    };
    text::joined(
        Seq::new(count, |i: int| text::shortened(completed[i], MAX_COMPLETED_CHARS as nat)),
        "; "@,
    )
}

/// The note that completed items make, if there are any.
pub fn completed_note(completed: &Vec<String>) -> (r: Option<String>)
    ensures
        match r {
            Some(note) => completed@.len() > 0 && note@ == completed_text(
                names::texts(completed@),
            ),
            None => completed@.len() == 0,
        },
{
    if completed.len() == 0 {
        return None;
    }
    let ghost list = names::texts(completed@);
    let count: usize = if completed.len() <= MAX_COMPLETED {
        completed.len()
    } else {
        MAX_COMPLETED
    };
    let mut note = String::new();
    let mut i: usize = 0;
    let ghost short = |i: int| text::shortened(list[i], MAX_COMPLETED_CHARS as nat);
    assert(Seq::new(0, short) =~= Seq::<Seq<char>>::empty());
    while i < count
        invariant
            list == names::texts(completed@),
            short == (|i: int| text::shortened(list[i], MAX_COMPLETED_CHARS as nat)),
            i <= count <= completed.len(),
            note@ == text::joined(Seq::new(i as nat, short), "; "@),
        decreases count - i,
    {
        let item = text::shorten(completed[i].as_str(), MAX_COMPLETED_CHARS);
        let ghost texts = Seq::new((i + 1) as nat, short);
        assert(texts.drop_last() =~= Seq::new(i as nat, short));
        note = if i == 0 {
            item.to_owned()
        } else {
            note.concat("; ").concat(item)
        };
        i = i + 1;
    }
    Some(note)
}

} // verus!
