//! What an agent is told, in numbers of its tasks and of what it asks.

use crate::advice;
use crate::advice::TickOutput;
use crate::decimal;
use crate::duration::{MAX_NANOS, TOLERANCE};
use crate::error::Refusal;
use crate::names;
use crate::number::{Amount, Number, LARGEST};
use crate::plan;
use crate::policy::{PolicyDecision, PolicyInput};
use crate::policy_laws;
use crate::rules;
use crate::session;
use crate::session::{
    AdjustInput, AdjustOutput, CheckpointInput, CheckpointOutput, Desk, FinishInput, FinishOutput,
    StartInput, StartOutput, TickInput,
};
use crate::task::{Record, State, TaskView};
use crate::text;
use vstd::prelude::*;

verus! {

/// Whether that many thousandths are the nearest to a number of billionths; half of one
/// counts as one.
pub open spec fn near(thousandths: nat, billionths: int) -> bool {
    1_000_000 * thousandths <= billionths + 500_000 < 1_000_000 * (thousandths + 1)
}

proof fn lemma_near(billionths: nat)
    ensures
        near(decimal::thousandths(billionths), billionths as int),
{
    policy_laws::lemma_floor(billionths as int + 500_000, 1_000_000);
}

/// A percentage that a task carries in its metadata under that name.
pub open spec fn carried(t: State, name: Seq<char>) -> Option<Amount> {
    if t.metadata.contains_key(name) {
        decimal::parsed(t.metadata[name])
    } else {
        None
    }
}

/// A share of one as a percentage.
pub open spec fn as_percent(share: Amount) -> Amount {
    match share {
        Amount::Billionths(value) => if 100 * value > LARGEST {
            Amount::Billionths(LARGEST as i128)
        } else if 100 * value < -(LARGEST as int) {
            Amount::Billionths((-(LARGEST as int)) as i128)
        } else {
            Amount::Billionths((100 * value) as i128)
        },
        _ => share,
    }
}

/// What there is to decide about a task at `now`: its budget, what it has used of it, and
/// the reserves that it carries; the progress and the estimate that are told, and for each
/// that is not told what the last checkpoint told.
pub open spec fn matter(t: State, now: nat, progress: Option<Amount>, eta: Option<Amount>) -> PolicyInput {
    let runtime = t.runtime(now);
    PolicyInput {
        total_secs: Amount::Billionths(t.budget as i128),
        elapsed_secs: Amount::Billionths(
            if runtime < t.budget {
                runtime as i128
            } else {
                t.budget as i128
            },
        ),
        progress_percent: match (progress, t.last_checkpoint) {
            (Some(told), _) => Some(told),
            (None, Some(last)) => match last.progress {
                Some(share) => Some(as_percent(share)),
                None => None,
            },
            (None, None) => None,
        },
        estimated_remaining_work_secs: match (eta, t.last_checkpoint) {
            (Some(told), _) => Some(told),
            (None, Some(last)) => last.eta,
            (None, None) => None,
        },
        validation_reserve_percent: carried(t, "validation_reserve_percent"@),
        finalization_reserve_percent: carried(t, "finalization_reserve_percent"@),
    }
}

/// The policy is asked about what there is to decide.
proof fn lemma_matter(
    tasks: crate::registry::Tasks,
    id: Seq<char>,
    now: nat,
    progress: Option<Amount>,
    eta: Option<Amount>,
)
    requires
        tasks[id].budget <= MAX_NANOS,
    ensures
        advice::question(rules::report(tasks, id, now), progress, eta) == matter(
            tasks[id],
            now,
            progress,
            eta,
        ),
{
}

// ---------------------------------------------------------------------------
// Ticks

/// A tick tells the time of its task: how long it has run, what of that is charged to its
/// budget and what is beyond it, and whether it keeps to its budget, within a nanosecond.
pub proof fn law_ticks_tell_the_time(
    before: Desk,
    after: Desk,
    input: TickInput,
    now: nat,
    out: TickOutput,
    id: Seq<char>,
)
    requires
        session::answers_tick(before, after, input, now, Ok(out)),
        session::resolved(before, input.task_id) == Some(id),
    ensures
        ({
            let budget = before.tasks[id].budget as int;
            let runtime = before.tasks[id].runtime(now) as int;
            let charged = if runtime < budget {
                runtime
            } else {
                budget
            };
            &&& near(out@.actual_elapsed, runtime)
            &&& near(out@.accounted_elapsed, charged)
            &&& near(out@.elapsed, charged)
            &&& near(out@.overrun, runtime - charged)
            &&& out@.deadline_met <==> runtime <= budget + 1
            &&& 1_000_000 <= budget <= MAX_NANOS ==> near(out@.remaining, budget - charged)
        }),
{
    let t = before.tasks[id];
    let runtime = t.runtime(now);
    let charged = if runtime < t.budget {
        runtime
    } else {
        t.budget
    };
    lemma_near(runtime);
    lemma_near(charged);
    lemma_near((runtime - charged) as nat);
    lemma_near((t.budget - charged) as nat);
    let tasks = rules::ticked(before.tasks, id, now);
    if 1_000_000 <= t.budget <= MAX_NANOS {
        let progress = input.progress_percent;
        let eta = input.estimated_remaining_work_seconds;
        lemma_matter(tasks, id, now, progress, eta);
        assert(tasks[id].runtime(now) == runtime);
        policy_laws::law_what_is_not_used_remains(
            matter(tasks[id], now, progress, eta),
            t.budget as int,
            charged as int,
        );
    }
}

/// A tick advises what the policy decides about its task: of the progress and the estimate
/// what is told with the tick goes first, and what is not told counts as it was at the last
/// checkpoint. Before a plan was submitted no new action is allowed.
pub proof fn law_ticks_tell_what_the_policy_decides(
    before: Desk,
    after: Desk,
    input: TickInput,
    now: nat,
    out: TickOutput,
    id: Seq<char>,
)
    requires
        session::answers_tick(before, after, input, now, Ok(out)),
        session::resolved(before, input.task_id) == Some(id),
        before.tasks[id].budget <= MAX_NANOS,
    ensures
        ({
            let t = before.tasks[id];
            let d = matter(
                t,
                now,
                input.progress_percent,
                input.estimated_remaining_work_seconds,
            ).decision();
            let allowed = if t.plan_submitted {
                d.max_new_action
            } else {
                0
            };
            &&& near(out@.remaining, d.remaining as int)
            &&& near(out@.remaining_percent, d.remaining_percent as int)
            &&& near(out@.usable_work, d.usable_work as int)
            &&& near(out@.reserved, d.reserved as int)
            &&& near(out@.max_new_action, allowed as int)
            &&& near(out@.next_check, d.next_check as int)
            &&& near(
                out@.lease_ceiling,
                if allowed < d.next_check {
                    allowed as int
                } else {
                    d.next_check as int
                },
            )
            &&& out@.schedule == d.schedule.name()
            &&& out@.mode == if t.plan_submitted {
                d.mode.name()
            } else {
                "plan"@
            }
            &&& out@.must_plan == !t.plan_submitted
            &&& out@.must_converge == d.must_converge
            &&& out@.must_validate == d.must_validate
            &&& out@.must_finalize == d.must_finalize
            &&& out@.must_stop == d.must_stop
            &&& out@.reason == if input.verbose || before.settings.default_verbose {
                Some(d.reason)
            } else {
                None
            }
        }),
{
    let t = before.tasks[id];
    let tasks = rules::ticked(before.tasks, id, now);
    let progress = input.progress_percent;
    let eta = input.estimated_remaining_work_seconds;
    lemma_matter(tasks, id, now, progress, eta);
    assert(tasks[id].runtime(now) == t.runtime(now));
    assert(matter(tasks[id], now, progress, eta) == matter(t, now, progress, eta));
    let d = matter(t, now, progress, eta).decision();
    lemma_near(d.remaining);
    lemma_near(d.remaining_percent);
    lemma_near(d.usable_work);
    lemma_near(d.reserved);
    lemma_near(d.max_new_action);
    lemma_near(0);
    lemma_near(d.next_check);
}

/// A tick that tells no progress is answered as one that tells, in percent, the progress
/// of the last checkpoint; and likewise for the estimate.
pub proof fn law_checkpoints_count_until_told_otherwise(
    before: Desk,
    after: Desk,
    told_after: Desk,
    input: TickInput,
    told: TickInput,
    now: nat,
    out: TickOutput,
    told_out: TickOutput,
    id: Seq<char>,
    last: Record,
)
    requires
        session::answers_tick(before, after, input, now, Ok(out)),
        session::answers_tick(before, told_after, told, now, Ok(told_out)),
        session::resolved(before, input.task_id) == Some(id),
        before.tasks[id].last_checkpoint == Some(last),
        ({
            ||| {
                &&& input.progress_percent is None
                &&& last.progress matches Some(Amount::Billionths(share)) && 0 <= share
                    <= 1_000_000_000 && told == (TickInput {
                    progress_percent: Some(Amount::Billionths((100 * share) as i128)),
                    ..input
                })
            }
            ||| {
                &&& input.estimated_remaining_work_seconds is None
                &&& last.eta is Some
                &&& told == (TickInput { estimated_remaining_work_seconds: last.eta, ..input })
            }
        }),
    ensures
        out@ == told_out@,
        after == told_after,
{
}

/// What an agent is to do next, in the order of what matters most: to stop, to submit its
/// plan, to split an action that does not fit, to finalize, to validate, to converge, and
/// else to execute.
pub proof fn law_directives(
    before: Desk,
    after: Desk,
    input: TickInput,
    now: nat,
    out: TickOutput,
)
    requires
        session::answers_tick(before, after, input, now, Ok(out)),
    ensures
        ({
            let a = out@;
            &&& a.must_stop ==> a.directive == "stop"@
            &&& !a.must_stop && a.must_plan ==> a.directive == "submit_plan"@
            &&& !a.must_stop && !a.must_plan && a.action_fits == Some(false) ==> a.directive
                == "split_action"@
            &&& !a.must_stop && !a.must_plan && a.action_fits != Some(false) ==> {
                &&& a.must_finalize ==> a.directive == "finalize"@
                &&& !a.must_finalize && a.must_validate ==> a.directive == "validate"@
                &&& !a.must_finalize && !a.must_validate && a.must_converge ==> a.directive
                    == "converge_required_only"@
                &&& !a.must_finalize && !a.must_validate && !a.must_converge ==> a.directive
                    == "execute"@
            }
        }),
{
}

/// An action that is proposed with an estimate gets a lease exactly when the estimate is
/// no longer than the policy's limit on new actions and the next check, both to the full
/// millisecond; none is leased before a plan was submitted. The lease is for that task,
/// action and estimate, ends with that limit, and is numbered by the tick. An estimate
/// alone fits if it is within the limit on new actions.
pub proof fn law_leases_are_granted_for_what_fits(
    before: Desk,
    after: Desk,
    input: TickInput,
    now: nat,
    out: TickOutput,
    id: Seq<char>,
)
    requires
        session::answers_tick(before, after, input, now, Ok(out)),
        session::resolved(before, input.task_id) == Some(id),
        before.tasks[id].budget <= MAX_NANOS,
    ensures
        ({
            let t = before.tasks[id];
            let d = matter(
                t,
                now,
                input.progress_percent,
                input.estimated_remaining_work_seconds,
            ).decision();
            let allowed = if t.plan_submitted {
                d.max_new_action
            } else {
                0
            };
            let ceiling = if allowed < d.next_check {
                allowed
            } else {
                d.next_check
            };
            let expiry = Number::thousandths((ceiling / 1_000_000) as nat);
            let estimate = input.current_action_estimated_seconds;
            &&& estimate is None ==> out@.action_lease is None && out@.action_fits is None
            &&& input.current_action is None ==> out@.action_lease is None
            &&& estimate is Some && input.current_action is Some ==> {
                &&& out@.action_lease is Some <==> estimate->Some_0.units() <= expiry.units()
                &&& out@.action_fits == Some(out@.action_lease is Some)
            }
            &&& estimate is Some && input.current_action is None ==> (
            estimate->Some_0.spec_amount() matches Amount::Billionths(value) ==> out@.action_fits
                == Some(value <= allowed))
            &&& out@.action_lease matches Some(lease) ==> {
                &&& lease.id == id + ":"@ + text::decimal(rules::counted(t.ticks) as nat)
                &&& lease.task == id
                &&& lease.action == text::trimmed(input.current_action->Some_0@)
                &&& lease.duration_seconds == estimate->Some_0
                &&& lease.expires_in_seconds == expiry
                &&& lease.expiry_anchor == "tick_request_started"@
                &&& lease.one_shot
            }
        }),
{
    let t = before.tasks[id];
    let tasks = rules::ticked(before.tasks, id, now);
    let progress = input.progress_percent;
    let eta = input.estimated_remaining_work_seconds;
    lemma_matter(tasks, id, now, progress, eta);
    assert(tasks[id].runtime(now) == t.runtime(now));
    assert(matter(tasks[id], now, progress, eta) == matter(t, now, progress, eta));
}

/// The time to plan in is the longest that is at most 15 percent of the total, at most a
/// minute, and at most 5 percent of the total unless that is less than 2 seconds.
pub proof fn law_planning_time(total: nat)
    ensures
        ({
            let p = advice::planning_budget(total);
            &&& 100 * p <= 15 * total
            &&& p <= 60_000_000_000
            &&& p <= 2_000_000_000 || 20 * p <= total
            &&& 100 * (p + 1) > 15 * total || p == 60_000_000_000 || (p >= 2_000_000_000 && 20 * (p
                + 1) > total)
        }),
{
    policy_laws::lemma_floor(total as int * 5, 100);
    policy_laws::lemma_floor(total as int * 15, 100);
}

/// A tick tells what is left of the time to plan in, while there is no plan, and then none.
pub proof fn law_ticks_tell_the_planning_time(
    before: Desk,
    after: Desk,
    input: TickInput,
    now: nat,
    out: TickOutput,
    id: Seq<char>,
)
    requires
        session::answers_tick(before, after, input, now, Ok(out)),
        session::resolved(before, input.task_id) == Some(id),
    ensures
        ({
            let t = before.tasks[id];
            let left = advice::planning_budget(t.budget) - t.runtime(now);
            &&& t.plan_submitted ==> out@.planning_remaining == 0
            &&& !t.plan_submitted && left >= 0 ==> near(out@.planning_remaining, left)
            &&& !t.plan_submitted && left < 0 ==> out@.planning_remaining == 0
        }),
{
    let t = before.tasks[id];
    law_planning_time(t.budget);
    if advice::planning_budget(t.budget) >= t.runtime(now) {
        lemma_near((advice::planning_budget(t.budget) - t.runtime(now)) as nat);
    }
}

/// A proposed action is refused exactly when it is empty but for white space, longer than
/// 160 characters, or has an estimate that is not finite and positive.
pub proof fn law_proposals_are_refused_for_cause(
    action: Option<Seq<char>>,
    estimate: Option<Number>,
)
    ensures
        ({
            let fault = advice::proposal_fault(action, estimate);
            let empty = action is Some && text::trimmed(action->Some_0).len() == 0;
            let long = action is Some && text::trimmed(action->Some_0).len() > 160;
            let odd = estimate is Some && !(estimate->Some_0.finite()
                && !estimate->Some_0.negative() && estimate->Some_0.units() > 0);
            &&& fault is None <==> !empty && !long && !odd
            &&& empty ==> fault == Some("current_action must not be empty"@)
            &&& long ==> fault == Some("current_action must be at most 160 characters"@)
            &&& odd && !empty && !long ==> fault == Some(
                "current_action_estimated_seconds must be finite and > 0"@,
            )
        }),
{
}

// ---------------------------------------------------------------------------
// Starts

/// What is told of a task that was started: its name, the whole of its budget as remaining,
/// the time to plan in as the next check, that its plan is to be submitted and that no
/// action is allowed before; whether it got less than it asked for; and who sets the
/// deadline.
pub proof fn law_starts_ask_for_a_plan(
    before: Desk,
    after: Desk,
    input: StartInput,
    id: Seq<char>,
    now: nat,
    out: StartOutput,
)
    requires
        session::answers_start(before, after, input, id, now, Ok(out)),
        1_000_000 <= after.tasks[id].budget <= MAX_NANOS,
    ensures
        ({
            let t = after.tasks[id];
            &&& after.active == Some(id)
            &&& out.task_id@ == id
            &&& near(out.remaining_seconds.count as nat, t.budget as int)
            &&& near(
                out.planning_budget_seconds.count as nat,
                advice::planning_budget(t.budget) as int,
            )
            &&& out.next_check_seconds == out.planning_budget_seconds
            &&& out.mode@ == "plan"@
            &&& out.directive@ == "submit_plan"@
            &&& out.max_new_action_seconds.count == 0
            &&& out.clamped <==> (input.budget_seconds matches Amount::Billionths(asked)
                && t.budget + 1 < asked)
            &&& out.deadline_authority@ == if before.settings.host_deadline is Some {
                "host_absolute"@
            } else {
                "agent_relative"@
            }
            &&& (input.verbose || before.settings.default_verbose) ==> advice::slice_text(
                out.reason,
            ) == Some(matter(t, now, Some(Amount::Billionths(0)), None).decision().reason)
            &&& !(input.verbose || before.settings.default_verbose) ==> out.reason is None
        }),
{
    let t = after.tasks[id];
    lemma_matter(after.tasks, id, now, Some(Amount::Billionths(0)), None);
    lemma_near(t.budget);
    lemma_near(advice::planning_budget(t.budget));
    let request = session::start_request(before.settings, input, id);
    if let Some(parent) = request.parent {
        assert(parent != id);
    }
    assert(t.runtime(now) == 0);
    policy_laws::law_what_is_not_used_remains(
        matter(t, now, Some(Amount::Billionths(0)), None),
        t.budget as int,
        0,
    );
}

/// The task that an agent starts asks for the budget and the parent of the request, works
/// in the balanced profile with one tick a second and no phases, and carries the objective,
/// cut to 256 characters, and the reserves.
pub proof fn law_starts_hand_on_the_request(
    settings: session::Settings,
    input: StartInput,
    id: Seq<char>,
)
    ensures
        ({
            let r = session::start_request(settings, input, id);
            &&& r.id == id
            &&& r.budget == input.budget_seconds
            &&& r.parent == names::text_of(input.parent_task_id)
            &&& r.mode == crate::schedule::Mode::Balanced
            &&& r.schedule.tick_interval == Amount::Billionths(1_000_000_000)
            &&& r.schedule.phases.len() == 0
            &&& forall|name: Seq<char>| #[trigger]
                r.metadata.contains_key(name) ==> name == "objective"@ || name
                    == "validation_reserve_percent"@ || name == "finalization_reserve_percent"@
            &&& r.metadata.contains_key("objective"@) <==> input.objective is Some
            &&& input.objective matches Some(objective) ==> {
                let kept = r.metadata["objective"@];
                &&& objective@.len() <= 256 ==> kept == objective@
                &&& objective@.len() > 256 ==> kept == objective@.take(256)
            }
        }),
{
    reveal_strlit("objective");
    reveal_strlit("validation_reserve_percent");
    reveal_strlit("finalization_reserve_percent");
    assert("objective"@[0] != "validation_reserve_percent"@[0]);
    assert("objective"@[0] != "finalization_reserve_percent"@[0]);
}

/// A generated name tells the time and the number.
pub proof fn law_generated_names(millis: nat, n: u64)
    ensures
        session::generated_id(millis, n) == "pt-"@ + text::decimal(millis) + "-"@
            + text::decimal(n as nat),
{
}

// ---------------------------------------------------------------------------
// Checkpoints

/// A checkpoint that is taken stays as the last one: with its note, or else its plan or
/// what was completed, its progress as a share, its estimate, or else the plan's, and its
/// plan flag. It is counted.
pub proof fn law_checkpoints_are_recorded(
    before: Desk,
    after: Desk,
    input: CheckpointInput,
    now: nat,
    out: CheckpointOutput,
    id: Seq<char>,
)
    requires
        session::answers_checkpoint(before, after, input, now, Ok(out)),
        session::resolved(before, input.task_id) == Some(id),
    ensures
        ({
            let last = after.tasks[id].last_checkpoint;
            let steps = plan::steps_of(input.plan_steps@);
            &&& last is Some
            &&& last->Some_0.plan_complete == input.plan_complete
            &&& last->Some_0.elapsed == before.tasks[id].runtime(now)
            &&& last->Some_0.sequence == after.tasks[id].checkpoints
            &&& out.checkpoint_count == after.tasks[id].checkpoints
            &&& before.tasks[id].checkpoints < u64::MAX ==> out.checkpoint_count
                == before.tasks[id].checkpoints + 1
            &&& out.plan_step_count == input.plan_steps@.len()
            &&& out.task_id@ == id
            &&& input.progress_percent is None ==> last->Some_0.progress is None
            &&& input.progress_percent matches Some(Amount::Billionths(percent)) ==> percent >= 0
                ==> (last->Some_0.progress matches Some(Amount::Billionths(share)) && 100 * share
                >= percent && 100 * share < percent + 100)
            &&& steps.len() == 0 ==> {
                &&& last->Some_0.eta == input.estimated_remaining_work_seconds
                &&& input.note is Some ==> last->Some_0.note == Some(input.note->Some_0@)
                &&& input.note is None && input.completed@.len() == 0 ==> last->Some_0.note is None
                &&& input.note is None && input.completed@.len() > 0 ==> last->Some_0.note == Some(
                    plan::completed_text(names::texts(input.completed@)),
                )
            }
            &&& steps.len() > 0 ==> {
                &&& last->Some_0.eta == Some(
                    plan::total(steps, steps.len() as int).spec_amount(),
                )
                &&& last->Some_0.note == Some(plan::plan_text(steps, steps.len() as int))
            }
        }),
{
    if let Some(Amount::Billionths(percent)) = input.progress_percent {
        if percent >= 0 {
            policy_laws::lemma_floor(percent + 99, 100);
        }
    }
}

/// A checkpoint tells what the policy decides with what the checkpoint itself told, and
/// nothing of what earlier ones told.
pub proof fn law_checkpoints_tell_what_the_policy_decides(
    before: Desk,
    after: Desk,
    input: CheckpointInput,
    now: nat,
    out: CheckpointOutput,
    id: Seq<char>,
)
    requires
        session::answers_checkpoint(before, after, input, now, Ok(out)),
        session::resolved(before, input.task_id) == Some(id),
        before.tasks[id].budget <= MAX_NANOS,
    ensures
        ({
            let t = State { last_checkpoint: None, ..before.tasks[id] };
            let d = matter(
                t,
                now,
                input.progress_percent,
                after.tasks[id].last_checkpoint->Some_0.eta,
            ).decision();
            &&& near(out.remaining_seconds.count as nat, d.remaining as int)
            &&& near(out.next_check_seconds.count as nat, d.next_check as int)
            &&& out.mode@ == d.mode.name()
            &&& out.schedule@ == d.schedule.name()
            &&& out.must_converge == d.must_converge
        }),
{
    let t = State { last_checkpoint: None, ..before.tasks[id] };
    let last = after.tasks[id].last_checkpoint->Some_0;
    let eta = session::checkpoint_eta(input);
    lemma_matter(after.tasks, id, now, input.progress_percent, eta);
    assert(after.tasks[id].runtime(now) == t.runtime(now));
    assert(matter(after.tasks[id], now, input.progress_percent, eta) == matter(
        t,
        now,
        input.progress_percent,
        last.eta,
    ));
    let d = matter(t, now, input.progress_percent, last.eta).decision();
    lemma_near(d.remaining);
    lemma_near(d.next_check);
}

// ---------------------------------------------------------------------------
// Adjustments

/// An adjustment tells the new budget and what remains of it, and the mode that a tick of
/// the same task at the same time gets that tells neither progress nor estimate: what the
/// last checkpoint told counts.
pub proof fn law_adjustments_tell_the_mode_of_a_tick(
    before: Desk,
    after: Desk,
    ticked: Desk,
    input: AdjustInput,
    tick: TickInput,
    now: nat,
    out: AdjustOutput,
    advice: TickOutput,
    id: Seq<char>,
)
    requires
        session::answers_adjustment(before, after, input, now, Ok(out)),
        session::resolved(before, input.task_id) == Some(id),
        after.tasks[id].budget <= MAX_NANOS,
    ensures
        out.mode@ == matter(after.tasks[id], now, None, None).decision().mode.name(),
        session::answers_tick(after, ticked, tick, now, Ok(advice)) && session::resolved(
            after,
            tick.task_id,
        ) == Some(id) && tick.progress_percent is None && tick.estimated_remaining_work_seconds
            is None && after.tasks[id].plan_submitted ==> out.mode@ == advice@.mode
            && out.remaining_seconds.count == advice@.remaining,
        after.tasks[id].last_checkpoint == before.tasks[id].last_checkpoint,
        out.task_id@ == id,
        near(out.total_budget_seconds.count as nat, after.tasks[id].budget as int),
        near(
            out.remaining_seconds.count as nat,
            matter(after.tasks[id], now, None, None).decision().remaining as int,
        ),
{
    lemma_matter(after.tasks, id, now, None, None);
    lemma_near(after.tasks[id].budget);
    lemma_near(matter(after.tasks[id], now, None, None).decision().remaining);
    if session::answers_tick(after, ticked, tick, now, Ok(advice)) && session::resolved(
        after,
        tick.task_id,
    ) == Some(id) {
        let later = rules::ticked(after.tasks, id, now);
        lemma_matter(later, id, now, None, None);
        assert(later[id].runtime(now) == after.tasks[id].runtime(now));
        assert(matter(later[id], now, None, None) == matter(after.tasks[id], now, None, None));
    }
}

/// What an adjustment asks of the manager: the budget with what is added, without what is
/// removed, or the total that is set, and nothing else.
pub proof fn law_adjustments_ask_for_the_new_total(
    input: AdjustInput,
    id: Seq<char>,
    budget: nat,
    change: i128,
)
    requires
        budget <= MAX_NANOS,
        -0x1000_0000_0000_0000_0000_0000_0000 <= change <= 0x1000_0000_0000_0000_0000_0000_0000,
    ensures
        ({
            let a = session::adjust_request(input, id, budget);
            &&& a.id == id
            &&& a.mode is None
            &&& a.schedule is None
            &&& input.set_total_seconds is Some ==> a.budget == input.set_total_seconds
            &&& input.set_total_seconds is None && input.add_seconds == Some(
                Amount::Billionths(change),
            ) ==> a.budget == Some(Amount::Billionths((budget + change) as i128))
            &&& input.set_total_seconds is None && input.add_seconds is None
                && input.remove_seconds == Some(Amount::Billionths(change)) ==> a.budget == Some(
                Amount::Billionths((budget - change) as i128),
            )
            &&& input.set_total_seconds is None && input.add_seconds is None
                && input.remove_seconds is None ==> a.budget == Some(
                Amount::Billionths(budget as i128),
            )
        }),
{
}

/// What an adjustment asks of the manager where the change is no number of seconds: what
/// cannot be added makes the total, and what cannot be removed makes it with its sign
/// turned.
pub proof fn law_changes_that_are_no_numbers(input: AdjustInput, id: Seq<char>, budget: nat)
    requires
        input.set_total_seconds is None,
    ensures
        ({
            let a = session::adjust_request(input, id, budget);
            &&& input.add_seconds is Some && !(input.add_seconds->Some_0 is Billionths) ==> a.budget
                == input.add_seconds
            &&& input.add_seconds is None && input.remove_seconds == Some(Amount::NotANumber)
                ==> a.budget == Some(Amount::NotANumber)
            &&& input.add_seconds is None && input.remove_seconds == Some(Amount::Infinity)
                ==> a.budget == Some(Amount::NegativeInfinity)
            &&& input.add_seconds is None && input.remove_seconds == Some(
                Amount::NegativeInfinity,
            ) ==> a.budget == Some(Amount::Infinity)
        }),
{
}

/// Where more time is asked for than a task has, it depends on the host whether the manager
/// is asked. Otherwise it is always asked: without a store, what it does not refuse is
/// granted.
pub proof fn law_only_the_host_grants_more_time(
    before: Desk,
    after: Desk,
    input: AdjustInput,
    now: nat,
    r: Result<AdjustOutput, String>,
    id: Seq<char>,
    total: Amount,
)
    requires
        session::answers_adjustment(before, after, input, now, r),
        session::resolved(before, input.task_id) == Some(id),
        before.tasks.contains_key(id),
        before.tasks[id].budget <= MAX_NANOS,
        session::single(input),
        session::adjust_request(input, id, before.tasks[id].budget).budget == Some(total),
    ensures
        ({
            let more = match total {
                Amount::Billionths(nanos) => nanos > before.tasks[id].budget,
                Amount::Infinity => true,
                Amount::NotANumber => false,
                Amount::NegativeInfinity => false,
            };
            let refusal = rules::adjust_refusal(
                before.tasks,
                session::adjust_request(input, id, before.tasks[id].budget),
                now,
                crate::lifecycle::deadline_of(before.settings.host_deadline),
            );
            &&& more && !before.settings.allow_budget_increase ==> r is Err && r->Err_0@
                == "budget increase is disabled; only the host may grant more time"@ && after
                == before
            &&& !(more && !before.settings.allow_budget_increase) && before.store is None ==> {
                &&& r is Ok <==> refusal is None
                &&& r is Err ==> r->Err_0@ == refusal->Some_0.line() && after == before
            }
        }),
{
}

/// An adjustment does not reach the manager exactly when no task is meant, not exactly one
/// change is asked for, the task is unknown, or more time is asked for than the host lets
/// agents ask for.
pub proof fn law_adjustments_are_refused_for_cause(
    before: Desk,
    after: Desk,
    input: AdjustInput,
    now: nat,
    r: Result<AdjustOutput, String>,
)
    requires
        session::answers_adjustment(before, after, input, now, r),
    ensures
        ({
            let meant = session::resolved(before, input.task_id);
            let one = (input.add_seconds is Some && input.remove_seconds is None
                && input.set_total_seconds is None) || (input.add_seconds is None
                && input.remove_seconds is Some && input.set_total_seconds is None) || (
            input.add_seconds is None && input.remove_seconds is None && input.set_total_seconds
                is Some);
            &&& meant is None ==> r is Err && r->Err_0@ == "task_id required: no active task"@
            &&& meant is Some && !one ==> r is Err && r->Err_0@
                == "provide exactly one of add_seconds, remove_seconds, set_total_seconds"@
            &&& meant is Some && one && !before.tasks.contains_key(meant->Some_0) ==> r is Err
                && r->Err_0@ == Refusal::NotFound(meant->Some_0).line()
            &&& (meant matches Some(id) && one && before.tasks.contains_key(id)
                && !before.settings.allow_budget_increase && (session::adjust_request(
                input,
                id,
                before.tasks[id].budget,
            ).budget matches Some(Amount::Billionths(total)) && before.tasks[id].budget
                <= MAX_NANOS && total > before.tasks[id].budget)) ==> r is Err && r->Err_0@
                == "budget increase is disabled; only the host may grant more time"@
            &&& r is Ok ==> meant is Some && one && before.tasks.contains_key(meant->Some_0)
        }),
{
}

// ---------------------------------------------------------------------------
// Finishes

/// What is told of a finished task: how long it ran, its budget, what of that was not used
/// and what went beyond it, to the millisecond; its checkpoints; and whether it kept to the
/// budget.
pub proof fn law_finishes_tell_the_time(
    before: Desk,
    after: Desk,
    input: FinishInput,
    now: nat,
    out: FinishOutput,
    id: Seq<char>,
)
    requires
        session::answers_finish(before, after, input, now, Ok(out)),
        session::resolved(before, input.task_id) == Some(id),
    ensures
        ({
            let budget = before.tasks[id].budget as int;
            let runtime = before.tasks[id].runtime(now) as int;
            &&& near(out.elapsed_seconds.count as nat, runtime)
            &&& near(out.budget_seconds.count as nat, budget)
            &&& runtime <= budget ==> near(out.unused_seconds.count as nat, budget - runtime)
                && out.overrun_seconds.count == 0
            &&& runtime >= budget ==> near(out.overrun_seconds.count as nat, runtime - budget)
                && out.unused_seconds.count == 0
            &&& out.checkpoints == before.tasks[id].checkpoints
            &&& out.deadline_met <==> runtime <= budget + 1
            &&& after.active == if before.active == Some(id) {
                None
            } else {
                before.active
            }
        }),
{
    let t = before.tasks[id];
    lemma_near(t.runtime(now));
    lemma_near(t.budget);
    lemma_near(0);
    if t.runtime(now) <= t.budget {
        lemma_near((t.budget - t.runtime(now)) as nat);
    } else {
        lemma_near((t.runtime(now) - t.budget) as nat);
    }
}

/// What is told of a finished task adds up: for whole milliseconds, what was used and what
/// was not make up the budget and what went beyond it, and there is not some of both. A
/// runtime past the budget has an overrun.
pub proof fn law_finishes_add_up(
    before: Desk,
    after: Desk,
    input: FinishInput,
    now: nat,
    out: FinishOutput,
    id: Seq<char>,
    budget_ms: nat,
    runtime_ms: nat,
)
    requires
        session::answers_finish(before, after, input, now, Ok(out)),
        session::resolved(before, input.task_id) == Some(id),
        before.tasks[id].budget == 1_000_000 * budget_ms,
        before.tasks[id].runtime(now) == 1_000_000 * runtime_ms,
    ensures
        out.elapsed_seconds.count == runtime_ms,
        out.budget_seconds.count == budget_ms,
        out.elapsed_seconds.count + out.unused_seconds.count == out.budget_seconds.count
            + out.overrun_seconds.count,
        out.unused_seconds.count == 0 || out.overrun_seconds.count == 0,
        runtime_ms > budget_ms ==> out.overrun_seconds.count > 0 && !out.deadline_met,
        runtime_ms <= budget_ms ==> out.deadline_met,
{
    law_finishes_tell_the_time(before, after, input, now, out, id);
}

/// The share of the budget that was used is told to the nearest thousandth of a percent, or
/// none for a budget of nothing.
pub proof fn law_finishes_tell_the_share_used(
    before: Desk,
    after: Desk,
    input: FinishInput,
    now: nat,
    out: FinishOutput,
    id: Seq<char>,
)
    requires
        session::answers_finish(before, after, input, now, Ok(out)),
        session::resolved(before, input.task_id) == Some(id),
    ensures
        ({
            let budget = before.tasks[id].budget as int;
            let runtime = before.tasks[id].runtime(now) as int;
            &&& out.budget_used_percent is None <==> budget == 0
            &&& out.budget_used_percent matches Some(percent) ==> percent.count < u128::MAX
                ==> budget * (2 * percent.count - 1) <= 2 * (runtime * 100_000) <= budget * (2
                * percent.count + 1)
        }),
{
    let budget = before.tasks[id].budget as int;
    let runtime = before.tasks[id].runtime(now) as int;
    if budget > 0 {
        let n = runtime * 100_000 + budget / 2;
        policy_laws::lemma_floor(n, budget);
        let q = n / budget;
        assert(budget * (2 * q - 1) == 2 * (budget * q) - budget) by (nonlinear_arith);
        assert(budget * (2 * q + 1) == 2 * (budget * q) + budget) by (nonlinear_arith);
        assert(budget * (q + 1) == budget * q + budget) by (nonlinear_arith);
    }
}

/// A request to finish does not reach the manager exactly when it asks for force or no task
/// is meant. One that does is never forced.
pub proof fn law_finishes_are_refused_for_cause(
    before: Desk,
    after: Desk,
    input: FinishInput,
    now: nat,
    r: Result<FinishOutput, String>,
)
    requires
        session::answers_finish(before, after, input, now, r),
    ensures
        input.force ==> r is Err && r->Err_0@
            == "force is a host-only core privilege and cannot be requested over MCP"@,
        !input.force && session::resolved(before, input.task_id) is None ==> r is Err
            && r->Err_0@ == "task_id required: no active task"@,
        r is Ok ==> !input.force && (session::resolved(before, input.task_id) matches Some(id)
            && after.tasks == rules::finished(before.tasks, id, false, now)),
{
}

/// A request is about the task that it names, or else about the active one.
pub proof fn law_the_active_task_is_meant(desk: Desk, asked: Option<String>)
    ensures
        asked matches Some(id) ==> session::resolved(desk, asked) == Some(id@),
        asked is None ==> session::resolved(desk, asked) == desk.active,
{
}

/// A setting is switched on by `1`, and by `true` or `yes` in any case.
pub proof fn law_switches(value: Seq<char>)
    ensures
        session::switched_on(value) <==> value == "1"@ || text::lowered(value) == "true"@
            || text::lowered(value) == "yes"@,
{
}

// ---------------------------------------------------------------------------
// Refusals

/// A request that the rules refuse is answered with the refusal, in one line.
pub proof fn law_refusals_are_told(
    before: Desk,
    after: Desk,
    start: StartInput,
    tick: TickInput,
    checkpoint: CheckpointInput,
    adjust: AdjustInput,
    finish: FinishInput,
    id: Seq<char>,
    now: nat,
    started: Result<StartOutput, String>,
    ticked: Result<TickOutput, String>,
    recorded: Result<CheckpointOutput, String>,
    adjusted: Result<AdjustOutput, String>,
    finished: Result<FinishOutput, String>,
)
    ensures
        session::answers_start(before, after, start, id, now, started) ==> (rules::start_refusal(
            before.tasks,
            session::start_request(before.settings, start, id),
            now,
            crate::lifecycle::deadline_of(before.settings.host_deadline),
        ) matches Some(refusal) ==> started is Err && started->Err_0@ == refusal.line() && after
            == before),
        session::answers_tick(before, after, tick, now, ticked) ==> {
            let fault = advice::proposal_fault(
                names::text_of(tick.current_action),
                tick.current_action_estimated_seconds,
            );
            &&& fault matches Some(said) ==> ticked is Err && ticked->Err_0@ == said && after
                == before
            &&& fault is None && session::resolved(before, tick.task_id) is None ==> ticked is Err
                && ticked->Err_0@ == "task_id required: no active task"@ && after == before
            &&& fault is None ==> (session::resolved(before, tick.task_id) matches Some(meant) ==> (
            rules::tick_refusal(before.tasks, meant) matches Some(refusal) ==> ticked is Err
                && ticked->Err_0@ == refusal.line() && after == before))
        },
        session::answers_checkpoint(before, after, checkpoint, now, recorded) ==> {
            let fault = plan::plan_fault(
                plan::steps_of(checkpoint.plan_steps@),
                checkpoint.plan_complete,
            );
            match session::resolved(before, checkpoint.task_id) {
                None => recorded is Err && recorded->Err_0@ == "task_id required: no active task"@
                    && after == before,
                Some(meant) => {
                    &&& fault matches Some(said) ==> recorded is Err && recorded->Err_0@ == said
                        && after == before
                    &&& fault is None ==> (rules::checkpoint_refusal(
                        before.tasks,
                        session::checkpoint_request(checkpoint, meant),
                    ) matches Some(refusal) ==> recorded is Err && recorded->Err_0@
                        == refusal.line() && after == before)
                },
            }
        },
        session::answers_adjustment(before, after, adjust, now, adjusted)
            && session::adjust_fault(before, adjust) is None ==> (session::resolved(
            before,
            adjust.task_id,
        ) matches Some(meant) && (rules::adjust_refusal(
            before.tasks,
            session::adjust_request(adjust, meant, before.tasks[meant].budget),
            now,
            crate::lifecycle::deadline_of(before.settings.host_deadline),
        ) matches Some(refusal) ==> adjusted is Err && adjusted->Err_0@ == refusal.line() && after
            == before)),
        session::answers_finish(before, after, finish, now, finished) && !finish.force ==> (
        session::resolved(before, finish.task_id) matches Some(meant) ==> (rules::finish_refusal(
            before.tasks,
            meant,
            names::text_of(finish.reason),
            false,
        ) matches Some(refusal) ==> finished is Err && finished->Err_0@ == refusal.line() && after
            == before)),
{
}

/// What a checkpoint asks of the manager: the plan as note and estimate, if there are steps,
/// and else what is given.
pub proof fn law_checkpoints_hand_on_the_request(input: CheckpointInput, id: Seq<char>)
    ensures
        ({
            let c = session::checkpoint_request(input, id);
            let steps = plan::steps_of(input.plan_steps@);
            &&& c.id == id
            &&& c.plan_complete == input.plan_complete
            &&& c.replan == input.replan
            &&& c.progress is Some <==> input.progress_percent is Some
            &&& steps.len() == 0 ==> c.eta == input.estimated_remaining_work_seconds
            &&& steps.len() > 0 ==> c.eta == Some(
                plan::total(steps, steps.len() as int).spec_amount(),
            ) && c.note == Some(plan::plan_text(steps, steps.len() as int))
            &&& steps.len() == 0 && input.note is Some ==> c.note == Some(input.note->Some_0@)
        }),
{
}

/// What an adjustment changes: the one task's budget, to what the manager grants, and with
/// it the parent's reservation.
pub proof fn law_adjustments_change_the_budget(
    before: Desk,
    after: Desk,
    input: AdjustInput,
    now: nat,
    out: AdjustOutput,
    id: Seq<char>,
)
    requires
        session::answers_adjustment(before, after, input, now, Ok(out)),
        session::resolved(before, input.task_id) == Some(id),
    ensures
        ({
            let a = session::adjust_request(input, id, before.tasks[id].budget);
            let deadline = crate::lifecycle::deadline_of(before.settings.host_deadline);
            &&& after == (Desk {
                tasks: rules::adjusted(before.tasks, a, now, deadline),
                ..before
            })
            &&& out.clamped <==> (a.budget matches Some(Amount::Billionths(asked))
                && after.tasks[id].budget + 1 < asked)
        }),
{
}

/// What ticks, checkpoints and starts leave of the desk: the tasks change as their rules say,
/// a started task becomes the active one, and nothing else changes.
pub proof fn law_what_requests_leave(
    before: Desk,
    after: Desk,
    start: StartInput,
    tick: TickInput,
    checkpoint: CheckpointInput,
    id: Seq<char>,
    now: nat,
    started: StartOutput,
    ticked: TickOutput,
    recorded: CheckpointOutput,
)
    ensures
        session::answers_start(before, after, start, id, now, Ok(started)) ==> after == (Desk {
            tasks: rules::started(
                before.tasks,
                session::start_request(before.settings, start, id),
                now,
                crate::lifecycle::deadline_of(before.settings.host_deadline),
            ),
            active: Some(id),
            ..before
        }),
        session::answers_tick(before, after, tick, now, Ok(ticked)) ==> (session::resolved(
            before,
            tick.task_id,
        ) matches Some(meant) && after == (Desk {
            tasks: rules::ticked(before.tasks, meant, now),
            ..before
        })),
        session::answers_checkpoint(before, after, checkpoint, now, Ok(recorded)) ==> (
        session::resolved(before, checkpoint.task_id) matches Some(meant) && after == (Desk {
            tasks: rules::checkpointed(
                before.tasks,
                session::checkpoint_request(checkpoint, meant),
                now,
            ),
            ..before
        })),
        session::numbered(before) == (Desk {
            next_id: if before.next_id == u64::MAX {
                0
            } else {
                (before.next_id + 1) as u64
            },
            ..before
        }),
{
}

/// What is handed to the store is what is left where the change is kept. Without a store a
/// request changes the tasks exactly where it is granted.
pub proof fn law_stores_are_handed_what_is_left(
    before: Desk,
    after: Desk,
    start: StartInput,
    checkpoint: CheckpointInput,
    adjust: AdjustInput,
    finish: FinishInput,
    id: Seq<char>,
    now: nat,
    started: Result<StartOutput, String>,
    recorded: Result<CheckpointOutput, String>,
    adjusted: Result<AdjustOutput, String>,
    finished: Result<FinishOutput, String>,
)
    ensures
        session::answers_start(before, after, start, id, now, started) ==> {
            let change = session::start_change(before, start, id, now);
            &&& started is Ok ==> change == Some(after.tasks)
            &&& before.store is None && started is Err ==> change is None
            &&& session::start_change(session::numbered(before), start, id, now) == change
        },
        session::answers_checkpoint(before, after, checkpoint, now, recorded) ==> {
            let change = session::checkpoint_change(before, checkpoint, now);
            &&& recorded is Ok ==> change == Some(after.tasks)
            &&& before.store is None && recorded is Err ==> change is None
        },
        session::answers_adjustment(before, after, adjust, now, adjusted) ==> {
            let change = session::adjust_change(before, adjust, now);
            &&& adjusted is Ok ==> change == Some(after.tasks)
            &&& before.store is None && adjusted is Err ==> change is None
        },
        session::answers_finish(before, after, finish, now, finished) ==> {
            let change = session::finish_change(before, finish, now);
            &&& finished is Ok ==> change == Some(after.tasks)
            &&& before.store is None && finished is Err ==> change is None
        },
{
}

/// The policy's decision about a task, as [`advice::policy`] returns it: told progress and
/// estimate go first, and those of the last checkpoint count else.
pub proof fn law_what_is_advised_is_returned(
    view: TaskView,
    progress: Option<Amount>,
    eta: Option<Amount>,
    r: PolicyDecision,
)
    requires
        call_ensures(advice::policy, (&view, progress, eta), r),
        view.budget_secs@ <= MAX_NANOS,
        view.elapsed_secs@ <= MAX_NANOS,
    ensures
        ({
            let last = view@.last_checkpoint;
            let metadata = view@.metadata;
            r@ == (PolicyInput {
                total_secs: Amount::Billionths(view.budget_secs@ as i128),
                elapsed_secs: Amount::Billionths(view.elapsed_secs@ as i128),
                progress_percent: match (progress, last) {
                    (Some(told), _) => Some(told),
                    (None, Some(last)) => match last.progress {
                        Some(share) => Some(as_percent(share)),
                        None => None,
                    },
                    (None, None) => None,
                },
                estimated_remaining_work_secs: match (eta, last) {
                    (Some(told), _) => Some(told),
                    (None, Some(last)) => last.eta,
                    (None, None) => None,
                },
                validation_reserve_percent: if metadata.contains_key(
                    "validation_reserve_percent"@,
                ) {
                    decimal::parsed(metadata["validation_reserve_percent"@])
                } else {
                    None
                },
                finalization_reserve_percent: if metadata.contains_key(
                    "finalization_reserve_percent"@,
                ) {
                    decimal::parsed(metadata["finalization_reserve_percent"@])
                } else {
                    None
                },
            }).decision()
        }),
{
}

} // verus!
