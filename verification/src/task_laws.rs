//! What each request does to a task, and what is reported of it, in numbers of the task
//! and the request.

use crate::duration;
use crate::duration::{Duration, MAX_NANOS};
use crate::error::{Refusal, TaskError};
use crate::laws;
use crate::lifecycle;
use crate::manager;
use crate::names;
use crate::number::Amount;
use crate::policy_laws;
use crate::recovery;
use crate::registry::{Registry, Tasks};
use crate::rules;
use crate::schedule;
use crate::schedule::{Mode, Phase};
use crate::store::{Handed, Keeper};
use crate::task;
use crate::task::{
    AdjustTaskOutcome, Adjustment, Checkpoint, CheckpointOutcome, FinishTaskOutcome, PersistedState,
    Record, Start, StartTaskOutcome, State, TaskStatus, TaskTiming, TaskView, TickOutcome,
};
use crate::text;
use vstd::prelude::*;

verus! {

// ---------------------------------------------------------------------------
// Time

/// A task has run for what it had run before and for the time since it was taken up, and
/// for no more once it is finished.
pub proof fn law_runtimes(t: State, now: nat)
    ensures
        t.finished_elapsed matches Some(elapsed) ==> t.runtime(now) == elapsed,
        t.finished_elapsed is None && now >= t.started_at && t.base_elapsed + now - t.started_at
            <= MAX_NANOS ==> t.runtime(now) == t.base_elapsed + now - t.started_at,
        t.finished_elapsed is None && now < t.started_at && t.base_elapsed <= MAX_NANOS
            ==> t.runtime(now) == t.base_elapsed,
        t.finished_elapsed is None && now >= t.started_at && t.base_elapsed + now - t.started_at
            > MAX_NANOS ==> t.runtime(now) == MAX_NANOS,
{
}

/// The accounting of a runtime: up to the budget it is charged, and beyond it is overrun.
/// A nanosecond of that is forgiven.
pub proof fn law_timings(runtime: nat, budget: nat)
    ensures
        ({
            let timing = task::timing(runtime, budget);
            &&& timing.actual == runtime
            &&& timing.accounted + timing.overrun == runtime
            &&& timing.accounted <= budget
            &&& timing.overrun > 0 ==> timing.accounted == budget
            &&& timing.deadline_met <==> runtime <= budget + 1
        }),
{
}

/// Amounts of seconds as spans: those below zero are none, and those beyond the longest
/// span are that.
pub proof fn law_spans(amount: Amount)
    ensures
        match amount {
            Amount::Billionths(value) => {
                &&& value < 0 ==> amount.span() == 0
                &&& 0 <= value <= MAX_NANOS ==> amount.span() == value
                &&& value > MAX_NANOS ==> amount.span() == MAX_NANOS
            },
            Amount::Infinity => amount.span() == MAX_NANOS,
            _ => amount.span() == 0,
        },
        amount.positive() <==> (amount matches Amount::Billionths(value) && value > 0),
{
}

// ---------------------------------------------------------------------------
// Phases and profiles

/// Whether a phase has not ended after that time.
pub open spec fn lasts(phase: Phase, elapsed: nat) -> bool {
    phase.until == Amount::Infinity || (phase.until matches Amount::Billionths(until) && elapsed
        < until)
}

/// The phase in force is the first that has not ended, or else the last of all.
pub proof fn law_phases(phases: Seq<Phase>, elapsed: nat) -> (i: int)
    ensures
        phases.len() == 0 ==> schedule::phase_at(phases, elapsed) is None,
        phases.len() > 0 ==> {
            &&& 0 <= i < phases.len()
            &&& schedule::phase_at(phases, elapsed) == Some(phases[i])
            &&& forall|j: int| 0 <= j < i ==> !lasts(#[trigger] phases[j], elapsed)
            &&& lasts(phases[i], elapsed) || i == phases.len() - 1
        },
    decreases phases.len(),
{
    if phases.len() == 0 {
        0
    } else if phases.len() == 1 || lasts(phases[0], elapsed) {
        0
    } else {
        let rest = phases.drop_first();
        let k = law_phases(rest, elapsed);
        assert forall|j: int| 0 <= j < k + 1 implies !lasts(#[trigger] phases[j], elapsed) by {
            if j > 0 {
                assert(rest[j - 1] == phases[j]);
            }
        }
        assert(rest[k] == phases[k + 1]);
        k + 1
    }
}

/// The profiles: what share of the work they hold back, in percent, how often they tick, in
/// milliseconds, and their names.
pub proof fn law_profiles()
    ensures
        Mode::Balanced.ratio() == 12 * 10_000_000,
        Mode::Interactive.ratio() == 20 * 10_000_000,
        Mode::Deep.ratio() == 7 * 10_000_000,
        Mode::Deadline.ratio() == 25 * 10_000_000,
        Mode::Balanced.interval() == 1000 * 1_000_000,
        Mode::Interactive.interval() == 250 * 1_000_000,
        Mode::Deep.interval() == 2000 * 1_000_000,
        Mode::Deadline.interval() == 100 * 1_000_000,
        Mode::Balanced.name() == "balanced"@,
        Mode::Interactive.name() == "interactive"@,
        Mode::Deep.name() == "deep"@,
        Mode::Deadline.name() == "deadline"@,
        schedule::mode_named("balanced"@) == Some(Mode::Balanced),
        schedule::mode_named("normal"@) == Some(Mode::Balanced),
        schedule::mode_named("default"@) == Some(Mode::Balanced),
{
}

/// Every profile is found under its own name and under its other names, and nothing is
/// found under any other.
pub proof fn law_profiles_are_found_by_name(mode: Mode, name: Seq<char>)
    ensures
        schedule::mode_named(mode.name()) == Some(mode),
        schedule::mode_named("fast"@) == Some(Mode::Interactive),
        schedule::mode_named("thorough"@) == Some(Mode::Deep),
        schedule::mode_named("urgent"@) == Some(Mode::Deadline),
        schedule::mode_named(name) is Some ==> exists|m: Mode| name == #[trigger] m.name() || name
            == "normal"@ || name == "default"@ || name == "fast"@ || name == "thorough"@ || name
            == "urgent"@,
{
    reveal_strlit("balanced");
    reveal_strlit("normal");
    reveal_strlit("default");
    reveal_strlit("interactive");
    reveal_strlit("fast");
    reveal_strlit("deep");
    reveal_strlit("thorough");
    reveal_strlit("deadline");
    reveal_strlit("urgent");
    assert("balanced"@[0] == 'b' && "normal"@[0] == 'n' && "default"@[2] == 'f');
    assert("interactive"@[0] == 'i' && "fast"@[0] == 'f' && "deep"@.len() == 4);
    assert("thorough"@[0] == 't' && "deadline"@[2] == 'a' && "urgent"@[0] == 'u');
    assert("default"@.len() == 7 && "deadline"@.len() == 8);
    let m = match schedule::mode_named(name) {
        Some(m) => m,
        None => Mode::Balanced,
    };
    assert(m.name() == m.name());
}

/// A schedule is in order exactly when it ticks in some positive time, and every phase has a
/// name, ends after the one before it, holds back no more than 80 percent, and ticks in some
/// positive time. Only the last phase may last for ever.
pub proof fn law_schedules_in_order(timetable: schedule::Timetable)
    ensures
        timetable.fault() is None <==> {
            &&& timetable.tick_interval.positive()
            &&& forall|i: int|
                0 <= i < timetable.phases.len() ==> phase_in_order(timetable.phases, i)
        },
{
    if timetable.tick_interval.positive() {
        lemma_phases_in_order(timetable.phases, 0);
    }
}

/// The part of [`law_schedules_in_order`] that is about one phase.
pub open spec fn phase_in_order(phases: Seq<Phase>, i: int) -> bool {
    let phase = phases[i];
    &&& text::trimmed(phase.name).len() > 0
    &&& match phase.until {
        Amount::Billionths(until) => until > 0 && (i > 0 ==> (phases[i - 1].until matches
            Amount::Billionths(previous) ==> until > previous)),
        Amount::Infinity => i == phases.len() - 1,
        _ => false,
    }
    &&& phase.reserve_ratio matches Some(ratio) ==> (ratio matches Amount::Billionths(share) && 0
        <= share <= 800_000_000)
    &&& phase.tick_interval matches Some(interval) ==> interval.positive()
}

proof fn lemma_phases_in_order(phases: Seq<Phase>, from: int)
    requires
        0 <= from <= phases.len(),
        from > 0 ==> (phases[from - 1].until matches Amount::Billionths(previous) ==> previous > 0),
    ensures
        schedule::phases_fault(phases, from) is None <==> forall|i: int|
            from <= i < phases.len() ==> phase_in_order(phases, i),
    decreases phases.len() - from,
{
    if from < phases.len() {
        let fault = schedule::phase_fault(
            phases[from],
            schedule::previous_end(phases, from),
            from + 1 == phases.len(),
        );
        assert(fault is None <==> phase_in_order(phases, from));
        if fault is None {
            lemma_phases_in_order(phases, from + 1);
        }
    }
}

// ---------------------------------------------------------------------------
// Reports

/// The phase in force for a report: that of the time charged to the budget.
pub open spec fn phase_now(t: State, now: nat) -> Option<Phase> {
    schedule::phase_at(
        t.schedule.phases,
        if t.runtime(now) < t.budget {
            t.runtime(now)
        } else {
            t.budget
        },
    )
}

/// A report tells the time that was used of the budget, and what remains of it, first for
/// the children and then for the reserve, which is the profile's share or the phase's; the
/// rest is available. A task with no time left is reported as exhausted.
pub proof fn law_reports_tell_the_time(tasks: Tasks, id: Seq<char>, now: nat)
    requires
        tasks[id].budget <= MAX_NANOS,
    ensures
        ({
            let t = tasks[id];
            let view = rules::report(tasks, id, now);
            let runtime = t.runtime(now);
            let work: int = if view.remaining > t.child_reserved {
                view.remaining - t.child_reserved
            } else {
                0
            };
            let phase = phase_now(t, now);
            let ratio: int = match phase {
                Some(Phase { reserve_ratio: Some(Amount::Billionths(share)), .. }) => if share
                    < 0 {
                    0
                } else if share > 1_000_000_000 {
                    1_000_000_000
                } else {
                    share as int
                },
                Some(Phase { reserve_ratio: Some(Amount::Infinity), .. }) => 1_000_000_000,
                Some(Phase { reserve_ratio: Some(_), .. }) => 0,
                _ => view.mode.ratio() as int,
            };
            &&& view.budget == t.budget
            &&& view.elapsed == if runtime < t.budget {
                runtime
            } else {
                t.budget
            }
            &&& view.elapsed + view.remaining == t.budget
            &&& view.child_reserved == t.child_reserved
            &&& view.available + view.reserve == work
            &&& t.status != TaskStatus::Active ==> view.reserve == 0
            &&& t.status == TaskStatus::Active ==> 1_000_000_000 * view.reserve <= work * ratio
                < 1_000_000_000 * (view.reserve + 1)
            &&& view.status == if t.status == TaskStatus::Active && view.remaining <= 1 {
                TaskStatus::Exhausted
            } else {
                t.status
            }
            &&& view.mode == match phase {
                Some(Phase { mode: Some(mode), .. }) => mode,
                _ => t.mode,
            }
            &&& view.phase == match phase {
                Some(phase) => Some(phase.name),
                None => None,
            }
        }),
{
    laws::law_reports_add_up(tasks, id, now);
    let t = tasks[id];
    let ratio = rules::effective_ratio(t.phase(now), t.mode);
    policy_laws::lemma_floor(t.work(now) as int * ratio as int, 1_000_000_000);
}

/// The work that a report recommends is what fits between two ticks, as the phase or else
/// the slower of schedule and profile has them, and is available; and none for a task that
/// is not active.
pub proof fn law_reports_recommend_a_ticks_work(tasks: Tasks, id: Seq<char>, now: nat)
    ensures
        ({
            let t = tasks[id];
            let view = rules::report(tasks, id, now);
            let interval = match phase_now(t, now) {
                Some(Phase { tick_interval: Some(interval), .. }) => interval.span(),
                _ => if t.schedule.tick_interval.span() > view.mode.interval() {
                    t.schedule.tick_interval.span()
                } else {
                    view.mode.interval()
                },
            };
            &&& view.status != TaskStatus::Active ==> view.recommended == 0
            &&& view.status == TaskStatus::Active ==> view.recommended <= interval
                && view.recommended <= view.available && (view.recommended == interval
                || view.recommended == view.available)
        }),
{
}

/// A report tells the rest as it is: of its children only those that are known.
pub proof fn law_reports_tell_the_task(tasks: Tasks, id: Seq<char>, now: nat, child: Seq<char>)
    ensures
        ({
            let t = tasks[id];
            let view = rules::report(tasks, id, now);
            &&& view.id == id
            &&& view.parent == t.parent
            &&& view.ticks == t.ticks
            &&& view.checkpoints == t.checkpoints
            &&& view.last_checkpoint == t.last_checkpoint
            &&& view.metadata == t.metadata
            &&& view.plan_submitted == t.plan_submitted
            &&& view.children.contains(child) <==> t.children.contains(child)
                && tasks.contains_key(child)
        }),
{
}

// ---------------------------------------------------------------------------
// Starts

/// Whether a name can be a task's: something but white space, in at most 256 bytes.
pub open spec fn nameable(id: Seq<char>) -> bool {
    text::trimmed(id).len() > 0 && text::byte_len(id) <= 256
}

/// A task can be the parent of a new one while it is active and has more than a nanosecond
/// of its budget left.
pub open spec fn can_have_children(t: State, now: nat) -> bool {
    t.status == TaskStatus::Active && t.runtime(now) + 1 < t.budget
}

/// Why a task is not started, in the order in which it is looked at: its name, its budget,
/// its schedule, whether it exists, its parent, what the parent has available, and the
/// host's deadline.
pub proof fn law_starts_are_refused_for_cause(
    tasks: Tasks,
    r: Start,
    now: nat,
    deadline: Option<nat>,
)
    ensures
        ({
            let refusal = rules::start_refusal(tasks, r, now, deadline);
            let named = nameable(r.id);
            let funded = r.budget matches Amount::Billionths(value) && value > 0;
            let planned = r.schedule.fault() is None;
            let fresh = !tasks.contains_key(r.id);
            let orphan = r.parent is None;
            let parent = r.parent->Some_0;
            let family = orphan || (tasks.contains_key(parent) && can_have_children(
                tasks[parent],
                now,
            ) && tasks[parent].available(now) > 1 && r.budget.span() > 1);
            let timely = deadline matches Some(end) ==> end > now + 1;
            &&& refusal is None <==> named && funded && planned && fresh && family && timely
            &&& !named ==> refusal == Some(
                Refusal::Invalid("task_id must be non-empty and at most 256 bytes"@),
            )
            &&& named && !funded ==> refusal == Some(
                Refusal::Invalid("budget_secs must be finite and > 0"@),
            )
            &&& named && funded && !planned ==> refusal == Some(
                Refusal::Invalid(r.schedule.fault()->Some_0),
            )
            &&& named && funded && planned && !fresh ==> refusal == Some(
                Refusal::AlreadyExists(r.id),
            )
            &&& named && funded && planned && fresh && !orphan ==> {
                &&& !tasks.contains_key(parent) ==> refusal == Some(
                    Refusal::ParentNotFound(parent),
                )
                &&& tasks.contains_key(parent) && !can_have_children(tasks[parent], now)
                    ==> refusal == Some(Refusal::ParentUnavailable(parent))
                &&& tasks.contains_key(parent) && can_have_children(tasks[parent], now)
                    && !family ==> refusal == Some(Refusal::BudgetExhausted(parent))
            }
            &&& named && funded && planned && fresh && family && !timely ==> refusal == Some(
                Refusal::BudgetExhausted(r.id),
            )
        }),
{
}

/// A new task gets the most that it asks for, its parent has available and the host's
/// deadline leaves.
pub proof fn law_starts_grant_the_most(tasks: Tasks, r: Start, now: nat, deadline: Option<nat>)
    ensures
        ({
            let budget = rules::granted(tasks, r, now, deadline);
            &&& budget <= r.budget.span()
            &&& r.parent matches Some(parent) ==> budget <= tasks[parent].available(now)
            &&& deadline matches Some(end) ==> budget == 0 || now + budget <= end
            &&& budget == r.budget.span() || (r.parent matches Some(parent) && budget
                == tasks[parent].available(now)) || (deadline matches Some(end) && (now + budget
                == end || now >= end && budget == 0))
        }),
{
}

/// A started task is new: active from now on, with what it asked for and nothing behind it.
/// Its parent has it among its children and its budget reserved; nothing else changes.
pub proof fn law_starts_make_new_tasks(
    tasks: Tasks,
    r: Start,
    now: nat,
    deadline: Option<nat>,
    other: Seq<char>,
)
    requires
        rules::start_refusal(tasks, r, now, deadline) is None,
    ensures
        ({
            let after = rules::started(tasks, r, now, deadline);
            let t = after[r.id];
            let phase = schedule::phase_at(r.schedule.phases, 0);
            &&& after.contains_key(other) <==> tasks.contains_key(other) || other == r.id
            &&& tasks.contains_key(other) && r.parent != Some(other) ==> after[other]
                == tasks[other]
            &&& t.budget == rules::granted(tasks, r, now, deadline)
            &&& t.parent == r.parent
            &&& t.mode == r.mode
            &&& t.schedule == r.schedule
            &&& t.metadata == r.metadata
            &&& t.status == TaskStatus::Active
            &&& t.started_at == now
            &&& t.base_elapsed == 0
            &&& t.finished_elapsed is None
            &&& t.last_phase == match phase {
                Some(phase) => Some(phase.name),
                None => None,
            }
            &&& t.child_reserved == 0
            &&& t.children.len() == 0 && t.children.finite()
            &&& t.ticks == 0
            &&& t.checkpoints == 0
            &&& t.last_checkpoint is None
            &&& t.progress is None
            &&& !t.plan_submitted
            &&& t.holds_reservation == (r.parent is Some)
            &&& r.parent matches Some(parent) ==> {
                &&& after[parent].children == tasks[parent].children.insert(r.id)
                &&& tasks[parent].child_reserved + t.budget <= MAX_NANOS
                    ==> after[parent].child_reserved == tasks[parent].child_reserved + t.budget
                &&& after[parent] == (State {
                    children: after[parent].children,
                    child_reserved: after[parent].child_reserved,
                    ..tasks[parent]
                })
            }
        }),
{
}

/// The answer to a start tells what was asked for and what was granted, whether that is
/// less, by more than a nanosecond, and the task as it is.
pub proof fn law_answers_to_starts(
    before: Tasks,
    after: Tasks,
    request: Start,
    now: nat,
    deadline: Option<nat>,
    store: Keeper,
    out: StartTaskOutcome,
)
    requires
        manager::answers_start(before, after, request, now, deadline, store, Ok(out)),
    ensures
        after == rules::started(before, request, now, deadline),
        out.requested_budget_secs == request.budget,
        out.effective_budget_secs@ == after[request.id].budget,
        out.clamped <==> (request.budget matches Amount::Billionths(asked)
            && out.effective_budget_secs@ + 1 < asked),
        out.task@ == rules::report(after, request.id, now),
{
}

// ---------------------------------------------------------------------------
// Ticks

/// Why a task is not ticked.
pub proof fn law_ticks_are_refused_for_cause(tasks: Tasks, id: Seq<char>)
    ensures
        ({
            let refusal = rules::tick_refusal(tasks, id);
            &&& !nameable(id) ==> refusal == Some(
                Refusal::Invalid("task_id must be non-empty and at most 256 bytes"@),
            )
            &&& nameable(id) && !tasks.contains_key(id) ==> refusal == Some(Refusal::NotFound(id))
            &&& nameable(id) && tasks.contains_key(id) && tasks[id].status
                == TaskStatus::Finished ==> refusal == Some(Refusal::NotActive(id))
            &&& nameable(id) && tasks.contains_key(id) && tasks[id].status
                != TaskStatus::Finished ==> refusal is None
        }),
{
}

/// A tick is counted, takes note of the phase that the runtime has reached, and of a budget
/// that is used up, but for a nanosecond. It tells the task, whether the phase is another
/// than was noted last, and the time.
pub proof fn law_answers_to_ticks(
    before: Tasks,
    after: Tasks,
    id: Seq<char>,
    now: nat,
    out: TickOutcome,
    timing: TaskTiming,
)
    requires
        manager::answers_tick(before, after, id, now, Ok((out, timing))),
    ensures
        ({
            let t = before[id];
            let phase = schedule::phase_at(t.schedule.phases, t.runtime(now));
            &&& after[id].last_phase == match phase {
                Some(phase) => Some(phase.name),
                None => None,
            }
            &&& t.ticks < u64::MAX ==> after[id].ticks == t.ticks + 1
            &&& t.ticks == u64::MAX ==> after[id].ticks == t.ticks
            &&& after[id].status == if t.runtime(now) + 1 >= t.budget {
                TaskStatus::Exhausted
            } else {
                t.status
            }
            &&& after == before.insert(
                id,
                (State {
                    last_phase: after[id].last_phase,
                    ticks: after[id].ticks,
                    status: after[id].status,
                    ..t
                }),
            )
            &&& out.tick == after[id].ticks
            &&& out.phase_changed == (after[id].last_phase != t.last_phase)
            &&& out.task@ == rules::report(after, id, now)
            &&& timing.actual_elapsed_secs@ == t.runtime(now)
            &&& timing.accounted_elapsed_secs@ + timing.overrun_secs@ == t.runtime(now)
            &&& timing.accounted_elapsed_secs@ <= t.budget
            &&& timing.overrun_secs@ > 0 ==> timing.accounted_elapsed_secs@ == t.budget
            &&& timing.deadline_met <==> t.runtime(now) <= t.budget + 1
        }),
{
}

// ---------------------------------------------------------------------------
// Checkpoints

/// Why a checkpoint is not taken, in the order in which it is looked at: its task's name,
/// its note of more than 8192 bytes, a progress that is not from none to all, an estimate
/// that is not positive, a task that is unknown or finished, a missing plan, a plan of less
/// than 20 bytes or without estimate, and a progress that goes back by more than a billionth
/// without being replanned.
pub proof fn law_checkpoints_are_refused_for_cause(tasks: Tasks, c: Checkpoint)
    ensures
        ({
            let refusal = rules::checkpoint_refusal(tasks, c);
            let t = tasks[c.id];
            let long = c.note matches Some(note) && text::byte_len(note) > 8192;
            let odd = c.progress matches Some(progress) && !(progress matches Amount::Billionths(
                share,
            ) && 0 <= share <= 1_000_000_000);
            let idle = c.eta matches Some(eta) && !eta.positive();
            let sane = nameable(c.id) && !long && !odd && !idle;
            let open = tasks.contains_key(c.id) && t.status != TaskStatus::Finished;
            let unplanned = !t.plan_submitted && !c.plan_complete;
            let vague = c.plan_complete && !(c.note matches Some(note) && text::byte_len(
                text::trimmed(note),
            ) >= 20);
            let endless = c.plan_complete && c.eta is None;
            let back = !c.replan && (t.progress matches Some(Amount::Billionths(told)) && (
            c.progress matches Some(Amount::Billionths(share)) && share + 1 < told));
            &&& !nameable(c.id) ==> refusal == Some(
                Refusal::Invalid("task_id must be non-empty and at most 256 bytes"@),
            )
            &&& nameable(c.id) && long ==> refusal == Some(
                Refusal::Invalid("checkpoint note is too long"@),
            )
            &&& nameable(c.id) && !long && odd ==> refusal == Some(
                Refusal::Invalid("checkpoint progress must be between 0 and 1"@),
            )
            &&& nameable(c.id) && !long && !odd && idle ==> refusal == Some(
                Refusal::Invalid("estimated_remaining_work_secs must be finite and > 0"@),
            )
            &&& sane && !tasks.contains_key(c.id) ==> refusal == Some(Refusal::NotFound(c.id))
            &&& sane && tasks.contains_key(c.id) && !open ==> refusal == Some(
                Refusal::NotActive(c.id),
            )
            &&& sane && open && unplanned ==> refusal == Some(
                Refusal::Invalid("first checkpoint must submit a compact execution plan"@),
            )
            &&& sane && open && !unplanned && vague ==> refusal == Some(
                Refusal::Invalid("plan checkpoint requires a compact plan in note"@),
            )
            &&& sane && open && !unplanned && !vague && endless ==> refusal == Some(
                Refusal::Invalid("plan checkpoint requires estimated_remaining_work_secs > 0"@),
            )
            &&& sane && open && !unplanned && !vague && !endless && back ==> refusal == Some(
                Refusal::Invalid("progress cannot decrease unless replan=true"@),
            )
            &&& sane && open && !unplanned && !vague && !endless && !back && (c.replan
                || c.progress is None || t.progress is None || t.progress->Some_0 is Billionths)
                ==> refusal is None
        }),
{
}

/// A checkpoint that is taken is counted, and stays as the last one with the note, the
/// progress, the estimate and the plan flag that it was told, each as given, for plans and
/// for others. Nothing else changes but the progress that it tells and that there is a plan.
pub proof fn law_checkpoints_are_kept_as_given(tasks: Tasks, c: Checkpoint, now: nat)
    ensures
        ({
            let t = tasks[c.id];
            let after = rules::checkpointed(tasks, c, now);
            let count = after[c.id].checkpoints;
            &&& t.checkpoints < u64::MAX ==> count == t.checkpoints + 1
            &&& t.checkpoints == u64::MAX ==> count == u64::MAX
            &&& after == tasks.insert(
                c.id,
                (State {
                    checkpoints: count,
                    last_checkpoint: Some(
                        Record {
                            sequence: count,
                            elapsed: t.runtime(now),
                            note: c.note,
                            progress: c.progress,
                            eta: c.eta,
                            plan_complete: c.plan_complete,
                        },
                    ),
                    progress: if c.progress is None {
                        t.progress
                    } else {
                        c.progress
                    },
                    plan_submitted: t.plan_submitted || c.plan_complete,
                    ..t
                }),
            )
        }),
{
}

/// The answer to a checkpoint tells the checkpoint as it was kept, and the task as it is.
pub proof fn law_answers_to_checkpoints(
    before: Tasks,
    after: Tasks,
    request: Checkpoint,
    now: nat,
    store: Keeper,
    out: CheckpointOutcome,
)
    requires
        manager::answers_checkpoint(before, after, request, now, store, Ok(out)),
    ensures
        after == rules::checkpointed(before, request, now),
        Some(out.checkpoint@) == after[request.id].last_checkpoint,
        out.task@ == rules::report(after, request.id, now),
{
}

// ---------------------------------------------------------------------------
// Adjustments

/// What a parent can offer a child at `now` that gives back what it holds: what remains of
/// the parent's budget and is not reserved for others, without the share that is held back
/// in the phase that the parent's runtime has reached. The share is rounded down.
pub proof fn law_offers(parent: State, given_back: nat, now: nat)
    requires
        parent.budget <= MAX_NANOS,
        given_back <= parent.child_reserved,
    ensures
        ({
            let runtime = parent.runtime(now);
            let rest: int = if runtime < parent.budget {
                parent.budget - runtime - (parent.child_reserved - given_back)
            } else {
                -(parent.child_reserved - given_back)
            };
            let work = if rest > 0 {
                rest
            } else {
                0
            };
            let phase = schedule::phase_at(parent.schedule.phases, runtime);
            let ratio = rules::effective_ratio(phase, parent.mode) as int;
            let offer = rules::offer(parent, given_back, now);
            &&& offer <= work
            &&& 1_000_000_000 * (work - offer) <= work * ratio < 1_000_000_000 * (work - offer + 1)
        }),
{
    let runtime = parent.runtime(now);
    let remaining = duration::less(parent.budget, runtime);
    let work = duration::clip(remaining + given_back - parent.child_reserved);
    let phase = schedule::phase_at(parent.schedule.phases, runtime);
    let ratio = rules::effective_ratio(phase, parent.mode);
    policy_laws::lemma_floor(work as int * ratio as int, 1_000_000_000);
    assert(work * ratio <= work * 1_000_000_000) by (nonlinear_arith)
        requires
            ratio <= 1_000_000_000,
            work >= 0,
    ;
}

/// The share that is held back: the phase's own, from none to all of a billion parts, or
/// else that of the profile in force.
pub proof fn law_shares(phase: Option<Phase>, mode: Mode)
    ensures
        ({
            let ratio = rules::effective_ratio(phase, mode);
            match phase {
                Some(Phase { reserve_ratio: Some(Amount::Billionths(share)), .. }) => {
                    &&& share < 0 ==> ratio == 0
                    &&& 0 <= share <= 1_000_000_000 ==> ratio == share
                    &&& share > 1_000_000_000 ==> ratio == 1_000_000_000
                },
                Some(Phase { reserve_ratio: None, mode: Some(own), .. }) => ratio == own.ratio(),
                Some(Phase { reserve_ratio: None, mode: None, .. }) => ratio == mode.ratio(),
                None => ratio == mode.ratio(),
                _ => ratio <= 1_000_000_000,
            }
        }),
{
}

/// A task that asks for another budget gets the most that it asks for, that its parent can
/// offer and that ends by the host's deadline.
pub proof fn law_adjustments_grant_the_most(
    tasks: Tasks,
    a: Adjustment,
    now: nat,
    deadline: Option<nat>,
)
    requires
        tasks[a.id].base_elapsed <= MAX_NANOS,
    ensures
        ({
            let t = tasks[a.id];
            let budget = rules::adjusted_budget(tasks, a, now, deadline);
            let held = if t.holds_reservation {
                t.budget
            } else {
                0
            };
            let offered = rules::offer(tasks[t.parent->Some_0], held, now);
            let until: int = t.base_elapsed + if deadline->Some_0 > t.started_at {
                deadline->Some_0 - t.started_at
            } else {
                0
            };
            &&& a.budget is None ==> budget == t.budget
            &&& a.budget matches Some(asked) ==> {
                &&& budget <= asked.span()
                &&& t.parent is Some ==> budget <= offered
                &&& deadline is Some ==> budget <= until
                &&& budget == asked.span() || (t.parent is Some && budget == offered) || (deadline
                    is Some && (budget == until || until > MAX_NANOS && budget == MAX_NANOS))
            }
        }),
{
}

/// Why a task is not adjusted, in the order in which it is looked at: its name, an
/// adjustment of nothing, a budget that is not positive, a schedule out of order, a task
/// that is unknown or finished, a budget below the runtime, an unknown parent, a parent
/// that cannot offer the runtime, and a deadline that leaves less than it. A nanosecond is
/// forgiven.
pub proof fn law_adjustments_are_refused_for_cause(
    tasks: Tasks,
    a: Adjustment,
    now: nat,
    deadline: Option<nat>,
)
    ensures
        ({
            let refusal = rules::adjust_refusal(tasks, a, now, deadline);
            let t = tasks[a.id];
            let runtime = t.runtime(now);
            let empty = a.budget is None && a.mode is None && a.schedule is None;
            let unfunded = a.budget matches Some(asked) && !asked.positive();
            let unplanned = a.schedule matches Some(timetable) && timetable.fault() is Some;
            let sane = nameable(a.id) && !empty && !unfunded && !unplanned;
            let open = tasks.contains_key(a.id) && t.status != TaskStatus::Finished;
            let short = a.budget matches Some(Amount::Billionths(asked)) && asked + 1 < runtime;
            let lost = t.parent matches Some(parent) && !tasks.contains_key(parent);
            let poor = a.budget is Some && t.parent is Some && rules::adjusted_budget(
                tasks,
                a,
                now,
                None,
            ) + 1 < runtime;
            let late = a.budget is Some && deadline is Some && rules::adjusted_budget(
                tasks,
                a,
                now,
                deadline,
            ) + 1 < runtime;
            &&& !nameable(a.id) ==> refusal == Some(
                Refusal::Invalid("task_id must be non-empty and at most 256 bytes"@),
            )
            &&& nameable(a.id) && empty ==> refusal == Some(Refusal::EmptyAdjustment)
            &&& nameable(a.id) && !empty && unfunded ==> refusal == Some(
                Refusal::Invalid("budget_secs must be finite and > 0"@),
            )
            &&& nameable(a.id) && !empty && !unfunded && unplanned ==> refusal == Some(
                Refusal::Invalid(a.schedule->Some_0.fault()->Some_0),
            )
            &&& sane && !tasks.contains_key(a.id) ==> refusal == Some(Refusal::NotFound(a.id))
            &&& sane && tasks.contains_key(a.id) && !open ==> refusal == Some(
                Refusal::NotActive(a.id),
            )
            &&& sane && open && short ==> refusal == Some(
                Refusal::Invalid("new budget cannot be less than elapsed runtime"@),
            )
            &&& sane && open && !short && lost ==> refusal == Some(
                Refusal::ParentNotFound(t.parent->Some_0),
            )
            &&& sane && open && !short && !lost && poor ==> refusal == Some(
                Refusal::BudgetExhausted(t.parent->Some_0),
            )
            &&& sane && open && !short && !lost && !poor && late ==> refusal == Some(
                Refusal::BudgetExhausted(a.id),
            )
            &&& sane && open && !short && !lost && !poor && !late ==> refusal is None
        }),
{
}

/// The answer to an adjustment tells what was asked for and what the budget is now, whether
/// that is less, by more than a nanosecond, and the task as it is.
pub proof fn law_answers_to_adjustments(
    before: Tasks,
    after: Tasks,
    request: Adjustment,
    now: nat,
    deadline: Option<nat>,
    store: Keeper,
    out: AdjustTaskOutcome,
)
    requires
        manager::answers_adjustment(before, after, request, now, deadline, store, Ok(out)),
    ensures
        after == rules::adjusted(before, request, now, deadline),
        out.requested_budget_secs == request.budget,
        out.effective_budget_secs@ == after[request.id].budget,
        out.clamped <==> (request.budget matches Some(Amount::Billionths(asked))
            && out.effective_budget_secs@ + 1 < asked),
        out.task@ == rules::report(after, request.id, now),
{
}

// ---------------------------------------------------------------------------
// Finishes

/// Why a task is not finished, in the order in which it is looked at: its name, a reason of
/// more than 8192 bytes, an unknown task, active children without force, and one that is
/// finished.
pub proof fn law_finishes_are_refused_for_cause(
    tasks: Tasks,
    id: Seq<char>,
    reason: Option<Seq<char>>,
    force: bool,
)
    ensures
        ({
            let refusal = rules::finish_refusal(tasks, id, reason, force);
            let long = reason matches Some(text) && text::byte_len(text) > 8192;
            let busy = !force && exists|child: Seq<char>| #[trigger]
                tasks[id].children.contains(child) && tasks.contains_key(child)
                    && tasks[child].status == TaskStatus::Active;
            let known = nameable(id) && !long && tasks.contains_key(id);
            &&& !nameable(id) ==> refusal == Some(
                Refusal::Invalid("task_id must be non-empty and at most 256 bytes"@),
            )
            &&& nameable(id) && long ==> refusal == Some(
                Refusal::Invalid("finish reason is too long"@),
            )
            &&& nameable(id) && !long && !tasks.contains_key(id) ==> refusal == Some(
                Refusal::NotFound(id),
            )
            &&& known && busy ==> refusal == Some(Refusal::ActiveChildren(id))
            &&& known && !busy && tasks[id].status == TaskStatus::Finished ==> refusal == Some(
                Refusal::NotActive(id),
            )
            &&& known && !busy && tasks[id].status != TaskStatus::Finished ==> refusal is None
        }),
{
    if !force && exists|child: Seq<char>| #[trigger]
        tasks[id].children.contains(child) && tasks.contains_key(child) && tasks[child].status
            == TaskStatus::Active {
        let child = choose|child: Seq<char>| #[trigger]
            tasks[id].children.contains(child) && tasks.contains_key(child)
                && tasks[child].status == TaskStatus::Active;
        assert(rules::active_children(tasks, id).contains(child));
    }
}

/// A finished task keeps its runtime for good and has no children any more; those that
/// were active go on by themselves. Its parent has it no longer. Nothing else changes.
pub proof fn law_finishes_end_tasks(
    tasks: Tasks,
    id: Seq<char>,
    reason: Option<Seq<char>>,
    force: bool,
    now: nat,
    other: Seq<char>,
)
    requires
        rules::finish_refusal(tasks, id, reason, force) is None,
        tasks.contains_key(other),
        other != id,
        tasks[id].parent != Some(id),
        !tasks[id].children.contains(id),
    ensures
        ({
            let t = tasks[id];
            let after = rules::finished(tasks, id, force, now);
            let freed = t.children.contains(other) && tasks[other].status == TaskStatus::Active;
            &&& after.dom() =~= tasks.dom()
            &&& after[id].status == TaskStatus::Finished
            &&& after[id].finished_elapsed == Some(t.runtime(now))
            &&& after[id].children.len() == 0 && after[id].children.finite()
            &&& !after[id].holds_reservation
            &&& after[id] == (State {
                status: TaskStatus::Finished,
                finished_elapsed: after[id].finished_elapsed,
                children: after[id].children,
                forgone: after[id].forgone,
                holds_reservation: false,
                ..t
            })
            &&& freed ==> after[other].parent is None && !after[other].holds_reservation
            &&& !freed ==> after[other].parent == tasks[other].parent
                && after[other].holds_reservation == tasks[other].holds_reservation
            &&& t.parent == Some(other) ==> after[other].children =~= tasks[other].children.remove(
                id,
            )
            &&& t.parent != Some(other) ==> after[other].children == tasks[other].children
                && after[other].child_reserved == tasks[other].child_reserved
            &&& after[other] == (State {
                parent: after[other].parent,
                holds_reservation: after[other].holds_reservation,
                children: after[other].children,
                child_reserved: after[other].child_reserved,
                ..tasks[other]
            })
        }),
{
    let gone = rules::active_children(tasks, id);
    assert(gone.contains(other) <==> tasks[id].children.contains(other) && tasks[other].status
        == TaskStatus::Active);
    let free = rules::released(tasks, id, force);
    assert(free.dom() =~= tasks.dom());
    assert(!gone.contains(id));
    assert(rules::finished(tasks, id, force, now).dom() =~= tasks.dom());
}

/// The answer to a finish tells the reason, how long the task ran and how much longer than
/// its budget, and the task, for which the elapsed time is all that it ran.
pub proof fn law_answers_to_finishes(
    before: Tasks,
    after: Tasks,
    id: Seq<char>,
    reason: Option<Seq<char>>,
    force: bool,
    now: nat,
    store: Keeper,
    out: FinishTaskOutcome,
)
    requires
        manager::answers_finish(before, after, id, reason, force, now, store, Ok(out)),
        before[id].parent != Some(id),
    ensures
        after == rules::finished(before, id, force, now),
        names::text_of(out.reason) == reason,
        out.actual_elapsed_secs@ == before[id].runtime(now),
        before[id].runtime(now) <= before[id].budget ==> out.overrun_secs@ == 0,
        before[id].runtime(now) > before[id].budget ==> out.overrun_secs@
            == before[id].runtime(now) - before[id].budget,
        out.task@ == (task::Report {
            elapsed: before[id].runtime(now),
            ..rules::report(after, id, now)
        }),
{
}

// ---------------------------------------------------------------------------
// Answers that nothing changes

/// However the store answers, a request that fails leaves all tasks as they were, and one
/// that succeeds has made its change.
pub proof fn law_failed_requests_change_nothing(
    before: Tasks,
    after: Tasks,
    start: Start,
    checkpoint: Checkpoint,
    adjust: Adjustment,
    id: Seq<char>,
    reason: Option<Seq<char>>,
    force: bool,
    now: nat,
    deadline: Option<nat>,
    store: Keeper,
    e: TaskError,
)
    requires
        ({
            ||| manager::answers_start(before, after, start, now, deadline, store, Err(e))
            ||| manager::answers_tick(before, after, id, now, Err(e))
            ||| manager::answers_checkpoint(before, after, checkpoint, now, store, Err(e))
            ||| manager::answers_adjustment(before, after, adjust, now, deadline, store, Err(e))
            ||| manager::answers_finish(before, after, id, reason, force, now, store, Err(e))
        }),
    ensures
        after == before,
{
}

/// Without a store no request fails that is in order.
pub proof fn law_without_a_store_nothing_is_lost(tasks: Tasks, now: nat, e: Refusal)
    ensures
        !manager::unsaved(None, tasks, now, e),
        manager::answers_save(None, tasks, now, Ok(())),
{
}

/// Each refusal is told in one line.
pub proof fn law_refusals_are_told(said: Seq<char>)
    ensures
        Refusal::Invalid(said).line() == "invalid request: "@ + said,
        Refusal::AlreadyExists(said).line() == "task already exists: "@ + said,
        Refusal::NotFound(said).line() == "task not found: "@ + said,
        Refusal::NotActive(said).line() == "task is not active: "@ + said,
        Refusal::ParentNotFound(said).line() == "parent task not found: "@ + said,
        Refusal::ParentUnavailable(said).line() == "parent task unavailable: "@ + said,
        Refusal::BudgetExhausted(said).line() == "no budget available for task: "@ + said,
        Refusal::ActiveChildren(said).line() == "task has active children: "@ + said,
        Refusal::EmptyAdjustment.line() == "adjustment did not change anything"@,
        Refusal::Persistence(said).line() == "persistence error: "@ + said,
        Refusal::CorruptSnapshot(said).line() == "corrupt snapshot: "@ + said,
{
}

/// A request that succeeds has changed the tasks as it is to, and its store has taken a
/// snapshot of them; one that fails though it is in order tells why the store did not.
pub proof fn law_changes_are_saved(
    before: Tasks,
    after: Tasks,
    start: Start,
    checkpoint: Checkpoint,
    adjust: Adjustment,
    id: Seq<char>,
    reason: Option<Seq<char>>,
    force: bool,
    now: nat,
    deadline: Option<nat>,
    store: Keeper,
    started: Result<StartTaskOutcome, TaskError>,
    recorded: Result<CheckpointOutcome, TaskError>,
    adjusted: Result<AdjustTaskOutcome, TaskError>,
    finished: Result<FinishTaskOutcome, TaskError>,
)
    requires
        store is Some,
    ensures
        manager::answers_start(before, after, start, now, deadline, store, started) ==> {
            &&& started is Ok ==> taken_by(store, after, now)
            &&& started is Err && rules::start_refusal(before, start, now, deadline) is None
                ==> left_by(
                store,
                rules::started(before, start, now, deadline),
                now,
                started->Err_0@,
            )
        },
        manager::answers_checkpoint(before, after, checkpoint, now, store, recorded) ==> {
            &&& recorded is Ok ==> taken_by(store, after, now)
            &&& recorded is Err && rules::checkpoint_refusal(before, checkpoint) is None
                ==> left_by(
                store,
                rules::checkpointed(before, checkpoint, now),
                now,
                recorded->Err_0@,
            )
        },
        manager::answers_adjustment(before, after, adjust, now, deadline, store, adjusted) ==> {
            &&& adjusted is Ok ==> taken_by(store, after, now)
            &&& adjusted is Err && rules::adjust_refusal(before, adjust, now, deadline) is None
                ==> left_by(
                store,
                rules::adjusted(before, adjust, now, deadline),
                now,
                adjusted->Err_0@,
            )
        },
        manager::answers_finish(before, after, id, reason, force, now, store, finished) ==> {
            &&& finished is Ok ==> taken_by(store, after, now)
            &&& finished is Err && rules::finish_refusal(before, id, reason, force) is None
                ==> left_by(
                store,
                rules::finished(before, id, force, now),
                now,
                finished->Err_0@,
            )
        },
{
}

/// Whether the store may have taken a snapshot of those tasks.
pub open spec fn taken_by(store: Keeper, tasks: Tasks, now: nat) -> bool {
    exists|state: PersistedState| #[trigger]
        recovery::holds(state, tasks, now) && store->Some_0.takes(state, Ok(()))
}

/// Whether the store may have left a snapshot of those tasks for the reason that is told.
pub open spec fn left_by(store: Keeper, tasks: Tasks, now: nat, told: Refusal) -> bool {
    exists|state: PersistedState, why: String| #[trigger]
        recovery::holds(state, tasks, now) && #[trigger] store->Some_0.takes(state, Err(why))
            && told == Refusal::Persistence(why@)
}

/// What is told of a schedule that is out of order.
pub proof fn law_schedules_out_of_order(phase: Phase, previous: int, last: bool)
    ensures
        ({
            let fault = schedule::phase_fault(phase, previous, last);
            let named = text::trimmed(phase.name).len() > 0;
            let ends = match phase.until {
                Amount::Billionths(until) => until > previous,
                Amount::Infinity => last,
                _ => false,
            };
            let holds = phase.reserve_ratio matches Some(ratio) ==> (ratio matches
                Amount::Billionths(share) && 0 <= share <= 800_000_000);
            let ticks = phase.tick_interval matches Some(interval) ==> interval.positive();
            &&& fault is None <==> named && ends && holds && ticks
            &&& !named ==> fault == Some("schedule phase name cannot be empty"@)
            &&& named && !ends ==> fault == Some(
                "schedule phase until_secs must be finite and strictly increasing"@,
            )
            &&& named && ends && !holds ==> fault == Some(
                "schedule reserve_ratio must be between 0 and 0.80"@,
            )
            &&& named && ends && holds && !ticks ==> fault == Some(
                "schedule phase tick_interval_secs must be > 0"@,
            )
        }),
{
}

/// A schedule that ticks in no positive time is refused for that first of all.
pub proof fn law_schedules_tick(timetable: schedule::Timetable)
    ensures
        !timetable.tick_interval.positive() ==> timetable.fault() == Some(
            "schedule tick_interval_secs must be > 0"@,
        ),
{
}

// ---------------------------------------------------------------------------
// Questions

/// A question for a task is answered with its report, or with that it is not known.
pub proof fn law_answers_to_questions(
    tasks: Tasks,
    id: Seq<char>,
    now: nat,
    r: Result<TaskView, TaskError>,
)
    requires
        manager::answers_get(tasks, id, now, r),
    ensures
        tasks.contains_key(id) <==> r is Ok,
        r is Ok ==> r->Ok_0@ == rules::report(tasks, id, now),
        r is Err ==> r->Err_0@ == Refusal::NotFound(id),
{
}

/// A question for a task's time is answered with it, for finished tasks too, or with what is
/// wrong with the name.
pub proof fn law_answers_to_questions_for_time(
    tasks: Tasks,
    id: Seq<char>,
    now: nat,
    r: Result<TaskTiming, TaskError>,
)
    requires
        manager::answers_timing(tasks, id, now, r),
    ensures
        r is Ok <==> nameable(id) && tasks.contains_key(id),
        r is Ok ==> {
            let timing = r->Ok_0;
            let runtime = tasks[id].runtime(now);
            &&& timing.actual_elapsed_secs@ == runtime
            &&& timing.accounted_elapsed_secs@ + timing.overrun_secs@ == runtime
            &&& timing.accounted_elapsed_secs@ <= tasks[id].budget
            &&& timing.overrun_secs@ > 0 ==> timing.accounted_elapsed_secs@ == tasks[id].budget
            &&& timing.deadline_met <==> runtime <= tasks[id].budget + 1
        },
        !nameable(id) ==> r is Err && r->Err_0@ == Refusal::Invalid(
            "task_id must be non-empty and at most 256 bytes"@,
        ),
        nameable(id) && !tasks.contains_key(id) ==> r is Err && r->Err_0@ == Refusal::NotFound(id),
{
}

/// A list of all tasks reports each of them once, in ascending order of names.
pub proof fn law_answers_to_questions_for_all(
    tasks: Tasks,
    now: nat,
    views: Seq<TaskView>,
    id: Seq<char>,
)
    requires
        lifecycle::tells_all(tasks, now, views),
    ensures
        forall|i: int, j: int|
            0 <= i < j < views.len() ==> text::before(
                (#[trigger] views[i]).task_id@,
                (#[trigger] views[j]).task_id@,
            ),
        tasks.contains_key(id) <==> exists|i: int|
            0 <= i < views.len() && (#[trigger] views[i]).task_id@ == id,
        forall|i: int|
            0 <= i < views.len() ==> (#[trigger] views[i])@ == rules::report(
                tasks,
                views[i].task_id@,
                now,
            ),
{
    let ids = lifecycle::report_ids(views);
    assert forall|i: int, j: int| 0 <= i < j < views.len() implies text::before(
        (#[trigger] views[i]).task_id@,
        (#[trigger] views[j]).task_id@,
    ) by {
        assert(ids[i] == views[i].task_id@ && ids[j] == views[j].task_id@);
    }
    if ids.contains(id) {
        let k = choose|k: int| 0 <= k < ids.len() && ids[k] == id;
        assert(views[k].task_id@ == id);
    }
    if exists|i: int| 0 <= i < views.len() && (#[trigger] views[i]).task_id@ == id {
        let k = choose|i: int| 0 <= i < views.len() && (#[trigger] views[i]).task_id@ == id;
        assert(ids[k] == id);
    }
}

/// A request that changes the tasks hands its store one snapshot, of the tasks as it changes
/// them, and any other hands it none. The change is kept exactly when the store takes it.
pub proof fn law_stores_are_handed_the_change(
    store: Keeper,
    change: Option<Tasks>,
    now: nat,
    kept: bool,
    before: Seq<Handed>,
    after: Seq<Handed>,
)
    requires
        manager::asks_store(store, change, now, kept, before, after),
    ensures
        store is Some && change is Some ==> {
            &&& after.len() == before.len() + 1
            &&& after.drop_last() =~= before
            &&& recovery::holds(after.last().state, change->Some_0, now)
            &&& store->Some_0.takes(after.last().state, after.last().answer)
            &&& kept <==> after.last().answer is Ok
        },
        store is None || change is None ==> after == before,
{
}

/// Whether a task is done, and whether a finished one kept to its budget, as they are told.
pub proof fn law_what_is_done(view: TaskView, done: bool, out: FinishTaskOutcome, met: bool)
    requires
        call_ensures(TaskView::is_done, (&view,), done),
        call_ensures(FinishTaskOutcome::deadline_met, (&out,), met),
    ensures
        done <==> view.status != TaskStatus::Active,
        met <==> out.actual_elapsed_secs@ <= out.task.budget_secs@ + 1,
{
}

/// What a snapshot gives back is what [`recovery::recover`] returns.
pub proof fn law_what_is_recovered_is_returned(
    snapshot: PersistedState,
    now: Duration,
    now_unix_ms: u64,
    r: Result<Registry, TaskError>,
)
    requires
        call_ensures(recovery::recover, (&snapshot, now, now_unix_ms), r),
    ensures
        ({
            let list = task::saved_tasks(snapshot.tasks@);
            let passed = now_unix_ms - snapshot.saved_at_unix_ms;
            let downtime: nat = if passed > 0 {
                (1_000_000 * passed) as nat
            } else {
                0
            };
            let refusal = recovery::recover_refusal(snapshot.version, list, now@, downtime);
            &&& r is Ok <==> refusal is None
            &&& r is Ok ==> r->Ok_0@ == recovery::recovered(list, now@, downtime)
            &&& r is Err ==> refusal == Some(r->Err_0@)
        }),
{
}

} // verus!
