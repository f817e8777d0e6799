//! What each request does to the tasks, when it is refused, and what is reported.

use crate::duration;
use crate::duration::{BILLION, TOLERANCE};
use crate::error::Refusal;
use crate::number::Amount;
use crate::registry::Tasks;
use crate::schedule;
use crate::schedule::{Mode, Phase};
use crate::task;
use crate::task::{Adjustment, Checkpoint, Record, Report, Start, State, TaskStatus};
use crate::text;
use vstd::prelude::*;

verus! {

/// The longest identifier, in bytes.
pub const MAX_ID_LEN: usize = 256;

/// The longest note or reason, in bytes.
pub const MAX_NOTE_LEN: usize = 8192;

/// The shortest note that states a plan, in bytes.
pub const MIN_PLAN_LEN: usize = 20;

pub open spec fn valid_id(id: Seq<char>) -> bool {
    text::trimmed(id).len() > 0 && text::byte_len(id) <= MAX_ID_LEN
}

pub open spec fn bad_id() -> Refusal {
    Refusal::Invalid("task_id must be non-empty and at most 256 bytes"@)
}

pub open spec fn bad_budget() -> Refusal {
    Refusal::Invalid("budget_secs must be finite and > 0"@)
}

/// A share as a whole number of billionths, from none to all.
pub open spec fn share(ratio: Amount) -> nat {
    match ratio {
        Amount::NotANumber | Amount::NegativeInfinity => 0,
        Amount::Infinity => BILLION as nat,
        Amount::Billionths(value) => if value < 0 {
            0
        } else if value > BILLION {
            BILLION as nat
        } else {
            value as nat
        },
    }
}

/// The profile in force: the phase's own, or else the task's.
pub open spec fn effective_mode(phase: Option<Phase>, mode: Mode) -> Mode {
    match phase {
        Some(phase) => match phase.mode {
            Some(mode) => mode,
            None => mode,
        },
        None => mode,
    }
}

/// The share of the remaining work that is held back, in billionths.
pub open spec fn effective_ratio(phase: Option<Phase>, mode: Mode) -> nat {
    if phase is Some && phase->Some_0.reserve_ratio is Some {
        share(phase->Some_0.reserve_ratio->Some_0)
    } else {
        effective_mode(phase, mode).ratio()
    }
}

/// What is held back of `work` nanoseconds of remaining work.
pub open spec fn held_back(work: nat, ratio: nat) -> nat {
    duration::portion_of(work, ratio, BILLION as nat)
}

pub open spec fn phase_name(phase: Option<Phase>) -> Option<Seq<char>> {
    match phase {
        Some(phase) => Some(phase.name),
        None => None,
    }
}

impl State {
    /// The runtime charged against the budget.
    pub open spec fn elapsed(self, now: nat) -> nat {
        duration::min_nat(self.runtime(now), self.budget)
    }

    pub open spec fn remaining(self, now: nat) -> nat {
        duration::less(self.budget, self.elapsed(now))
    }

    pub open spec fn phase(self, now: nat) -> Option<Phase> {
        schedule::phase_at(self.schedule.phases, self.elapsed(now))
    }

    /// The remaining time that no child has reserved.
    pub open spec fn work(self, now: nat) -> nat {
        duration::less(self.remaining(now), self.child_reserved)
    }

    pub open spec fn reserve(self, now: nat) -> nat {
        if self.status == TaskStatus::Active {
            held_back(self.work(now), effective_ratio(self.phase(now), self.mode))
        } else {
            0
        }
    }

    /// The time that new work or a new child may take.
    pub open spec fn available(self, now: nat) -> nat {
        duration::less(self.work(now), self.reserve(now))
    }

    /// A task whose budget is used up counts as exhausted though no tick has noticed.
    pub open spec fn status_at(self, now: nat) -> TaskStatus {
        if self.status == TaskStatus::Active && self.remaining(now) <= TOLERANCE {
            TaskStatus::Exhausted
        } else {
            self.status
        }
    }

    pub open spec fn interval(self, now: nat) -> nat {
        let phase = self.phase(now);
        if phase is Some && phase->Some_0.tick_interval is Some {
            phase->Some_0.tick_interval->Some_0.span()
        } else {
            duration::max_nat(
                self.schedule.tick_interval.span(),
                effective_mode(phase, self.mode).interval(),
            )
        }
    }

    pub open spec fn recommended(self, now: nat) -> nat {
        if self.status_at(now) == TaskStatus::Active {
            duration::min_nat(self.interval(now), self.available(now))
        } else {
            0
        }
    }
}

/// What is reported of the task `id` at `now`.
pub open spec fn report(tasks: Tasks, id: Seq<char>, now: nat) -> Report {
    let t = tasks[id];
    Report {
        id,
        parent: t.parent,
        budget: t.budget,
        elapsed: t.elapsed(now),
        remaining: t.remaining(now),
        child_reserved: t.child_reserved,
        reserve: t.reserve(now),
        available: t.available(now),
        recommended: t.recommended(now),
        mode: effective_mode(t.phase(now), t.mode),
        phase: phase_name(t.phase(now)),
        status: t.status_at(now),
        ticks: t.ticks,
        checkpoints: t.checkpoints,
        last_checkpoint: t.last_checkpoint,
        children: t.children.intersect(tasks.dom()),
        metadata: t.metadata,
        plan_submitted: t.plan_submitted,
    }
}

/// The counter after one more event; it stops at its largest value.
pub open spec fn counted(n: u64) -> u64 {
    if n == u64::MAX {
        n
    } else {
        (n + 1) as u64
    }
}

// ---------------------------------------------------------------------------
// Starting

pub open spec fn start_refusal(tasks: Tasks, r: Start, now: nat, deadline: Option<nat>) -> Option<
    Refusal,
> {
    if !valid_id(r.id) {
        Some(bad_id())
    } else if !r.budget.positive() {
        Some(bad_budget())
    } else if r.schedule.fault() is Some {
        Some(Refusal::Invalid(r.schedule.fault()->Some_0))
    } else if tasks.contains_key(r.id) {
        Some(Refusal::AlreadyExists(r.id))
    } else if r.parent is Some && !tasks.contains_key(r.parent->Some_0) {
        Some(Refusal::ParentNotFound(r.parent->Some_0))
    } else if r.parent is Some && tasks[r.parent->Some_0].status_at(now) != TaskStatus::Active {
        Some(Refusal::ParentUnavailable(r.parent->Some_0))
    } else if r.parent is Some && duration::min_nat(
        r.budget.span(),
        tasks[r.parent->Some_0].available(now),
    ) <= TOLERANCE {
        Some(Refusal::BudgetExhausted(r.parent->Some_0))
    } else if deadline is Some && duration::less(deadline->Some_0, now) <= TOLERANCE {
        Some(Refusal::BudgetExhausted(r.id))
    } else {
        None
    }
}

/// The budget that a new task gets: what it asks for, at most what its parent has
/// available, and no more than is left until the host's deadline.
pub open spec fn granted(tasks: Tasks, r: Start, now: nat, deadline: Option<nat>) -> nat {
    let asked = r.budget.span();
    let offered = match r.parent {
        Some(parent) => duration::min_nat(asked, tasks[parent].available(now)),
        None => asked,
    };
    match deadline {
        Some(deadline) => duration::min_nat(offered, duration::less(deadline, now)),
        None => offered,
    }
}

/// Whether a budget falls short of what was asked for.
pub open spec fn falls_short(budget: nat, asked: Amount) -> bool {
    match asked {
        Amount::Billionths(value) => budget + TOLERANCE < value,
        Amount::Infinity => true,
        _ => false,
    }
}

pub open spec fn new_task(r: Start, budget: nat, now: nat) -> State {
    State {
        parent: r.parent,
        budget,
        mode: r.mode,
        schedule: r.schedule,
        metadata: r.metadata,
        status: TaskStatus::Active,
        started_at: now,
        base_elapsed: 0,
        finished_elapsed: None,
        last_phase: phase_name(schedule::phase_at(r.schedule.phases, 0)),
        child_reserved: 0,
        forgone: 0,
        holds_reservation: r.parent is Some,
        children: Set::empty(),
        ticks: 0,
        checkpoints: 0,
        last_checkpoint: None,
        progress: None,
        plan_submitted: false,
    }
}

/// The parent after a child has reserved `budget` of its time.
pub open spec fn with_child(parent: State, child: Seq<char>, budget: nat) -> State {
    State {
        children: parent.children.insert(child),
        child_reserved: duration::clip((parent.child_reserved + budget) as int),
        ..parent
    }
}

/// The tasks after `r` was started.
pub open spec fn started(tasks: Tasks, r: Start, now: nat, deadline: Option<nat>) -> Tasks {
    let budget = granted(tasks, r, now, deadline);
    let added = tasks.insert(r.id, new_task(r, budget, now));
    match r.parent {
        Some(parent) => added.insert(parent, with_child(added[parent], r.id, budget)),
        None => added,
    }
}

// ---------------------------------------------------------------------------
// Ticking

/// Why a task that is to be ticked, checkpointed or adjusted cannot be.
pub open spec fn access_refusal(tasks: Tasks, id: Seq<char>) -> Option<Refusal> {
    if !tasks.contains_key(id) {
        Some(Refusal::NotFound(id))
    } else if tasks[id].status == TaskStatus::Finished {
        Some(Refusal::NotActive(id))
    } else {
        None
    }
}

pub open spec fn tick_refusal(tasks: Tasks, id: Seq<char>) -> Option<Refusal> {
    if !valid_id(id) {
        Some(bad_id())
    } else {
        access_refusal(tasks, id)
    }
}

/// Why the time of a task cannot be told.
pub open spec fn timing_refusal(tasks: Tasks, id: Seq<char>) -> Option<Refusal> {
    if !valid_id(id) {
        Some(bad_id())
    } else if !tasks.contains_key(id) {
        Some(Refusal::NotFound(id))
    } else {
        None
    }
}

/// The name of the phase that the task's runtime has reached, past its budget too.
pub open spec fn reached_phase(t: State, now: nat) -> Option<Seq<char>> {
    phase_name(schedule::phase_at(t.schedule.phases, t.runtime(now)))
}

pub open spec fn ticked_task(t: State, now: nat) -> State {
    State {
        last_phase: reached_phase(t, now),
        ticks: counted(t.ticks),
        status: if t.runtime(now) + TOLERANCE >= t.budget {
            TaskStatus::Exhausted
        } else {
            t.status
        },
        ..t
    }
}

pub open spec fn ticked(tasks: Tasks, id: Seq<char>, now: nat) -> Tasks {
    tasks.insert(id, ticked_task(tasks[id], now))
}

// ---------------------------------------------------------------------------
// Checkpoints

pub open spec fn too_long(note: Option<Seq<char>>) -> bool {
    note is Some && text::byte_len(note->Some_0) > MAX_NOTE_LEN
}

/// Why a checkpoint is refused whatever the task is like.
pub open spec fn checkpoint_fault(c: Checkpoint) -> Option<Refusal> {
    if !valid_id(c.id) {
        Some(bad_id())
    } else if too_long(c.note) {
        Some(Refusal::Invalid("checkpoint note is too long"@))
    } else if c.progress is Some && !c.progress->Some_0.within(0, BILLION as int) {
        Some(Refusal::Invalid("checkpoint progress must be between 0 and 1"@))
    } else if c.eta is Some && !c.eta->Some_0.positive() {
        Some(Refusal::Invalid("estimated_remaining_work_secs must be finite and > 0"@))
    } else {
        None
    }
}

pub open spec fn states_plan(note: Option<Seq<char>>) -> bool {
    note is Some && text::byte_len(text::trimmed(note->Some_0)) >= MIN_PLAN_LEN
}

/// Whether `new` lies below `previous` by more than the tolerance.
pub open spec fn falls_behind(new: Amount, previous: Amount) -> bool {
    match (new, previous) {
        (Amount::Billionths(n), Amount::Billionths(p)) => n + TOLERANCE < p,
        (Amount::Billionths(_), Amount::Infinity) => true,
        _ => false,
    }
}

/// Whether a checkpoint tells less progress than the task has told so far.
pub open spec fn regresses(t: State, c: Checkpoint) -> bool {
    &&& c.progress is Some
    &&& t.progress is Some
    &&& falls_behind(c.progress->Some_0, t.progress->Some_0)
}

pub open spec fn checkpoint_refusal(tasks: Tasks, c: Checkpoint) -> Option<Refusal> {
    if checkpoint_fault(c) is Some {
        checkpoint_fault(c)
    } else if access_refusal(tasks, c.id) is Some {
        access_refusal(tasks, c.id)
    } else if !tasks[c.id].plan_submitted && !c.plan_complete {
        Some(Refusal::Invalid("first checkpoint must submit a compact execution plan"@))
    } else if c.plan_complete && !states_plan(c.note) {
        Some(Refusal::Invalid("plan checkpoint requires a compact plan in note"@))
    } else if c.plan_complete && c.eta is None {
        Some(Refusal::Invalid("plan checkpoint requires estimated_remaining_work_secs > 0"@))
    } else if regresses(tasks[c.id], c) && !c.replan {
        Some(Refusal::Invalid("progress cannot decrease unless replan=true"@))
    } else {
        None
    }
}

pub open spec fn new_record(t: State, c: Checkpoint, now: nat) -> Record {
    Record {
        sequence: counted(t.checkpoints),
        elapsed: t.runtime(now),
        note: c.note,
        progress: c.progress,
        eta: c.eta,
        plan_complete: c.plan_complete,
    }
}

pub open spec fn checkpointed(tasks: Tasks, c: Checkpoint, now: nat) -> Tasks {
    let t = tasks[c.id];
    tasks.insert(
        c.id,
        State {
            checkpoints: counted(t.checkpoints),
            last_checkpoint: Some(new_record(t, c, now)),
            progress: if c.progress is Some {
                c.progress
            } else {
                t.progress
            },
            plan_submitted: t.plan_submitted || c.plan_complete,
            ..t
        },
    )
}

// ---------------------------------------------------------------------------
// Adjusting

/// Whether an amount of seconds lies below a span by more than the tolerance.
pub open spec fn below(amount: Amount, span: nat) -> bool {
    match amount {
        Amount::Billionths(value) => value + TOLERANCE < span,
        Amount::NegativeInfinity => true,
        _ => false,
    }
}

/// What is reserved of the parent's time for a child with that budget: the budget, if it
/// holds a reservation.
pub open spec fn reserved_for(child: State, budget: nat) -> nat {
    if child.holds_reservation {
        budget
    } else {
        0
    }
}

/// What the parent could offer at `now` if the child gave back what it has reserved.
pub open spec fn offer(parent: State, given_back: nat, now: nat) -> nat {
    let runtime = parent.runtime(now);
    let remaining = duration::less(parent.budget, runtime);
    let work = duration::clip(remaining + given_back - parent.child_reserved);
    let phase = schedule::phase_at(parent.schedule.phases, runtime);
    duration::less(work, held_back(work, effective_ratio(phase, parent.mode)))
}

/// The budget with which the task ends at the host's deadline.
pub open spec fn budget_until(t: State, deadline: nat) -> nat {
    duration::clip((t.base_elapsed + duration::less(deadline, t.started_at)) as int)
}

/// The budget that a task gets when it asks for `asked`: no more than its parent can
/// offer, and none that ends after the host's deadline.
pub open spec fn regranted(
    tasks: Tasks,
    id: Seq<char>,
    asked: Amount,
    now: nat,
    deadline: Option<nat>,
) -> nat {
    let t = tasks[id];
    let offered = match t.parent {
        Some(parent) => duration::min_nat(
            asked.span(),
            offer(tasks[parent], reserved_for(t, t.budget), now),
        ),
        None => asked.span(),
    };
    match deadline {
        Some(deadline) => duration::min_nat(offered, budget_until(t, deadline)),
        None => offered,
    }
}

/// Why a task cannot get the budget that it asks for.
pub open spec fn budget_refusal(
    tasks: Tasks,
    id: Seq<char>,
    asked: Amount,
    now: nat,
    deadline: Option<nat>,
) -> Option<Refusal> {
    let t = tasks[id];
    let runtime = t.runtime(now);
    if below(asked, runtime) {
        Some(Refusal::Invalid("new budget cannot be less than elapsed runtime"@))
    } else if t.parent is Some && !tasks.contains_key(t.parent->Some_0) {
        Some(Refusal::ParentNotFound(t.parent->Some_0))
    } else if t.parent is Some && regranted(tasks, id, asked, now, None) + TOLERANCE < runtime {
        Some(Refusal::BudgetExhausted(t.parent->Some_0))
    } else if deadline is Some && regranted(tasks, id, asked, now, deadline) + TOLERANCE
        < runtime {
        Some(Refusal::BudgetExhausted(id))
    } else {
        None
    }
}

pub open spec fn adjust_refusal(tasks: Tasks, a: Adjustment, now: nat, deadline: Option<nat>) -> Option<
    Refusal,
> {
    if !valid_id(a.id) {
        Some(bad_id())
    } else if a.budget is None && a.mode is None && a.schedule is None {
        Some(Refusal::EmptyAdjustment)
    } else if a.budget is Some && !a.budget->Some_0.positive() {
        Some(bad_budget())
    } else if a.schedule is Some && a.schedule->Some_0.fault() is Some {
        Some(Refusal::Invalid(a.schedule->Some_0.fault()->Some_0))
    } else if access_refusal(tasks, a.id) is Some {
        access_refusal(tasks, a.id)
    } else if a.budget is Some {
        budget_refusal(tasks, a.id, a.budget->Some_0, now, deadline)
    } else if tasks[a.id].parent is Some && !tasks.contains_key(tasks[a.id].parent->Some_0) {
        Some(Refusal::ParentNotFound(tasks[a.id].parent->Some_0))
    } else {
        None
    }
}

/// The task's budget after the adjustment.
pub open spec fn adjusted_budget(
    tasks: Tasks,
    a: Adjustment,
    now: nat,
    deadline: Option<nat>,
) -> nat {
    match a.budget {
        Some(asked) => regranted(tasks, a.id, asked, now, deadline),
        None => tasks[a.id].budget,
    }
}

/// The parent after a child's reservation went from `from` to `to`.
pub open spec fn with_child_budget(parent: State, from: nat, to: nat) -> State {
    State { child_reserved: duration::clip(parent.child_reserved - from + to), ..parent }
}

pub open spec fn adjusted_task(t: State, a: Adjustment, budget: nat) -> State {
    State {
        budget,
        mode: match a.mode {
            Some(mode) => mode,
            None => t.mode,
        },
        schedule: match a.schedule {
            Some(schedule) => schedule,
            None => t.schedule,
        },
        ..t
    }
}

pub open spec fn adjusted(tasks: Tasks, a: Adjustment, now: nat, deadline: Option<nat>) -> Tasks {
    let t = tasks[a.id];
    let budget = adjusted_budget(tasks, a, now, deadline);
    let repaid = if a.budget is Some && t.parent is Some {
        tasks.insert(
            t.parent->Some_0,
            with_child_budget(
                tasks[t.parent->Some_0],
                reserved_for(t, t.budget),
                reserved_for(t, budget),
            ),
        )
    } else {
        tasks
    };
    repaid.insert(a.id, adjusted_task(repaid[a.id], a, budget))
}

// ---------------------------------------------------------------------------
// Finishing

/// The budgets of those tasks, taken together.
pub open spec fn total(tasks: Tasks, children: Set<Seq<char>>) -> nat
    decreases children.len(),
    when children.finite()
{
    if children.len() == 0 {
        0
    } else {
        let child = children.choose();
        tasks[child].budget + total(tasks, children.remove(child))
    }
}

/// The children of a task that are still active.
pub open spec fn active_children(tasks: Tasks, id: Seq<char>) -> Set<Seq<char>> {
    tasks[id].children.filter(
        |child: Seq<char>|
            tasks.contains_key(child) && tasks[child].status == TaskStatus::Active,
    )
}

/// The tasks after those named have lost their parent.
pub open spec fn orphaned(tasks: Tasks, children: Set<Seq<char>>) -> Tasks {
    Map::new(
        |id: Seq<char>| tasks.contains_key(id),
        |id: Seq<char>|
            if children.contains(id) {
                State { parent: None, holds_reservation: false, ..tasks[id] }
            } else {
                tasks[id]
            },
    )
}

/// The tasks once a finish request has let go of the active children, which only a
/// forced one does.
pub open spec fn released(tasks: Tasks, id: Seq<char>, force: bool) -> Tasks {
    if force {
        orphaned(tasks, active_children(tasks, id))
    } else {
        tasks
    }
}

pub open spec fn finish_refusal(
    tasks: Tasks,
    id: Seq<char>,
    reason: Option<Seq<char>>,
    force: bool,
) -> Option<Refusal> {
    if !valid_id(id) {
        Some(bad_id())
    } else if too_long(reason) {
        Some(Refusal::Invalid("finish reason is too long"@))
    } else if !tasks.contains_key(id) {
        Some(Refusal::NotFound(id))
    } else if !force && exists|child: Seq<char>| active_children(tasks, id).contains(child) {
        Some(Refusal::ActiveChildren(id))
    } else if tasks[id].status == TaskStatus::Finished {
        Some(Refusal::NotActive(id))
    } else {
        None
    }
}

/// A task that finishes and lets go of children with those budgets. What was reserved for
/// them stays where it is.
pub open spec fn finished_task(t: State, forgone: nat, now: nat) -> State {
    State {
        finished_elapsed: Some(t.runtime(now)),
        status: TaskStatus::Finished,
        forgone,
        holds_reservation: false,
        children: Set::empty(),
        ..t
    }
}

/// The parent after a child has given back its reservation.
pub open spec fn without_child(parent: State, child: Seq<char>, reservation: nat) -> State {
    State {
        children: parent.children.remove(child),
        child_reserved: duration::less(parent.child_reserved, reservation),
        ..parent
    }
}

pub open spec fn finished(tasks: Tasks, id: Seq<char>, force: bool, now: nat) -> Tasks {
    let free = released(tasks, id, force);
    let t = free[id];
    let forgone = total(tasks, active_children(tasks, id));
    let done = free.insert(id, finished_task(t, forgone, now));
    if t.parent is Some && done.contains_key(t.parent->Some_0) {
        done.insert(
            t.parent->Some_0,
            without_child(done[t.parent->Some_0], id, reserved_for(t, t.budget)),
        )
    } else {
        done
    }
}

/// The report of a finished task, which tells its actual runtime.
pub open spec fn finish_report(tasks: Tasks, id: Seq<char>, now: nat) -> Report {
    Report { elapsed: tasks[id].runtime(now), ..report(tasks, id, now) }
}

} // verus!
