//! What holds of the tasks whatever is asked.

use crate::duration;
use crate::duration::{BILLION, MAX_NANOS, TOLERANCE};
use crate::error::TaskError;
use crate::manager;
use crate::manager::TaskManager;
use crate::names;
use crate::number::Amount;
use crate::recovery;
use crate::registry::Tasks;
use crate::reservations;
use crate::rules;
use crate::store::Keeper;
use crate::task;
use crate::task::{
    AdjustTaskOutcome, Adjustment, Checkpoint, CheckpointOutcome, FinishTaskOutcome,
    PersistedState, Saved, Start, StartTaskOutcome, State, TaskStatus, TaskTiming, TickOutcome,
};
use vstd::prelude::*;

verus! {

// ---------------------------------------------------------------------------
// Time

/// What is held back is no more than the work.
proof fn lemma_held_back(work: nat, ratio: nat)
    requires
        ratio <= BILLION,
    ensures
        rules::held_back(work, ratio) <= work,
{
    assert(work * ratio <= work * BILLION) by (nonlinear_arith)
        requires
            ratio <= BILLION,
            work >= 0,
    ;
    assert(0 <= (work * ratio) as int / (BILLION as int) <= work) by (nonlinear_arith)
        requires
            0 <= work * ratio <= work * BILLION,
            BILLION > 0,
    ;
}

/// A report accounts for the whole budget: what was used and what remains make it up; of
/// what remains, children and the reserve come first; and no more is recommended than is
/// available.
pub proof fn law_reports_add_up(tasks: Tasks, id: Seq<char>, now: nat)
    ensures
        ({
            let view = rules::report(tasks, id, now);
            &&& view.elapsed + view.remaining == view.budget
            &&& view.recommended <= view.available
            &&& view.available + view.reserve == duration::less(
                view.remaining,
                view.child_reserved,
            )
            &&& view.status != TaskStatus::Active ==> view.recommended == 0
            &&& view.status == TaskStatus::Active ==> view.remaining > TOLERANCE
        }),
{
    let t = tasks[id];
    lemma_held_back(t.work(now), rules::effective_ratio(t.phase(now), t.mode));
}

/// Time only passes: a task's runtime never goes back, and what remains of its budget
/// never grows by itself.
pub proof fn law_time_only_passes(t: State, early: nat, late: nat)
    requires
        early <= late,
    ensures
        t.runtime(early) <= t.runtime(late),
        t.remaining(late) <= t.remaining(early),
        t.status_at(early) != TaskStatus::Active ==> t.status_at(late) != TaskStatus::Active,
{
}

/// A finished task's time stands still.
pub proof fn law_finished_time_stands_still(t: State, forgone: nat, finish: nat, later: nat)
    requires
        t.finished_elapsed is None,
    ensures
        rules::finished_task(t, forgone, finish).runtime(later) == t.runtime(finish),
        rules::finished_task(t, forgone, finish).status_at(later) == TaskStatus::Finished,
{
}

/// The accounting of a runtime: it is the accounted time and the overrun together, and
/// the deadline is met exactly when the overrun is within the tolerance.
pub proof fn law_timing_adds_up(runtime: nat, budget: nat)
    ensures
        ({
            let timing = task::timing(runtime, budget);
            &&& timing.accounted + timing.overrun == timing.actual
            &&& timing.accounted <= budget
            &&& timing.deadline_met <==> timing.overrun <= TOLERANCE
        }),
{
}

// ---------------------------------------------------------------------------
// Parents and children

/// A child gets no more than it asks for, and no more than its parent has available. The
/// parent's reserve stays untouched: with the child's budget it still fits into what
/// remains.
pub proof fn law_children_are_clamped(
    tasks: Tasks,
    r: Start,
    now: nat,
    deadline: Option<nat>,
)
    requires
        rules::start_refusal(tasks, r, now, deadline) is None,
        r.parent is Some,
        tasks[r.parent->Some_0].child_reserved <= tasks[r.parent->Some_0].remaining(now),
    ensures
        ({
            let parent = tasks[r.parent->Some_0];
            let budget = rules::granted(tasks, r, now, deadline);
            let after = rules::started(tasks, r, now, deadline)[r.parent->Some_0];
            &&& budget <= r.budget.span()
            &&& budget <= parent.available(now)
            &&& after.child_reserved + parent.reserve(now) <= parent.remaining(now)
        }),
{
    let parent = tasks[r.parent->Some_0];
    lemma_held_back(parent.work(now), rules::effective_ratio(parent.phase(now), parent.mode));
    assert(r.id != r.parent->Some_0);
}

/// A child that starts and finishes leaves its parent as it was.
pub proof fn law_children_give_back(
    tasks: Tasks,
    r: Start,
    start: nat,
    deadline: Option<nat>,
    finish: nat,
)
    requires
        rules::start_refusal(tasks, r, start, deadline) is None,
        r.parent is Some,
        !tasks[r.parent->Some_0].children.contains(r.id),
        tasks[r.parent->Some_0].child_reserved + rules::granted(tasks, r, start, deadline)
            <= MAX_NANOS,
    ensures
        ({
            let started = rules::started(tasks, r, start, deadline);
            let finished = rules::finished(started, r.id, false, finish);
            finished[r.parent->Some_0] == tasks[r.parent->Some_0]
        }),
{
    let parent_id = r.parent->Some_0;
    let parent = tasks[parent_id];
    let budget = rules::granted(tasks, r, start, deadline);
    let started = rules::started(tasks, r, start, deadline);
    assert(r.id != parent_id);
    assert(started[r.id] == rules::new_task(r, budget, start));
    assert(started[parent_id] == rules::with_child(parent, r.id, budget));
    let after = rules::finished(started, r.id, false, finish)[parent_id];
    assert(after == rules::without_child(started[parent_id], r.id, budget));
    assert(parent.children.insert(r.id).remove(r.id) =~= parent.children);
}

/// A task with active children finishes only by force, and then those children go on
/// without a parent.
pub proof fn law_children_outlive_only_by_force(
    tasks: Tasks,
    id: Seq<char>,
    reason: Option<Seq<char>>,
    force: bool,
    now: nat,
    child: Seq<char>,
)
    requires
        rules::finish_refusal(tasks, id, reason, force) is None,
        rules::active_children(tasks, id).contains(child),
        child != id,
        tasks[id].parent != Some(child),
    ensures
        force,
        ({
            let after = rules::finished(tasks, id, force, now);
            after[child] == (State { parent: None, holds_reservation: false, ..tasks[child] })
        }),
{
    let free = rules::released(tasks, id, force);
    assert(free[child] == (State { parent: None, holds_reservation: false, ..tasks[child] }));
}

// ---------------------------------------------------------------------------
// What requests leave alone

/// Starting a task changes no other task but its parent.
pub proof fn law_start_touches_only_the_parent(
    tasks: Tasks,
    r: Start,
    now: nat,
    deadline: Option<nat>,
    other: Seq<char>,
)
    requires
        rules::start_refusal(tasks, r, now, deadline) is None,
        tasks.contains_key(other),
        r.parent != Some(other),
    ensures
        rules::started(tasks, r, now, deadline).contains_key(other),
        rules::started(tasks, r, now, deadline)[other] == tasks[other],
{
}

/// A tick changes one task, and of it nothing but the tick count, the phase noticed and,
/// once the budget is used up, the status.
pub proof fn law_ticks_only_notice(tasks: Tasks, id: Seq<char>, now: nat, other: Seq<char>)
    requires
        tasks.contains_key(id),
        tasks.contains_key(other),
    ensures
        ({
            let after = rules::ticked(tasks, id, now);
            &&& after.dom() == tasks.dom()
            &&& other != id ==> after[other] == tasks[other]
            &&& after[id] == (State {
                ticks: after[id].ticks,
                last_phase: after[id].last_phase,
                status: after[id].status,
                ..tasks[id]
            })
            &&& after[id].ticks == rules::counted(tasks[id].ticks)
            &&& after[id].status != tasks[id].status ==> after[id].status
                == TaskStatus::Exhausted && tasks[id].runtime(now) + TOLERANCE
                >= tasks[id].budget
        }),
{
    assert(rules::ticked(tasks, id, now).dom() =~= tasks.dom());
}

/// A checkpoint changes one task, and neither its time nor its budget.
pub proof fn law_checkpoints_cost_nothing(
    tasks: Tasks,
    c: Checkpoint,
    now: nat,
    other: Seq<char>,
    later: nat,
)
    requires
        tasks.contains_key(c.id),
        tasks.contains_key(other),
    ensures
        ({
            let after = rules::checkpointed(tasks, c, now);
            &&& after.dom() == tasks.dom()
            &&& other != c.id ==> after[other] == tasks[other]
            &&& after[c.id].runtime(later) == tasks[c.id].runtime(later)
            &&& after[c.id].budget == tasks[c.id].budget
            &&& after[c.id].status == tasks[c.id].status
        }),
{
    assert(rules::checkpointed(tasks, c, now).dom() =~= tasks.dom());
}

/// An adjustment keeps the time that was used. Of the adjusted task it changes the budget,
/// the profile and the schedule, each only where it is asked for; of other tasks nothing
/// but its parent's reservations.
pub proof fn law_adjustments_keep_the_time_used(
    tasks: Tasks,
    a: Adjustment,
    now: nat,
    deadline: Option<nat>,
    other: Seq<char>,
    later: nat,
)
    requires
        rules::adjust_refusal(tasks, a, now, deadline) is None,
        tasks.contains_key(other),
        valid(tasks[a.id]),
    ensures
        ({
            let after = rules::adjusted(tasks, a, now, deadline);
            &&& after[other].runtime(later) == tasks[other].runtime(later)
            &&& other != a.id && tasks[a.id].parent != Some(other) ==> after[other]
                == tasks[other]
            &&& other != a.id ==> after[other] == (State {
                child_reserved: after[other].child_reserved,
                ..tasks[other]
            })
            &&& a.budget is Some ==> after[a.id].budget + TOLERANCE >= tasks[a.id].runtime(now)
            &&& a.budget is None ==> after[a.id].budget == tasks[a.id].budget
            &&& tasks[a.id].parent != Some(a.id) ==> after[a.id] == (State {
                budget: after[a.id].budget,
                mode: match a.mode {
                    Some(mode) => mode,
                    None => tasks[a.id].mode,
                },
                schedule: match a.schedule {
                    Some(schedule) => schedule,
                    None => tasks[a.id].schedule,
                },
                ..tasks[a.id]
            })
        }),
{
}

// ---------------------------------------------------------------------------
// The host's deadline

/// When a task's budget is used up, by the clock, unless it finishes before.
pub open spec fn end(t: State) -> int {
    t.started_at + t.budget - t.base_elapsed
}

/// A task that is started under a deadline ends by it, and none is started once it has
/// passed.
pub proof fn law_no_start_outlasts_the_deadline(tasks: Tasks, r: Start, now: nat, deadline: nat)
    ensures
        now >= deadline ==> rules::start_refusal(tasks, r, now, Some(deadline)) is Some,
        rules::start_refusal(tasks, r, now, Some(deadline)) is None ==> end(
            rules::started(tasks, r, now, Some(deadline))[r.id],
        ) <= deadline,
{
}

/// An adjustment of the budget under a deadline does not move the end past it, for a
/// task that began by then.
pub proof fn law_no_adjustment_outlasts_the_deadline(
    tasks: Tasks,
    a: Adjustment,
    now: nat,
    deadline: nat,
)
    requires
        rules::adjust_refusal(tasks, a, now, Some(deadline)) is None,
        a.budget is Some,
        tasks[a.id].started_at <= deadline,
    ensures
        end(rules::adjusted(tasks, a, now, Some(deadline))[a.id]) <= deadline,
{
}

// ---------------------------------------------------------------------------
// Plans and progress

/// The first checkpoint that is taken states a plan, and the plan stays submitted.
pub proof fn law_plans_come_first(tasks: Tasks, c: Checkpoint, now: nat)
    requires
        rules::checkpoint_refusal(tasks, c) is None,
    ensures
        rules::checkpointed(tasks, c, now)[c.id].plan_submitted,
        !tasks[c.id].plan_submitted ==> c.plan_complete && rules::states_plan(c.note) && c.eta
            is Some,
{
}

/// Progress that is told goes back by no more than the tolerance, unless it is replanned.
/// A checkpoint that tells none leaves it as it is.
pub proof fn law_progress_does_not_regress(tasks: Tasks, c: Checkpoint, now: nat)
    requires
        rules::checkpoint_refusal(tasks, c) is None,
        !c.replan,
        tasks[c.id].progress matches Some(Amount::Billionths(_)),
    ensures
        ({
            let last = tasks[c.id].progress->Some_0;
            let next = rules::checkpointed(tasks, c, now)[c.id].progress;
            &&& next is Some
            &&& next->Some_0 is Billionths
            &&& next->Some_0->Billionths_0 + TOLERANCE >= last->Billionths_0
            &&& next == if c.progress is Some {
                c.progress
            } else {
                Some(last)
            }
        }),
{
}

// ---------------------------------------------------------------------------
// What every request keeps

/// A task's spans are spans, and exactly the finished tasks hold a final runtime.
pub open spec fn valid(t: State) -> bool {
    &&& t.budget <= MAX_NANOS
    &&& t.base_elapsed <= MAX_NANOS
    &&& t.child_reserved <= MAX_NANOS
    &&& t.finished_elapsed is Some <==> t.status == TaskStatus::Finished
    &&& t.finished_elapsed matches Some(elapsed) ==> elapsed <= MAX_NANOS
}

/// Every task is valid and has a valid name and schedule; its progress is what its last
/// checkpoint told, if that told any; every parent is a task; going from parent to parent
/// comes to an end; and who is listed as a child is a task with that parent.
pub open spec fn sound(tasks: Tasks) -> bool {
    &&& forall|id: Seq<char>| #[trigger] tasks.contains_key(id) ==> entry_sound(tasks, id)
}

/// The part of [`sound`] that is about one task.
pub open spec fn entry_sound(tasks: Tasks, id: Seq<char>) -> bool {
    let t = tasks[id];
    &&& valid(t)
    &&& rules::valid_id(id)
    &&& t.schedule.fault() is None
    &&& t.last_checkpoint matches Some(last) ==> last.progress is Some ==> t.progress
        == last.progress
    &&& t.parent matches Some(parent) ==> tasks.contains_key(parent)
    &&& recovery::has_root(tasks, id)
    &&& forall|child: Seq<char>| #[trigger]
        t.children.contains(child) ==> tasks.contains_key(child) && tasks[child].parent
            == Some(id)
}

/// Without tasks, all is sound.
pub proof fn law_nothing_is_sound()
    ensures
        sound(Map::<Seq<char>, State>::empty()),
{
}

/// Ancestors among tasks of which one is new and nobody's parent.
proof fn lemma_new_leaf(tasks: Tasks, after: Tasks, leaf: Seq<char>, id: Seq<char>, n: nat)
    requires
        !tasks.contains_key(leaf),
        tasks.contains_key(id),
        forall|id: Seq<char>| #[trigger] tasks.contains_key(id) ==> after.contains_key(id)
            && after[id].parent == tasks[id].parent,
        forall|id: Seq<char>| #[trigger] after.contains_key(id) ==> tasks.contains_key(id) || id
            == leaf,
        forall|id: Seq<char>| #[trigger] tasks.contains_key(id) ==> match tasks[id].parent {
            Some(parent) => tasks.contains_key(parent),
            None => true,
        },
    ensures
        recovery::ancestor(after, id, n) == recovery::ancestor(tasks, id, n),
        recovery::ancestor(tasks, id, n) matches Some(a) ==> tasks.contains_key(a),
    decreases n,
{
    if n > 0 {
        lemma_new_leaf(tasks, after, leaf, id, (n - 1) as nat);
    }
}

/// One more generation below a task.
proof fn lemma_child_ancestor(tasks: Tasks, id: Seq<char>, parent: Seq<char>, n: nat)
    requires
        tasks.contains_key(id),
        tasks[id].parent == Some(parent),
    ensures
        recovery::ancestor(tasks, id, n + 1) == recovery::ancestor(tasks, parent, n),
    decreases n,
{
    if n > 0 {
        lemma_child_ancestor(tasks, id, parent, (n - 1) as nat);
    } else {
        assert(recovery::ancestor(tasks, id, 0) == Some(id));
    }
}

/// Starting a task keeps all sound.
pub proof fn law_start_keeps_sound(tasks: Tasks, r: Start, now: nat, deadline: Option<nat>)
    requires
        sound(tasks),
        rules::start_refusal(tasks, r, now, deadline) is None,
    ensures
        sound(rules::started(tasks, r, now, deadline)),
{
    let after = rules::started(tasks, r, now, deadline);
    let budget = rules::granted(tasks, r, now, deadline);
    assert forall|id: Seq<char>| #[trigger] tasks.contains_key(id) implies after.contains_key(id)
        && after[id].parent == tasks[id].parent && match tasks[id].parent {
        Some(parent) => tasks.contains_key(parent),
        None => true,
    } by {
        assert(entry_sound(tasks, id));
    }
    assert forall|id: Seq<char>| #[trigger] after.contains_key(id) implies entry_sound(
        after,
        id,
    ) by {
        if id == r.id {
            assert(after[id] == rules::new_task(r, budget, now));
            match r.parent {
                Some(parent) => {
                    assert(entry_sound(tasks, parent));
                    let n = choose|n: nat| #[trigger]
                        recovery::ancestor(tasks, parent, n) is None;
                    lemma_new_leaf(tasks, after, r.id, parent, n);
                    lemma_child_ancestor(after, r.id, parent, n);
                    assert(recovery::ancestor(after, r.id, n + 1) is None);
                },
                None => {
                    assert(recovery::ancestor(after, r.id, 0) == Some(r.id));
                    assert(recovery::ancestor(after, r.id, 1) is None);
                },
            }
        } else {
            assert(tasks.contains_key(id));
            assert(entry_sound(tasks, id));
            let n = choose|n: nat| #[trigger] recovery::ancestor(tasks, id, n) is None;
            lemma_new_leaf(tasks, after, r.id, id, n);
            assert(recovery::ancestor(after, id, n) is None);
        }
    }
}

/// Tasks that keep their parents keep their roots.
proof fn lemma_same_roots(tasks: Tasks, after: Tasks, id: Seq<char>)
    requires
        after.dom() == tasks.dom(),
        forall|id: Seq<char>| #[trigger]
            tasks.contains_key(id) ==> after[id].parent == tasks[id].parent,
        recovery::has_root(tasks, id),
    ensures
        recovery::has_root(after, id),
{
    let n = choose|n: nat| #[trigger] recovery::ancestor(tasks, id, n) is None;
    assert forall|id: Seq<char>| after.contains_key(id) implies (#[trigger] after[id]).parent
        == tasks[id].parent by {
        assert(after.dom().contains(id));
        assert(tasks.contains_key(id));
    }
    recovery::lemma_same_parents(after, tasks, id, n);
}

/// A tick keeps all sound.
pub proof fn law_tick_keeps_sound(tasks: Tasks, id: Seq<char>, now: nat)
    requires
        sound(tasks),
        rules::tick_refusal(tasks, id) is None,
    ensures
        sound(rules::ticked(tasks, id, now)),
{
    let after = rules::ticked(tasks, id, now);
    assert(after.dom() =~= tasks.dom());
    assert forall|other: Seq<char>| #[trigger] after.contains_key(other) implies entry_sound(
        after,
        other,
    ) by {
        assert(tasks.contains_key(other));
        assert(entry_sound(tasks, other));
        lemma_same_roots(tasks, after, other);
    }
}

/// A checkpoint keeps all sound.
pub proof fn law_checkpoint_keeps_sound(tasks: Tasks, c: Checkpoint, now: nat)
    requires
        sound(tasks),
        rules::checkpoint_refusal(tasks, c) is None,
    ensures
        sound(rules::checkpointed(tasks, c, now)),
{
    let after = rules::checkpointed(tasks, c, now);
    assert(after.dom() =~= tasks.dom());
    assert forall|other: Seq<char>| #[trigger] after.contains_key(other) implies entry_sound(
        after,
        other,
    ) by {
        assert(tasks.contains_key(other));
        assert(entry_sound(tasks, other));
        lemma_same_roots(tasks, after, other);
    }
}

/// An adjustment keeps all sound.
pub proof fn law_adjust_keeps_sound(tasks: Tasks, a: Adjustment, now: nat, deadline: Option<nat>)
    requires
        sound(tasks),
        rules::adjust_refusal(tasks, a, now, deadline) is None,
    ensures
        sound(rules::adjusted(tasks, a, now, deadline)),
{
    let after = rules::adjusted(tasks, a, now, deadline);
    assert(after.dom() =~= tasks.dom());
    assert forall|other: Seq<char>| #[trigger] after.contains_key(other) implies entry_sound(
        after,
        other,
    ) by {
        assert(tasks.contains_key(other));
        assert(entry_sound(tasks, other));
        assert(entry_sound(tasks, a.id));
        lemma_same_roots(tasks, after, other);
    }
}

/// Ancestors once some tasks have lost their parents: fewer, if not the same.
proof fn lemma_orphaned(tasks: Tasks, after: Tasks, id: Seq<char>, n: nat)
    requires
        after.dom() == tasks.dom(),
        forall|id: Seq<char>| #[trigger]
            tasks.contains_key(id) ==> after[id].parent == tasks[id].parent || after[id].parent
                is None,
    ensures
        recovery::ancestor(after, id, n) is None || recovery::ancestor(after, id, n)
            == recovery::ancestor(tasks, id, n),
    decreases n,
{
    if n > 0 {
        lemma_orphaned(tasks, after, id, (n - 1) as nat);
        match recovery::ancestor(after, id, (n - 1) as nat) {
            Some(a) => {
                assert(after.contains_key(a) == after.dom().contains(a));
                assert(tasks.contains_key(a) == tasks.dom().contains(a));
            },
            None => {},
        }
    }
}

/// Finishing a task keeps all sound.
pub proof fn law_finish_keeps_sound(
    tasks: Tasks,
    id: Seq<char>,
    reason: Option<Seq<char>>,
    force: bool,
    now: nat,
)
    requires
        sound(tasks),
        rules::finish_refusal(tasks, id, reason, force) is None,
    ensures
        sound(rules::finished(tasks, id, force, now)),
{
    let after = rules::finished(tasks, id, force, now);
    let free = rules::released(tasks, id, force);
    assert(free.dom() =~= tasks.dom());
    assert(after.dom() =~= tasks.dom());
    assert forall|other: Seq<char>| #[trigger] tasks.contains_key(other) implies after[other].parent
        == tasks[other].parent || after[other].parent is None by {}
    assert forall|other: Seq<char>| #[trigger] after.contains_key(other) implies entry_sound(
        after,
        other,
    ) by {
        assert(tasks.contains_key(other));
        assert(entry_sound(tasks, other));
        assert(entry_sound(tasks, id));
        let n = choose|n: nat| #[trigger] recovery::ancestor(tasks, other, n) is None;
        lemma_orphaned(tasks, after, other, n);
        assert(recovery::ancestor(after, other, n) is None);
        assert forall|child: Seq<char>| #[trigger]
            after[other].children.contains(child) implies after.contains_key(child)
            && after[child].parent == Some(other) by {
            assert(tasks[other].children.contains(child));
            assert(tasks.contains_key(child));
            assert(tasks[child].parent == Some(other));
        }
    }
}

// ---------------------------------------------------------------------------
// Recovery

/// No task of a list without wrong parents has one.
proof fn lemma_parents(list: Seq<Saved>, from: int, i: int)
    requires
        recovery::parent_fault(list, from) is None,
        0 <= from <= i < list.len(),
    ensures
        !recovery::wrong_parent(list, list[i]),
    decreases i - from,
{
    if from < i {
        lemma_parents(list, from + 1, i);
    }
}

/// Every task of a list without cycles has a root.
proof fn lemma_roots(list: Seq<Saved>, tasks: Tasks, from: int, i: int)
    requires
        recovery::cycle_fault(list, tasks, from) is None,
        0 <= from <= i < list.len(),
    ensures
        recovery::has_root(tasks, list[i].id),
    decreases i - from,
{
    if from < i {
        lemma_roots(list, tasks, from + 1, i);
    }
}

/// What a snapshot gives back is what it holds: the same tasks, each with the parent,
/// budget, profile, schedule, metadata, counts, last checkpoint, progress and plan that it
/// was saved with.
pub proof fn law_recovery_keeps_what_was_saved(
    version: u32,
    list: Seq<Saved>,
    now: nat,
    downtime: nat,
    i: int,
)
    requires
        recovery::recover_refusal(version, list, now, downtime) is None,
        0 <= i < list.len(),
    ensures
        forall|id: Seq<char>|
            recovery::recovered(list, now, downtime).contains_key(id) == recovery::saved_ids(
                list,
            ).contains(id),
        ({
            let t = recovery::recovered(list, now, downtime)[list[i].id];
            let s = list[i];
            &&& t.parent == s.parent
            &&& t.budget == s.budget.span()
            &&& t.mode == s.mode
            &&& t.schedule == s.schedule
            &&& t.metadata == s.metadata
            &&& t.ticks == s.ticks
            &&& t.checkpoints == s.checkpoints
            &&& t.last_checkpoint == s.last_checkpoint
            &&& t.progress == recovery::recovered_progress(s)
            &&& t.plan_submitted == s.plan_submitted
        }),
{
    recovery::lemma_restored_ids(list, now, downtime);
    recovery::lemma_restored(list, now, downtime);
    assert(recovery::saved_ids(list)[i] == list[i].id);
    assert(recovery::saved_ids(list).contains(list[i].id));
}

/// Recovery never gives time back: a task that was active has run as long as it was
/// saved with and through the whole downtime; any other task as long as it was saved
/// with.
pub proof fn law_recovery_charges_the_downtime(
    version: u32,
    list: Seq<Saved>,
    now: nat,
    downtime: nat,
    i: int,
    later: nat,
)
    requires
        recovery::recover_refusal(version, list, now, downtime) is None,
        0 <= i < list.len(),
        now <= later,
    ensures
        ({
            let t = recovery::recovered(list, now, downtime)[list[i].id];
            let s = list[i];
            &&& t.runtime(now) == if s.status == TaskStatus::Active {
                duration::clip((s.elapsed.span() + downtime) as int)
            } else {
                s.elapsed.span()
            }
            &&& t.runtime(later) >= s.elapsed.span()
            &&& s.status == TaskStatus::Finished ==> t.runtime(later) == s.elapsed.span()
            &&& s.status != TaskStatus::Active ==> t.status == s.status
        }),
{
    recovery::lemma_restored_ids(list, now, downtime);
    recovery::lemma_restored(list, now, downtime);
    assert(recovery::saved_ids(list)[i] == list[i].id);
    assert(recovery::saved_ids(list).contains(list[i].id));
    assert(list[i].elapsed.span() <= MAX_NANOS);
}

/// The tasks that a snapshot gives back are sound.
pub proof fn law_recovery_gives_sound_tasks(
    version: u32,
    list: Seq<Saved>,
    now: nat,
    downtime: nat,
)
    requires
        recovery::recover_refusal(version, list, now, downtime) is None,
    ensures
        sound(recovery::recovered(list, now, downtime)),
{
    let base = recovery::restored_tasks(list, now, downtime);
    let ids = recovery::saved_ids(list);
    let after = recovery::recovered(list, now, downtime);
    recovery::lemma_restored_ids(list, now, downtime);
    recovery::lemma_restored(list, now, downtime);
    assert(after.dom() =~= base.dom());
    assert forall|id: Seq<char>| #[trigger] base.contains_key(id) implies after[id].parent
        == base[id].parent by {}
    assert forall|id: Seq<char>| #[trigger] after.contains_key(id) implies entry_sound(
        after,
        id,
    ) by {
        assert(base.contains_key(id));
        assert(ids.contains(id));
        let i = choose|i: int| 0 <= i < ids.len() && ids[i] == id;
        assert(list[i].id == id);
        assert(base[id] == recovery::restored(list[i], now, downtime));
        recovery::lemma_sound_list(list, 0, i);
        lemma_parents(list, 0, i);
        lemma_roots(list, base, 0, i);
        lemma_same_roots(base, after, id);
        assert forall|child: Seq<char>| #[trigger] after[id].children.contains(child) implies
            after.contains_key(child) && after[child].parent == Some(id) by {
            assert(recovery::reserves(base, id, child));
        }
    }
}

/// No list of sound tasks has a fault, provided that no budget is empty.
proof fn lemma_saved_sound(list: Seq<Saved>, tasks: Tasks, now: nat, i: int)
    requires
        sound(tasks),
        recovery::lists(list, tasks, now),
        forall|id: Seq<char>| #[trigger] tasks.contains_key(id) ==> tasks[id].budget > 0,
        0 <= i <= list.len(),
    ensures
        recovery::list_fault(list, i) is None,
        recovery::parent_fault(list, i) is None,
    decreases list.len() - i,
{
    if i < list.len() {
        lemma_saved_sound(list, tasks, now, i + 1);
        let ids = recovery::saved_ids(list);
        let id = list[i].id;
        assert(ids[i] == id);
        assert(ids.contains(id));
        assert(tasks.contains_key(id));
        assert(entry_sound(tasks, id));
        let t = tasks[id];
        assert(list[i] == recovery::saved(id, t, now));
        lemma_small(t.budget);
        lemma_small(t.runtime(now));
        if ids.take(i).contains(id) {
            let k = choose|k: int| 0 <= k < i && ids.take(i)[k] == id;
            assert(ids[k] == id);
            names::lemma_ascending_distinct(ids);
        }
        if t.parent is Some {
            let parent = t.parent->Some_0;
            assert(tasks.contains_key(parent));
            if parent == id {
                lemma_own_parent(tasks, id);
            }
        }
    }
}

/// A span is held exactly.
proof fn lemma_small(nanos: nat)
    requires
        nanos <= MAX_NANOS,
    ensures
        Amount::spec_of(nanos) == Amount::Billionths(nanos as i128),
        Amount::spec_of(nanos).span() == nanos,
{
}

/// A task that were its own parent would have no root.
pub proof fn lemma_own_parent(tasks: Tasks, id: Seq<char>)
    requires
        tasks.contains_key(id),
        tasks[id].parent == Some(id),
    ensures
        !recovery::has_root(tasks, id),
{
    assert forall|n: nat| #[trigger] recovery::ancestor(tasks, id, n) == Some(id) by {
        lemma_own_ancestor(tasks, id, n);
    }
}

proof fn lemma_own_ancestor(tasks: Tasks, id: Seq<char>, n: nat)
    requires
        tasks.contains_key(id),
        tasks[id].parent == Some(id),
    ensures
        recovery::ancestor(tasks, id, n) == Some(id),
    decreases n,
{
    if n > 0 {
        lemma_own_ancestor(tasks, id, (n - 1) as nat);
    }
}

proof fn lemma_no_cycles(list: Seq<Saved>, tasks: Tasks, i: int)
    requires
        forall|k: int| 0 <= k < list.len() ==> recovery::has_root(
            tasks,
            (#[trigger] list[k]).id,
        ),
        0 <= i,
    ensures
        recovery::cycle_fault(list, tasks, i) is None,
    decreases list.len() - i,
{
    if i < list.len() {
        lemma_no_cycles(list, tasks, i + 1);
    }
}

/// A snapshot of sound tasks whose budgets are not empty can be recovered, and gives
/// back every task as it was: the same parent, budget, profile, schedule, metadata,
/// counts, last checkpoint, progress and plan, and the same runtime, to which only the
/// downtime is added, and only where the task was active. Its status is the same too,
/// unless it was active and that time has used its budget up: then it is exhausted. The
/// children of a task are the active tasks with that parent.
pub proof fn law_snapshots_can_be_recovered(
    list: Seq<Saved>,
    tasks: Tasks,
    saved_at: nat,
    now: nat,
    downtime: nat,
    id: Seq<char>,
)
    requires
        sound(tasks),
        recovery::lists(list, tasks, saved_at),
        forall|id: Seq<char>| #[trigger] tasks.contains_key(id) ==> tasks[id].budget > 0,
        tasks.contains_key(id),
    ensures
        recovery::recover_refusal(recovery::SNAPSHOT_VERSION, list, now, downtime) is None,
        recovery::recovered(list, now, downtime).dom() == tasks.dom(),
        ({
            let t = recovery::recovered(list, now, downtime)[id];
            let before = tasks[id];
            &&& t.parent == before.parent
            &&& t.budget == before.budget
            &&& t.mode == before.mode
            &&& t.schedule == before.schedule
            &&& t.metadata == before.metadata
            &&& t.ticks == before.ticks
            &&& t.checkpoints == before.checkpoints
            &&& t.last_checkpoint == before.last_checkpoint
            &&& t.progress == before.progress
            &&& t.plan_submitted == before.plan_submitted
            &&& t.runtime(now) == if before.status == TaskStatus::Active {
                duration::clip((before.runtime(saved_at) + downtime) as int)
            } else {
                before.runtime(saved_at)
            }
            &&& t.status == if before.status == TaskStatus::Active && t.runtime(now) + TOLERANCE
                >= t.budget {
                TaskStatus::Exhausted
            } else {
                before.status
            }
        }),
        forall|child: Seq<char>| #[trigger]
            recovery::recovered(list, now, downtime)[id].children.contains(child)
                == recovery::reserves(recovery::recovered(list, now, downtime), id, child),
{
    let base = recovery::restored_tasks(list, now, downtime);
    let ids = recovery::saved_ids(list);
    lemma_saved_sound(list, tasks, saved_at, 0);
    recovery::lemma_restored_ids(list, now, downtime);
    recovery::lemma_restored(list, now, downtime);
    assert(base.dom() =~= tasks.dom()) by {
        assert forall|x: Seq<char>| base.dom().contains(x) == tasks.dom().contains(x) by {
            assert(base.contains_key(x) == tasks.contains_key(x));
        }
    }
    assert forall|x: Seq<char>| #[trigger] tasks.contains_key(x) implies base[x].parent
        == tasks[x].parent by {
        assert(ids.contains(x));
        let k = choose|k: int| 0 <= k < ids.len() && ids[k] == x;
        assert(list[k].id == x);
    }
    assert forall|k: int| 0 <= k < list.len() implies recovery::has_root(
        base,
        (#[trigger] list[k]).id,
    ) by {
        assert(ids[k] == list[k].id);
        assert(ids.contains(list[k].id));
        assert(tasks.contains_key(list[k].id));
        assert(entry_sound(tasks, list[k].id));
        lemma_same_roots(tasks, base, list[k].id);
    }
    lemma_no_cycles(list, base, 0);
    assert(recovery::recovered(list, now, downtime).dom() =~= base.dom());
    assert forall|child: Seq<char>| #[trigger]
        recovery::recovered(list, now, downtime)[id].children.contains(child)
            == recovery::reserves(recovery::recovered(list, now, downtime), id, child) by {
        assert(ids.to_set().contains(child) == ids.contains(child));
        assert(base.contains_key(child) == ids.contains(child));
    }
    assert(ids.contains(id));
    let i = choose|i: int| 0 <= i < ids.len() && ids[i] == id;
    assert(list[i].id == id);
    assert(entry_sound(tasks, id));
    lemma_small(tasks[id].budget);
    lemma_small(tasks[id].runtime(saved_at));
    law_recovery_keeps_what_was_saved(
        recovery::SNAPSHOT_VERSION,
        list,
        now,
        downtime,
        i,
    );
    law_recovery_charges_the_downtime(
        recovery::SNAPSHOT_VERSION,
        list,
        now,
        downtime,
        i,
        now,
    );
}

/// Starting a task gives it a budget that is not empty.
pub proof fn law_started_budgets_are_not_empty(
    tasks: Tasks,
    r: Start,
    now: nat,
    deadline: Option<nat>,
)
    requires
        rules::start_refusal(tasks, r, now, deadline) is None,
    ensures
        rules::granted(tasks, r, now, deadline) > 0,
        rules::started(tasks, r, now, deadline)[r.id].budget == rules::granted(
            tasks,
            r,
            now,
            deadline,
        ),
{
}

// ---------------------------------------------------------------------------
// The manager

/// However a request to start a task is answered, all stays sound, and every reservation
/// accounted for.
pub proof fn law_answered_starts_keep_sound(
    before: Tasks,
    after: Tasks,
    request: Start,
    now: nat,
    deadline: Option<nat>,
    store: Keeper,
    r: Result<StartTaskOutcome, TaskError>,
)
    requires
        sound(before),
        manager::answers_start(before, after, request, now, deadline, store, r),
    ensures
        sound(after),
        reservations::accounted(before) ==> reservations::accounted(after),
        r is Err ==> after == before,
{
    if r is Ok {
        law_start_keeps_sound(before, request, now, deadline);
        if reservations::accounted(before) {
            reservations::law_start_keeps_accounted(before, request, now, deadline);
        }
    }
}

/// However a tick is answered, all stays sound, and every reservation accounted for.
pub proof fn law_answered_ticks_keep_sound(
    before: Tasks,
    after: Tasks,
    id: Seq<char>,
    now: nat,
    r: Result<(TickOutcome, TaskTiming), TaskError>,
)
    requires
        sound(before),
        manager::answers_tick(before, after, id, now, r),
    ensures
        sound(after),
        reservations::accounted(before) ==> reservations::accounted(after),
        r is Err ==> after == before,
{
    if r is Ok {
        law_tick_keeps_sound(before, id, now);
        if reservations::accounted(before) {
            reservations::law_tick_keeps_accounted(before, id, now);
        }
    }
}

/// However a checkpoint is answered, all stays sound, and every reservation accounted
/// for.
pub proof fn law_answered_checkpoints_keep_sound(
    before: Tasks,
    after: Tasks,
    request: Checkpoint,
    now: nat,
    store: Keeper,
    r: Result<CheckpointOutcome, TaskError>,
)
    requires
        sound(before),
        manager::answers_checkpoint(before, after, request, now, store, r),
    ensures
        sound(after),
        reservations::accounted(before) ==> reservations::accounted(after),
        r is Err ==> after == before,
{
    if r is Ok {
        law_checkpoint_keeps_sound(before, request, now);
        if reservations::accounted(before) {
            reservations::law_checkpoint_keeps_accounted(before, request, now);
        }
    }
}

/// However an adjustment is answered, all stays sound, and every reservation accounted
/// for.
pub proof fn law_answered_adjustments_keep_sound(
    before: Tasks,
    after: Tasks,
    request: Adjustment,
    now: nat,
    deadline: Option<nat>,
    store: Keeper,
    r: Result<AdjustTaskOutcome, TaskError>,
)
    requires
        sound(before),
        manager::answers_adjustment(before, after, request, now, deadline, store, r),
    ensures
        sound(after),
        reservations::accounted(before) ==> reservations::accounted(after),
        r is Err ==> after == before,
{
    if r is Ok {
        law_adjust_keeps_sound(before, request, now, deadline);
        if reservations::accounted(before) {
            reservations::law_adjust_keeps_accounted(before, request, now, deadline);
        }
    }
}

/// However a request to finish a task is answered, all stays sound, and every reservation
/// accounted for.
pub proof fn law_answered_finishes_keep_sound(
    before: Tasks,
    after: Tasks,
    id: Seq<char>,
    reason: Option<Seq<char>>,
    force: bool,
    now: nat,
    store: Keeper,
    r: Result<FinishTaskOutcome, TaskError>,
)
    requires
        sound(before),
        manager::answers_finish(before, after, id, reason, force, now, store, r),
    ensures
        sound(after),
        reservations::accounted(before) ==> reservations::accounted(after),
        r is Err ==> after == before,
{
    if r is Ok {
        law_finish_keeps_sound(before, id, reason, force, now);
        if reservations::accounted(before) {
            reservations::law_finish_keeps_accounted(before, id, reason, force, now);
        }
    }
}

/// A manager that starts with what its store holds starts sound, and with every
/// reservation accounted for, provided that no sum of them is longer than the longest span.
pub proof fn law_managers_start_sound(
    loaded: Result<Option<PersistedState>, String>,
    now: nat,
    now_unix_ms: u64,
    r: Result<TaskManager, TaskError>,
)
    requires
        manager::answers_load(loaded, now, now_unix_ms, r),
        r is Ok,
    ensures
        sound(r->Ok_0@),
        (loaded matches Ok(Some(snapshot)) ==> reservations::fit(
            task::saved_tasks(snapshot.tasks@),
            now,
            recovery::downtime(snapshot.saved_at_unix_ms, now_unix_ms),
        )) ==> reservations::accounted(r->Ok_0@),
{
    match loaded {
        Ok(Some(snapshot)) => {
            let list = task::saved_tasks(snapshot.tasks@);
            let downtime = recovery::downtime(snapshot.saved_at_unix_ms, now_unix_ms);
            law_recovery_gives_sound_tasks(snapshot.version, list, now, downtime);
            if reservations::fit(list, now, downtime) {
                reservations::law_recovery_gives_accounted(
                    snapshot.version,
                    list,
                    now,
                    downtime,
                );
            }
        },
        _ => {},
    }
}

} // verus!
