//! What a snapshot holds, when it can be recovered, and what it gives back, in numbers of
//! the tasks.

use crate::duration::MAX_NANOS;
use crate::error::{Refusal, TaskError};
use crate::laws;
use crate::manager;
use crate::manager::TaskManager;
use crate::number::Amount;
use crate::recovery;
use crate::registry::Tasks;
use crate::schedule;
use crate::task;
use crate::task::{PersistedState, Saved, State, TaskStatus};
use crate::task_laws;
use crate::text;
use vstd::prelude::*;

verus! {

/// A snapshot is of the second version and lists the tasks in ascending order of names.
pub proof fn law_snapshots_are_in_order(
    state: PersistedState,
    tasks: Tasks,
    now: nat,
    i: int,
    j: int,
)
    requires
        recovery::holds(state, tasks, now),
        0 <= i < j < state.tasks@.len(),
    ensures
        state.version == 2,
        text::before(state.tasks@[i].task_id@, state.tasks@[j].task_id@),
{
    let ids = recovery::saved_ids(task::saved_tasks(state.tasks@));
    assert(ids[i] == state.tasks@[i].task_id@ && ids[j] == state.tasks@[j].task_id@);
}

/// A snapshot lists every task, with all that belongs to it: how long it has run, in seconds
/// like its budget, and the rest as it is.
pub proof fn law_snapshots_hold_every_task(
    state: PersistedState,
    tasks: Tasks,
    now: nat,
    id: Seq<char>,
    i: int,
)
    requires
        recovery::holds(state, tasks, now),
        forall|id: Seq<char>| #[trigger]
            tasks.contains_key(id) ==> tasks[id].budget <= MAX_NANOS && tasks[id].runtime(now)
                <= MAX_NANOS,
        0 <= i < state.tasks@.len(),
    ensures
        state.version == 2,
        tasks.contains_key(id) <==> exists|k: int|
            0 <= k < state.tasks@.len() && (#[trigger] state.tasks@[k]).task_id@ == id,
        ({
            let s = state.tasks@[i]@;
            let t = tasks[s.id];
            &&& s.id == state.tasks@[i].task_id@
            &&& s.parent == t.parent
            &&& s.budget == Amount::Billionths(t.budget as i128)
            &&& s.elapsed == Amount::Billionths(t.runtime(now) as i128)
            &&& s.mode == t.mode
            &&& s.schedule == t.schedule
            &&& s.metadata == t.metadata
            &&& s.status == t.status
            &&& s.ticks == t.ticks
            &&& s.checkpoints == t.checkpoints
            &&& s.last_checkpoint == t.last_checkpoint
            &&& s.progress == t.progress
            &&& s.plan_submitted == t.plan_submitted
        }),
{
    let list = task::saved_tasks(state.tasks@);
    let ids = recovery::saved_ids(list);
    assert(ids[i] == state.tasks@[i].task_id@);
    assert(list[i] == state.tasks@[i]@);
    assert(ids.contains(ids[i]));
    if tasks.contains_key(id) {
        assert(ids.contains(id));
        let k = choose|k: int| 0 <= k < ids.len() && ids[k] == id;
        assert(state.tasks@[k].task_id@ == id);
    }
    if exists|k: int| 0 <= k < state.tasks@.len() && (#[trigger] state.tasks@[k]).task_id@ == id {
        let k = choose|k: int|
            0 <= k < state.tasks@.len() && (#[trigger] state.tasks@[k]).task_id@ == id;
        assert(ids[k] == id);
        assert(ids.contains(id));
    }
}

/// The downtime is the wall-clock time since the snapshot was saved, in nanoseconds, and
/// none where the clock was put back.
pub proof fn law_downtimes(saved_at: u64, now_ms: u64)
    ensures
        now_ms >= saved_at ==> recovery::downtime(saved_at, now_ms) == 1_000_000 * (now_ms
            - saved_at),
        now_ms < saved_at ==> recovery::downtime(saved_at, now_ms) == 0,
{
}

/// Whether a saved task is usable by itself: with a name, a budget and a schedule in order,
/// and a runtime that is finite and not below zero.
pub open spec fn usable(s: Saved) -> bool {
    &&& task_laws::nameable(s.id)
    &&& s.budget.positive()
    &&& s.elapsed matches Amount::Billionths(value) && value >= 0
    &&& s.schedule.fault() is None
}

/// A list of saved tasks can be recovered exactly when all of them are usable, no two have
/// the same name, every parent is another of them, and going from parent to parent comes to
/// an end; and the snapshot is of the second version.
pub proof fn law_what_can_be_recovered(version: u32, list: Seq<Saved>, now: nat, downtime: nat)
    ensures
        recovery::recover_refusal(version, list, now, downtime) is None <==> {
            &&& version == 2
            &&& forall|i: int| 0 <= i < list.len() ==> usable(#[trigger] list[i])
            &&& forall|i: int, j: int|
                0 <= i < j < list.len() ==> (#[trigger] list[i]).id != (#[trigger] list[j]).id
            &&& forall|i: int|
                0 <= i < list.len() ==> ((#[trigger] list[i]).parent matches Some(parent)
                    ==> parent != list[i].id && recovery::saved_ids(list).contains(parent))
            &&& forall|i: int|
                0 <= i < list.len() ==> recovery::has_root(
                    recovery::restored_tasks(list, now, downtime),
                    (#[trigger] list[i]).id,
                )
        },
        version != 2 ==> recovery::recover_refusal(version, list, now, downtime) is Some,
        recovery::recover_refusal(version, list, now, downtime) matches Some(refusal) ==> refusal
            is CorruptSnapshot,
{
    lemma_no_list_fault(list, 0);
    lemma_no_parent_fault(list, 0);
    lemma_no_cycle_fault(list, recovery::restored_tasks(list, now, downtime), 0);
}

proof fn lemma_no_list_fault(list: Seq<Saved>, from: int)
    requires
        0 <= from <= list.len(),
    ensures
        recovery::list_fault(list, from) is None <==> {
            &&& forall|i: int| from <= i < list.len() ==> usable(#[trigger] list[i])
            &&& forall|i: int, j: int|
                0 <= i < j && from <= j < list.len() ==> (#[trigger] list[i]).id != (
                #[trigger] list[j]).id
        },
    decreases list.len() - from,
{
    if from < list.len() {
        lemma_no_list_fault(list, from + 1);
        let ids = recovery::saved_ids(list);
        assert(recovery::saved_fault(list[from]) is None <==> usable(list[from]));
        if ids.take(from).contains(list[from].id) {
            let k = choose|k: int| 0 <= k < from && ids.take(from)[k] == list[from].id;
            assert(list[k].id == list[from].id);
        } else {
            assert forall|i: int| 0 <= i < from implies (#[trigger] list[i]).id
                != list[from].id by {
                assert(ids.take(from)[i] == list[i].id);
            }
        }
    }
}

proof fn lemma_no_parent_fault(list: Seq<Saved>, from: int)
    requires
        0 <= from <= list.len(),
    ensures
        recovery::parent_fault(list, from) is None <==> forall|i: int|
            from <= i < list.len() ==> ((#[trigger] list[i]).parent matches Some(parent)
                ==> parent != list[i].id && recovery::saved_ids(list).contains(parent)),
    decreases list.len() - from,
{
    if from < list.len() {
        lemma_no_parent_fault(list, from + 1);
    }
}

proof fn lemma_no_cycle_fault(list: Seq<Saved>, tasks: Tasks, from: int)
    requires
        0 <= from <= list.len(),
    ensures
        recovery::cycle_fault(list, tasks, from) is None <==> forall|i: int|
            from <= i < list.len() ==> recovery::has_root(tasks, (#[trigger] list[i]).id),
    decreases list.len() - from,
{
    if from < list.len() {
        lemma_no_cycle_fault(list, tasks, from + 1);
    }
}

/// Going from parent to parent comes to an end at a task without a parent, for a child
/// exactly when it does for its parent, and never for a task that is its own ancestor.
pub proof fn law_roots(tasks: Tasks, id: Seq<char>, generations: nat)
    requires
        tasks.contains_key(id),
    ensures
        tasks[id].parent is None ==> recovery::has_root(tasks, id),
        tasks[id].parent matches Some(parent) ==> (recovery::has_root(tasks, id)
            <==> recovery::has_root(tasks, parent)),
        generations > 0 && recovery::ancestor(tasks, id, generations) == Some(id)
            ==> !recovery::has_root(tasks, id),
        recovery::ancestor(tasks, id, 0) == Some(id),
        recovery::ancestor(tasks, id, 1) == tasks[id].parent,
{
    assert(recovery::ancestor(tasks, id, 0) == Some(id));
    assert(recovery::ancestor(tasks, id, 1) == tasks[id].parent);
    if let Some(parent) = tasks[id].parent {
        if recovery::has_root(tasks, parent) {
            let n = choose|n: nat| #[trigger] recovery::ancestor(tasks, parent, n) is None;
            lemma_further(tasks, id, parent, 1, n);
            assert(recovery::ancestor(tasks, id, 1 + n) is None);
        }
        if recovery::has_root(tasks, id) {
            let n = choose|n: nat| #[trigger] recovery::ancestor(tasks, id, n) is None;
            assert(n > 0);
            lemma_further(tasks, id, parent, 1, (n - 1) as nat);
            assert(recovery::ancestor(tasks, parent, (n - 1) as nat) is None);
        }
    }
    if generations > 0 && recovery::ancestor(tasks, id, generations) == Some(id) {
        assert forall|n: nat| #[trigger] recovery::ancestor(tasks, id, n) is Some by {
            lemma_never_none(tasks, id, generations, n);
        }
    }
}

/// The ancestors of an ancestor are ancestors.
proof fn lemma_further(tasks: Tasks, id: Seq<char>, a: Seq<char>, first: nat, more: nat)
    requires
        recovery::ancestor(tasks, id, first) == Some(a),
    ensures
        recovery::ancestor(tasks, id, first + more) == recovery::ancestor(tasks, a, more),
    decreases more,
{
    if more > 0 {
        lemma_further(tasks, id, a, first, (more - 1) as nat);
    }
}

/// What is its own ancestor has ancestors without end.
proof fn lemma_never_none(tasks: Tasks, id: Seq<char>, generations: nat, n: nat)
    requires
        generations > 0,
        recovery::ancestor(tasks, id, generations) == Some(id),
    ensures
        recovery::ancestor(tasks, id, n) is Some,
    decreases n,
{
    if n >= generations {
        lemma_never_none(tasks, id, generations, (n - generations) as nat);
        lemma_further(tasks, id, id, generations, (n - generations) as nat);
    } else {
        lemma_still_some(tasks, id, n, generations);
    }
}

proof fn lemma_still_some(tasks: Tasks, id: Seq<char>, n: nat, later: nat)
    requires
        n <= later,
        recovery::ancestor(tasks, id, later) is Some,
    ensures
        recovery::ancestor(tasks, id, n) is Some,
    decreases later - n,
{
    if n < later {
        lemma_still_some(tasks, id, n, (later - 1) as nat);
    }
}

/// Why a snapshot is refused that holds one task: what is wrong with that task.
pub proof fn law_faults_are_told(s: Saved)
    ensures
        ({
            let fault = recovery::saved_fault(s);
            &&& !task_laws::nameable(s.id) ==> fault == Some(
                "invalid request: "@ + "task_id must be non-empty and at most 256 bytes"@,
            )
            &&& task_laws::nameable(s.id) && !s.budget.positive() ==> fault == Some(
                "invalid request: "@ + "budget_secs must be finite and > 0"@,
            )
            &&& task_laws::nameable(s.id) && s.budget.positive() && !(s.elapsed matches
                Amount::Billionths(value) && value >= 0) ==> fault == Some(
                "elapsed_secs must be finite and >= 0"@,
            )
        }),
{
}

/// What is told of a snapshot that cannot be recovered: its version, or the first task
/// that is unusable or listed before, or has a wrong parent, or has no root.
pub proof fn law_refused_snapshots_are_told(
    version: u32,
    list: Seq<Saved>,
    now: nat,
    downtime: nat,
    i: int,
)
    requires
        0 <= i < list.len(),
    ensures
        version != 2 ==> recovery::recover_refusal(version, list, now, downtime) == Some(
            Refusal::CorruptSnapshot("unsupported version "@ + text::decimal(version as nat)),
        ),
        usable(list[i]) && (exists|k: int| 0 <= k < i && (#[trigger] list[k]).id == list[i].id)
            ==> recovery::list_fault(list, i) == Some("duplicate task "@ + list[i].id),
        (list[i].parent matches Some(parent) && (parent == list[i].id || !recovery::saved_ids(
            list,
        ).contains(parent))) ==> recovery::parent_fault(list, i) == Some(
            "invalid parent for "@ + list[i].id + ": "@ + list[i].parent->Some_0,
        ),
        !recovery::has_root(recovery::restored_tasks(list, now, downtime), list[i].id)
            ==> recovery::cycle_fault(
            list,
            recovery::restored_tasks(list, now, downtime),
            i,
        ) == Some("cycle involving task "@ + list[i].id),
{
    let ids = recovery::saved_ids(list);
    if exists|k: int| 0 <= k < i && (#[trigger] list[k]).id == list[i].id {
        let k = choose|k: int| 0 <= k < i && (#[trigger] list[k]).id == list[i].id;
        assert(ids.take(i)[k] == list[i].id);
    }
}

/// What a saved task becomes: taken up at `now`, with the runtime that it was saved with
/// and, if it was active, the downtime; exhausted, if it was active and that uses its budget
/// up, but for a nanosecond; and with the phase that it has reached.
pub proof fn law_what_is_given_back(
    version: u32,
    list: Seq<Saved>,
    now: nat,
    downtime: nat,
    i: int,
    child: Seq<char>,
)
    requires
        recovery::recover_refusal(version, list, now, downtime) is None,
        0 <= i < list.len(),
    ensures
        ({
            let s = list[i];
            let after = recovery::recovered(list, now, downtime);
            let t = after[s.id];
            let saved = s.elapsed->Billionths_0 as int;
            let known = if saved < MAX_NANOS {
                saved
            } else {
                MAX_NANOS as int
            };
            let runtime = if s.status != TaskStatus::Active {
                known
            } else if known + downtime < MAX_NANOS {
                known + downtime
            } else {
                MAX_NANOS as int
            };
            let phase = schedule::phase_at(s.schedule.phases, runtime as nat);
            &&& t.started_at == now
            &&& t.base_elapsed == runtime
            &&& t.runtime(now) == runtime
            &&& t.status == if s.status == TaskStatus::Active && runtime + 1 >= t.budget {
                TaskStatus::Exhausted
            } else {
                s.status
            }
            &&& t.finished_elapsed == if s.status == TaskStatus::Finished {
                Some(runtime as nat)
            } else {
                None
            }
            &&& t.last_phase == match phase {
                Some(phase) => Some(phase.name),
                None => None,
            }
            &&& t.holds_reservation <==> t.parent is Some && t.status == TaskStatus::Active
            &&& t.children.contains(child) <==> after.contains_key(child) && after[child].parent
                == Some(s.id) && after[child].status == TaskStatus::Active
        }),
{
    let base = recovery::restored_tasks(list, now, downtime);
    let ids = recovery::saved_ids(list);
    recovery::lemma_restored_ids(list, now, downtime);
    recovery::lemma_restored(list, now, downtime);
    recovery::lemma_sound_list(list, 0, i);
    assert(ids[i] == list[i].id);
    assert(ids.contains(list[i].id));
    assert(base.contains_key(child) == ids.contains(child));
    assert(ids.to_set().contains(child) == ids.contains(child));
}

/// The progress that a task is given back with: that of its last checkpoint, or else what
/// was saved of it.
pub proof fn law_progress_is_given_back(s: Saved)
    ensures
        (s.last_checkpoint matches Some(last) && last.progress is Some)
            ==> recovery::recovered_progress(s) == s.last_checkpoint->Some_0.progress,
        !(s.last_checkpoint matches Some(last) && last.progress is Some)
            ==> recovery::recovered_progress(s) == s.progress,
{
}

/// What a manager starts with: the store's failure, nothing, or what its snapshot gives
/// back after the downtime.
pub proof fn law_managers_start_with_their_snapshot(
    loaded: Result<Option<PersistedState>, String>,
    now: nat,
    now_unix_ms: u64,
    r: Result<TaskManager, TaskError>,
)
    requires
        manager::answers_load(loaded, now, now_unix_ms, r),
    ensures
        loaded matches Err(said) ==> r is Err && r->Err_0@ == Refusal::Persistence(said@),
        loaded matches Ok(None) ==> r is Ok && r->Ok_0@ == Map::<Seq<char>, State>::empty(),
        loaded matches Ok(Some(snapshot)) ==> {
            let list = task::saved_tasks(snapshot.tasks@);
            let passed = now_unix_ms - snapshot.saved_at_unix_ms;
            let downtime: nat = if passed > 0 {
                (1_000_000 * passed) as nat
            } else {
                0
            };
            let refusal = recovery::recover_refusal(snapshot.version, list, now, downtime);
            &&& refusal is None <==> r is Ok
            &&& r is Ok ==> r->Ok_0@ == recovery::recovered(list, now, downtime)
            &&& r is Err ==> refusal == Some(r->Err_0@)
        },
{
}

} // verus!
