//! What the fields of requests and answers stand for, and what requests, profiles and
//! ledgers are like when they are made.

use crate::advice::TickOutput;
use crate::clock::{Clock, ManualClock};
use crate::duration::Duration;
use crate::enforcement::{ActionLeaseError, ActionLeaseGrant, ActionLeaseLedger, Rejection};
use crate::error::{Refusal, TaskError};
use crate::manager::TaskManager;
use crate::metadata;
use crate::metadata::Metadata;
use crate::names;
use crate::number::Amount;
use crate::policy::{ScheduleStatus, TimeMode};
use crate::schedule;
use crate::schedule::{Mode, Schedule, SchedulePhase};
use crate::session::{Session, Settings};
use crate::store;
use crate::store::{MemoryStore, SnapshotStore};
use crate::task;
use crate::task::{
    AdjustTaskRequest, CheckpointRecord, CheckpointRequest, FinishTaskRequest, PersistedState,
    PersistedTask,
    StartTaskRequest, State, TaskStatus, TaskView, TickRequest,
};
use crate::text;
use vstd::prelude::*;

verus! {

// ---------------------------------------------------------------------------
// What the fields stand for

/// The fields of a report.
pub proof fn law_fields_of_reports(view: TaskView)
    ensures
        view@.id == view.task_id@,
        view@.parent == names::text_of(view.parent_id),
        view@.budget == view.budget_secs@,
        view@.elapsed == view.elapsed_secs@,
        view@.remaining == view.remaining_secs@,
        view@.child_reserved == view.child_reserved_secs@,
        view@.reserve == view.adaptive_reserve_secs@,
        view@.available == view.available_secs@,
        view@.recommended == view.recommended_work_secs@,
        view@.mode == view.mode,
        view@.phase == names::text_of(view.phase),
        view@.status == view.status,
        view@.ticks == view.ticks,
        view@.checkpoints == view.checkpoints,
        view@.last_checkpoint == task::record_of(view.last_checkpoint),
        view@.children == view.children@,
        view@.metadata == view.metadata@,
        view@.plan_submitted == view.plan_submitted,
{
}

/// The fields of a tick's answer.
pub proof fn law_fields_of_advice(out: TickOutput)
    ensures
        out@.remaining == out.remaining_seconds.count,
        out@.actual_elapsed == out.actual_elapsed_seconds.count,
        out@.accounted_elapsed == out.accounted_elapsed_seconds.count,
        out@.elapsed == out.elapsed_seconds.count,
        out@.overrun == out.overrun_seconds.count,
        out@.deadline_met == out.deadline_met,
        out@.remaining_percent == out.remaining_percent.count,
        out@.mode == out.mode@,
        out@.schedule == out.schedule@,
        out@.usable_work == out.usable_work_seconds.count,
        out@.reserved == out.reserved_seconds.count,
        out@.max_new_action == out.max_new_action_seconds.count,
        out@.next_check == out.next_check_seconds.count,
        out@.must_converge == out.must_converge,
        out@.must_validate == out.must_validate,
        out@.must_finalize == out.must_finalize,
        out@.must_stop == out.must_stop,
        out@.directive == out.directive@,
        out@.must_plan == out.must_plan,
        out@.planning_remaining == out.planning_seconds_remaining.count,
        out@.lease_ceiling == out.action_lease_ceiling_seconds.count,
        out@.action_fits == out.action_fits,
        out@.action_lease is Some <==> out.action_lease is Some,
        out.action_lease matches Some(grant) ==> out@.action_lease == Some(grant@),
        out@.reason is Some <==> out.reason is Some,
        out.reason matches Some(reason) ==> out@.reason == Some(reason@),
{
}

/// The fields of a checkpoint and of a grant.
pub proof fn law_fields_of_records(record: CheckpointRecord, grant: ActionLeaseGrant)
    ensures
        record@.sequence == record.sequence,
        record@.elapsed == record.elapsed_secs@,
        record@.note == names::text_of(record.note),
        record@.progress == record.progress,
        record@.eta == record.estimated_remaining_work_secs,
        record@.plan_complete == record.plan_complete,
        grant@.id == grant.lease_id@,
        grant@.task == grant.task_id@,
        grant@.action == grant.action@,
        grant@.duration_seconds == grant.duration_seconds,
        grant@.expires_in_seconds == grant.expires_in_seconds,
        grant@.expiry_anchor == grant.expiry_anchor@,
        grant@.one_shot == grant.one_shot,
{
}

/// The fields of requests.
pub proof fn law_fields_of_requests(
    start: StartTaskRequest,
    checkpoint: CheckpointRequest,
    adjust: AdjustTaskRequest,
)
    ensures
        start@.id == start.task_id@,
        start@.budget == start.budget_secs,
        start@.parent == names::text_of(start.parent_id),
        start@.mode == start.mode,
        start@.schedule == start.schedule@,
        start@.metadata == start.metadata@,
        checkpoint@.id == checkpoint.task_id@,
        checkpoint@.note == names::text_of(checkpoint.note),
        checkpoint@.progress == checkpoint.progress,
        checkpoint@.eta == checkpoint.estimated_remaining_work_secs,
        checkpoint@.plan_complete == checkpoint.plan_complete,
        checkpoint@.replan == checkpoint.replan,
        adjust@.id == adjust.task_id@,
        adjust@.budget == adjust.budget_secs,
        adjust@.mode == adjust.mode,
        adjust@.schedule is Some <==> adjust.schedule is Some,
        adjust.schedule matches Some(schedule) ==> adjust@.schedule == Some(schedule@),
{
}

/// The fields of saved tasks and of schedules.
pub proof fn law_fields_of_snapshots(saved: PersistedTask, phase: SchedulePhase, schedule: Schedule)
    ensures
        saved@.id == saved.task_id@,
        saved@.parent == names::text_of(saved.parent_id),
        saved@.budget == saved.budget_secs,
        saved@.mode == saved.mode,
        saved@.schedule == saved.schedule@,
        saved@.metadata == saved.metadata@,
        saved@.status == saved.status,
        saved@.elapsed == saved.elapsed_secs,
        saved@.ticks == saved.ticks,
        saved@.checkpoints == saved.checkpoints,
        saved@.last_checkpoint == task::record_of(saved.last_checkpoint),
        saved@.progress == saved.progress,
        saved@.plan_submitted == saved.plan_submitted,
        phase@.name == phase.name@,
        phase@.until == phase.until_secs,
        phase@.mode == phase.mode,
        phase@.reserve_ratio == phase.reserve_ratio,
        phase@.tick_interval == phase.tick_interval_secs,
        schedule@.tick_interval == schedule.tick_interval_secs,
        schedule@.phases.len() == schedule.phases@.len(),
        forall|i: int|
            0 <= i < schedule.phases@.len() ==> #[trigger] schedule@.phases[i]
                == schedule.phases@[i]@,
{
}

/// Errors say what they are named after.
pub proof fn law_kinds_of_errors(said: String, field: &'static str)
    ensures
        TaskError::Invalid(said)@ == Refusal::Invalid(said@),
        TaskError::AlreadyExists(said)@ == Refusal::AlreadyExists(said@),
        TaskError::NotFound(said)@ == Refusal::NotFound(said@),
        TaskError::NotActive(said)@ == Refusal::NotActive(said@),
        TaskError::ParentNotFound(said)@ == Refusal::ParentNotFound(said@),
        TaskError::ParentUnavailable(said)@ == Refusal::ParentUnavailable(said@),
        TaskError::BudgetExhausted(said)@ == Refusal::BudgetExhausted(said@),
        TaskError::ActiveChildren(said)@ == Refusal::ActiveChildren(said@),
        TaskError::EmptyAdjustment@ == Refusal::EmptyAdjustment,
        TaskError::Persistence(said)@ == Refusal::Persistence(said@),
        TaskError::CorruptSnapshot(said)@ == Refusal::CorruptSnapshot(said@),
        ActionLeaseError::InvalidLease(field)@ == Rejection::InvalidLease(field@),
        ActionLeaseError::DuplicateLease@ == Rejection::DuplicateLease,
        ActionLeaseError::UnknownLease@ == Rejection::UnknownLease,
        ActionLeaseError::Superseded@ == Rejection::Superseded,
        ActionLeaseError::AlreadyConsumed@ == Rejection::AlreadyConsumed,
        ActionLeaseError::Revoked@ == Rejection::Revoked,
        ActionLeaseError::BindingMismatch(field)@ == Rejection::BindingMismatch(field@),
        ActionLeaseError::Expired@ == Rejection::Expired,
        ActionLeaseError::WouldExceedDeadline@ == Rejection::WouldExceedDeadline,
        ActionLeaseError::Unavailable@ == Rejection::Unavailable,
{
}

/// Errors tell what they say in one line.
pub proof fn law_messages_of_errors(
    e: TaskError,
    told: String,
    lease: ActionLeaseError,
    lease_told: String,
)
    requires
        call_ensures(TaskError::message, (&e,), told),
        call_ensures(ActionLeaseError::message, (&lease,), lease_told),
    ensures
        told@ == e@.line(),
        lease_told@ == lease@.line(),
{
}

// ---------------------------------------------------------------------------
// What is made

/// Requests that ask for nothing but what they must.
pub proof fn law_plain_requests(
    id: &str,
    budget: Amount,
    start: StartTaskRequest,
    tick: TickRequest,
    checkpoint: CheckpointRequest,
    adjust: AdjustTaskRequest,
    finish: FinishTaskRequest,
)
    requires
        call_ensures(StartTaskRequest::new, (id, budget), start),
        call_ensures(TickRequest::new, (id,), tick),
        call_ensures(CheckpointRequest::new, (id,), checkpoint),
        call_ensures(AdjustTaskRequest::new, (id,), adjust),
        call_ensures(FinishTaskRequest::new, (id,), finish),
    ensures
        start.task_id@ == id@,
        start.budget_secs == budget,
        start@.parent is None,
        start.mode == Mode::Balanced,
        start.schedule.tick_interval_secs == Amount::Billionths(1_000_000_000),
        start@.schedule.phases.len() == 0,
        start@.metadata == Map::<Seq<char>, Seq<char>>::empty(),
        tick.task_id@ == id@,
        checkpoint.task_id@ == id@,
        checkpoint@.note is None,
        checkpoint.progress is None,
        checkpoint.estimated_remaining_work_secs is None,
        !checkpoint.plan_complete,
        !checkpoint.replan,
        adjust.task_id@ == id@,
        adjust.budget_secs is None,
        adjust.mode is None,
        adjust@.schedule is None,
        finish.task_id@ == id@,
        finish.reason is None,
        !finish.force,
{
}

/// Requests that ask for more: each says what is added, and keeps the rest.
pub proof fn law_fuller_requests(
    start: StartTaskRequest,
    parent: &str,
    mode: Mode,
    schedule: Schedule,
    child: StartTaskRequest,
    profiled: StartTaskRequest,
    timed: StartTaskRequest,
    adjust: AdjustTaskRequest,
    budget: Amount,
    funded: AdjustTaskRequest,
    moded: AdjustTaskRequest,
    planned: AdjustTaskRequest,
)
    requires
        call_ensures(StartTaskRequest::with_parent, (start, parent), child),
        call_ensures(StartTaskRequest::with_mode, (start, mode), profiled),
        call_ensures(StartTaskRequest::with_schedule, (start, schedule), timed),
        call_ensures(AdjustTaskRequest::with_budget, (adjust, budget), funded),
        call_ensures(AdjustTaskRequest::with_mode, (adjust, mode), moded),
        call_ensures(AdjustTaskRequest::with_schedule, (adjust, schedule), planned),
    ensures
        child@ == (task::Start { parent: Some(parent@), ..start@ }),
        profiled@ == (task::Start { mode, ..start@ }),
        timed@ == (task::Start { schedule: schedule@, ..start@ }),
        funded@ == (task::Adjustment { budget: Some(budget), ..adjust@ }),
        moded@ == (task::Adjustment { mode: Some(mode), ..adjust@ }),
        planned@ == (task::Adjustment { schedule: Some(schedule@), ..adjust@ }),
{
}

/// Phases and schedules as they are made.
pub proof fn law_plain_schedules(
    name: &str,
    until: Amount,
    phase: SchedulePhase,
    interval: Amount,
    schedule: Schedule,
    mode: Mode,
    profiled: SchedulePhase,
    held: SchedulePhase,
    timed: SchedulePhase,
)
    requires
        call_ensures(SchedulePhase::new, (name, until), phase),
        call_ensures(Schedule::new, (interval,), schedule),
        call_ensures(SchedulePhase::with_mode, (phase, mode), profiled),
        call_ensures(SchedulePhase::with_reserve_ratio, (phase, interval), held),
        call_ensures(SchedulePhase::with_tick_interval, (phase, interval), timed),
    ensures
        phase.name@ == name@,
        phase.until_secs == until,
        phase.mode is None && phase.reserve_ratio is None && phase.tick_interval_secs is None,
        schedule.tick_interval_secs == interval,
        schedule.phases@.len() == 0,
        profiled@ == (schedule::Phase { mode: Some(mode), ..phase@ }),
        held@ == (schedule::Phase { reserve_ratio: Some(interval), ..phase@ }),
        timed@ == (schedule::Phase { tick_interval: Some(interval), ..phase@ }),
{
    assert(schedule@.phases.len() == schedule.phases@.len());
}

/// Profiles as they are told: their share in billionths, their interval and their name, and
/// the profile that a text names, in any case and with white space around it.
pub proof fn law_profiles_are_told(
    mode: Mode,
    ratio: u128,
    interval: Duration,
    name: &'static str,
    value: &str,
    parsed: Result<Mode, String>,
)
    requires
        call_ensures(Mode::reserve_ratio, (&mode,), ratio),
        call_ensures(Mode::default_tick_interval_secs, (&mode,), interval),
        call_ensures(Mode::as_str, (&mode,), name),
        call_ensures(Mode::parse, (value,), parsed),
    ensures
        match mode {
            Mode::Balanced => ratio == 120_000_000 && interval@ == 1_000_000_000 && name@
                == "balanced"@,
            Mode::Interactive => ratio == 200_000_000 && interval@ == 250_000_000 && name@
                == "interactive"@,
            Mode::Deep => ratio == 70_000_000 && interval@ == 2_000_000_000 && name@ == "deep"@,
            Mode::Deadline => ratio == 250_000_000 && interval@ == 100_000_000 && name@
                == "deadline"@,
        },
        ({
            let word = text::lowered(text::trimmed(value@));
            &&& parsed is Ok <==> schedule::mode_named(word) is Some
            &&& parsed is Ok ==> schedule::mode_named(word) == Some(parsed->Ok_0)
            &&& parsed is Err ==> parsed->Err_0@ == "unknown mode: "@ + word
        }),
{
}

/// Modes, schedule states and statuses are told by name.
pub proof fn law_names_are_told(
    mode: TimeMode,
    mode_name: &'static str,
    state: ScheduleStatus,
    state_name: &'static str,
    status: TaskStatus,
    status_name: &'static str,
)
    requires
        call_ensures(TimeMode::as_str, (&mode,), mode_name),
        call_ensures(ScheduleStatus::as_str, (&state,), state_name),
        call_ensures(TaskStatus::as_str, (&status,), status_name),
    ensures
        mode_name@ == mode.name(),
        state_name@ == state.name(),
        status_name@ == status.name(),
{
}

/// A new manager has no tasks and no store, and goes by its clock.
pub proof fn law_new_managers<C: Clock + 'static>(clock: C, manager: TaskManager, now: nat)
    requires
        call_ensures(TaskManager::new::<C>, (clock,), manager),
    ensures
        manager@ == Map::<Seq<char>, State>::empty(),
        manager.keeper() is None,
        manager.log().len() == 0,
        manager.timer().shows(now) <==> clock.shows(now),
{
}

/// A new session has the tasks, the clock and the store of its manager and no active task,
/// and numbers its tasks from one; and a new ledger has only its deadline.
pub proof fn law_what_is_new(
    manager: TaskManager,
    settings: Settings,
    session: Session,
    deadline: Duration,
    ledger: ActionLeaseLedger,
)
    requires
        call_ensures(Session::new, (manager, settings), session),
        call_ensures(ActionLeaseLedger::new, (deadline,), ledger),
    ensures
        session@.tasks == manager@,
        session@.clock == manager.timer(),
        session@.store == manager.keeper(),
        session@.active is None,
        session@.next_id == 1,
        session@.settings == settings,
        session.log() == manager.log(),
        ledger@.hard_deadline == deadline@,
        ledger@.leases.dom() =~= Set::<Seq<char>>::empty(),
        ledger@.revoked =~= Set::<Seq<char>>::empty(),
{
}

/// Metadata hold what was put last under each name.
pub proof fn law_metadata(
    list: Vec<(String, String)>,
    made: Metadata,
    name: &str,
    value: Option<&String>,
)
    requires
        call_ensures(Metadata::from_list, (list,), made),
        call_ensures(Metadata::get, (&made, name), value),
    ensures
        value is Some <==> exists|i: int| 0 <= i < list@.len() && (#[trigger] list@[i]).0@ == name@,
        value matches Some(value) ==> exists|i: int|
            0 <= i < list@.len() && (#[trigger] list@[i]).0@ == name@ && value@ == list@[i].1@
                && forall|j: int| i < j < list@.len() ==> (#[trigger] list@[j]).0@ != name@,
{
    lemma_last_entry(list@, name@);
}

proof fn lemma_last_entry(entries: Seq<(String, String)>, name: Seq<char>)
    ensures
        metadata::entries_map(entries).contains_key(name) <==> exists|i: int|
            0 <= i < entries.len() && (#[trigger] entries[i]).0@ == name,
        metadata::entries_map(entries).contains_key(name) ==> exists|i: int|
            0 <= i < entries.len() && (#[trigger] entries[i]).0@ == name
                && metadata::entries_map(entries)[name] == entries[i].1@ && forall|j: int|
                i < j < entries.len() ==> (#[trigger] entries[j]).0@ != name,
    decreases entries.len(),
{
    if entries.len() > 0 {
        let shorter = entries.drop_last();
        let end = entries.len() - 1;
        lemma_last_entry(shorter, name);
        assert(entries[end] == entries.last());
        if entries.last().0@ == name {
            assert(entries[end].0@ == name);
        } else {
            if metadata::entries_map(shorter).contains_key(name) {
                let i = choose|i: int|
                    0 <= i < shorter.len() && (#[trigger] shorter[i]).0@ == name
                        && metadata::entries_map(shorter)[name] == shorter[i].1@ && forall|j: int|
                        i < j < shorter.len() ==> (#[trigger] shorter[j]).0@ != name;
                assert(entries[i] == shorter[i]);
                assert forall|j: int| i < j < entries.len() implies (#[trigger] entries[j]).0@
                    != name by {
                    if j < shorter.len() {
                        assert(shorter[j] == entries[j]);
                    }
                }
            }
            if exists|i: int| 0 <= i < entries.len() && (#[trigger] entries[i]).0@ == name {
                let i = choose|i: int| 0 <= i < entries.len() && (#[trigger] entries[i]).0@ == name;
                assert(shorter[i] == entries[i]);
            }
        }
    }
}

/// A store in memory takes every snapshot and can always be read, and two snapshots have
/// the same contents exactly when they hold the same tasks, saved at the same time in the
/// same form.
pub proof fn law_stores_in_memory(
    store: MemoryStore,
    state: PersistedState,
    other: PersistedState,
    taken: Result<(), String>,
    given: Result<Option<PersistedState>, String>,
)
    ensures
        store.takes(state, taken) <==> taken is Ok && store.puts(state),
        store.gives(given) <==> given is Ok && store.may_hold(given->Ok_0),
        store::same_contents(state, state),
        store::same_contents(state, other) ==> state.version == other.version
            && state.saved_at_unix_ms == other.saved_at_unix_ms && state.tasks@.len()
            == other.tasks@.len(),
        forall|i: int|
            store::same_contents(state, other) && 0 <= i < state.tasks@.len() ==> (
            #[trigger] state.tasks@[i])@ == other.tasks@[i]@,
{
    if store::same_contents(state, other) {
        assert(task::saved_tasks(state.tasks@).len() == task::saved_tasks(other.tasks@).len());
        assert forall|i: int| 0 <= i < state.tasks@.len() implies (#[trigger] state.tasks@[i])@
            == other.tasks@[i]@ by {
            assert(task::saved_tasks(state.tasks@)[i] == task::saved_tasks(other.tasks@)[i]);
        }
    }
}

/// A clock that is set by hand shows every time that may be read from it, and no other.
pub proof fn law_clocks_set_by_hand(clock: ManualClock, nanos: u64, now: nat)
    ensures
        clock.shows(nanos as nat) <==> clock.may_read(nanos),
        now > u64::MAX ==> !clock.shows(now),
{
}

} // verus!
