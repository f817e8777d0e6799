//! Which laws govern the requests: every request to a session, a manager, the tasks in
//! memory or a ledger is answered, at a time that the clock shows, as the laws about such
//! answers have it.

use crate::advice::TickOutput;
use crate::clock;
use crate::clock::Clock;
use crate::duration::Duration;
use crate::enforcement;
use crate::enforcement::{ActionLeaseError, ActionLeaseGrant, ActionLeaseLedger, Rejection};
use crate::error::{Refusal, TaskError};
use crate::lifecycle;
use crate::manager;
use crate::manager::TaskManager;
use crate::metadata::Metadata;
use crate::names;
use crate::number::Number;
use crate::recovery;
use crate::registry::Registry;
use crate::rules;
use crate::session;
use crate::session::{
    AdjustInput, AdjustOutput, CheckpointInput, CheckpointOutput, FinishInput, FinishOutput,
    Session, StartInput, StartOutput, TickInput,
};
use crate::store::SnapshotStore;
use crate::task;
use crate::task::{
    AdjustTaskOutcome, AdjustTaskRequest, CheckpointOutcome, CheckpointRequest, FinishTaskOutcome,
    FinishTaskRequest, PersistedState, StartTaskOutcome, StartTaskRequest, TaskTiming, TaskView,
    TickOutcome, TickRequest,
};
use std::sync::Arc;
use vstd::prelude::*;

verus! {

// ---------------------------------------------------------------------------
// Sessions

/// Starts: the task gets the name that is asked for, or else one that tells the time of the
/// wall clock and the number, which is then used up. The store is handed the change.
pub proof fn law_sessions_start_tasks()
    ensures
        forall|s: &mut Session, input: StartInput, r: Result<StartOutput, String>| #[trigger]
            call_ensures(Session::start_task, (s, input), r) && input.task_id is Some ==> exists|
                now: nat,
            | #[trigger]
                session::answers_start(s@, final(s)@, input, input.task_id->0@, now, r)
                    && (r is Ok ==> s@.clock.shows(now)) && manager::asks_store(
                    s@.store,
                    session::start_change(s@, input, input.task_id->0@, now),
                    now,
                    r is Ok,
                    s.log(),
                    final(s).log(),
                ),
        forall|s: &mut Session, input: StartInput, r: Result<StartOutput, String>| #[trigger]
            call_ensures(Session::start_task, (s, input), r) && input.task_id is None ==> exists|
                millis: u128,
                now: nat,
            | #[trigger]
                session::answers_start(
                    session::numbered(s@),
                    final(s)@,
                    input,
                    session::generated_id(millis as nat, s@.next_id),
                    now,
                    r,
                ) && clock::wall_shows(millis) && (r is Ok ==> s@.clock.shows(now))
                    && manager::asks_store(
                    s@.store,
                    session::start_change(
                        s@,
                        input,
                        session::generated_id(millis as nat, s@.next_id),
                        now,
                    ),
                    now,
                    r is Ok,
                    s.log(),
                    final(s).log(),
                ),
{
}

/// Ticks: the store is handed nothing.
pub proof fn law_sessions_tick_tasks()
    ensures
        forall|s: &mut Session, input: TickInput, r: Result<TickOutput, String>| #[trigger]
            call_ensures(Session::tick, (s, input), r) ==> final(s).log() == s.log() && exists|
                now: nat,
            | #[trigger] session::answers_tick(s@, final(s)@, input, now, r) && (r is Ok
                ==> s@.clock.shows(now)),
{
}

/// Checkpoints.
pub proof fn law_sessions_take_checkpoints()
    ensures
        forall|s: &mut Session, input: CheckpointInput, r: Result<CheckpointOutput, String>|
            #[trigger] call_ensures(Session::checkpoint, (s, input), r) ==> exists|now: nat|
                #[trigger] session::answers_checkpoint(s@, final(s)@, input, now, r) && (r is Ok
                    ==> s@.clock.shows(now)) && manager::asks_store(
                    s@.store,
                    session::checkpoint_change(s@, input, now),
                    now,
                    r is Ok,
                    s.log(),
                    final(s).log(),
                ),
{
}

/// Adjustments.
pub proof fn law_sessions_adjust_tasks()
    ensures
        forall|s: &mut Session, input: AdjustInput, r: Result<AdjustOutput, String>| #[trigger]
            call_ensures(Session::adjust_task, (s, input), r) ==> exists|now: nat| #[trigger]
                session::answers_adjustment(s@, final(s)@, input, now, r) && (r is Ok
                    ==> s@.clock.shows(now)) && manager::asks_store(
                    s@.store,
                    session::adjust_change(s@, input, now),
                    now,
                    r is Ok,
                    s.log(),
                    final(s).log(),
                ),
{
}

/// Finishes.
pub proof fn law_sessions_finish_tasks()
    ensures
        forall|s: &mut Session, input: FinishInput, r: Result<FinishOutput, String>| #[trigger]
            call_ensures(Session::finish_task, (s, input), r) ==> exists|now: nat| #[trigger]
                session::answers_finish(s@, final(s)@, input, now, r) && (r is Ok ==> s@.clock.shows(
                    now,
                )) && manager::asks_store(
                    s@.store,
                    session::finish_change(s@, input, now),
                    now,
                    r is Ok,
                    s.log(),
                    final(s).log(),
                ),
{
}

// ---------------------------------------------------------------------------
// Managers

/// Starts, with a host's deadline and without.
pub proof fn law_managers_start_tasks()
    ensures
        forall|
            m: &mut TaskManager,
            request: StartTaskRequest,
            r: Result<StartTaskOutcome, TaskError>,
        |
            #[trigger] call_ensures(TaskManager::start_task, (m, request), r) ==> exists|now: nat|
                #[trigger] manager::answers_start(
                    m@,
                    final(m)@,
                    request@,
                    now,
                    None,
                    m.keeper(),
                    r,
                ) && m.timer().shows(now) && manager::asks_store(
                    m.keeper(),
                    manager::unless(
                        rules::start_refusal(m@, request@, now, None),
                        rules::started(m@, request@, now, None),
                    ),
                    now,
                    r is Ok,
                    m.log(),
                    final(m).log(),
                ),
        forall|
            m: &mut TaskManager,
            request: StartTaskRequest,
            deadline: Option<Duration>,
            r: Result<StartTaskOutcome, TaskError>,
        |
            #[trigger] call_ensures(
                TaskManager::start_task_with_deadline,
                (m, request, deadline),
                r,
            ) ==> exists|now: nat| #[trigger]
                manager::answers_start(
                    m@,
                    final(m)@,
                    request@,
                    now,
                    lifecycle::deadline_of(deadline),
                    m.keeper(),
                    r,
                ) && m.timer().shows(now),
{
}

/// Ticks, with their timing and without: the store is handed nothing.
pub proof fn law_managers_tick_tasks()
    ensures
        forall|
            m: &mut TaskManager,
            request: TickRequest,
            r: Result<(TickOutcome, TaskTiming), TaskError>,
        |
            #[trigger] call_ensures(TaskManager::tick_with_timing, (m, request), r) ==> final(m).log() == m.log() && exists|now: nat| #[trigger]
                manager::answers_tick(m@, final(m)@, request.task_id@, now, r)
                    && m.timer().shows(now),
        forall|m: &mut TaskManager, request: TickRequest, r: Result<TickOutcome, TaskError>|
            #[trigger] call_ensures(TaskManager::tick, (m, request), r) ==> final(m).log()
                == m.log() && exists|now: nat, timed: Result<(TickOutcome, TaskTiming), TaskError>|
                #[trigger] manager::answers_tick(m@, final(m)@, request.task_id@, now, timed)
                    && m.timer().shows(now) && match r {
                    Ok(outcome) => timed is Ok && timed->Ok_0.0 == outcome,
                    Err(e) => timed == Err::<(TickOutcome, TaskTiming), TaskError>(e),
                },
{
}

/// Checkpoints and finishes.
pub proof fn law_managers_take_checkpoints_and_finish()
    ensures
        forall|
            m: &mut TaskManager,
            request: CheckpointRequest,
            r: Result<CheckpointOutcome, TaskError>,
        |
            #[trigger] call_ensures(TaskManager::checkpoint, (m, request), r) ==> exists|now: nat|
                #[trigger] manager::answers_checkpoint(
                    m@,
                    final(m)@,
                    request@,
                    now,
                    m.keeper(),
                    r,
                ) && m.timer().shows(now) && manager::asks_store(
                    m.keeper(),
                    manager::unless(
                        rules::checkpoint_refusal(m@, request@),
                        rules::checkpointed(m@, request@, now),
                    ),
                    now,
                    r is Ok,
                    m.log(),
                    final(m).log(),
                ),
        forall|
            m: &mut TaskManager,
            request: FinishTaskRequest,
            r: Result<FinishTaskOutcome, TaskError>,
        |
            #[trigger] call_ensures(TaskManager::finish_task, (m, request), r) ==> exists|
                now: nat,
            | #[trigger]
                manager::answers_finish(
                    m@,
                    final(m)@,
                    request.task_id@,
                    names::text_of(request.reason),
                    request.force,
                    now,
                    m.keeper(),
                    r,
                ) && m.timer().shows(now) && manager::asks_store(
                    m.keeper(),
                    manager::unless(
                        rules::finish_refusal(
                            m@,
                            request.task_id@,
                            names::text_of(request.reason),
                            request.force,
                        ),
                        rules::finished(m@, request.task_id@, request.force, now),
                    ),
                    now,
                    r is Ok,
                    m.log(),
                    final(m).log(),
                ),
{
}

/// Adjustments, with a host's deadline and without.
pub proof fn law_managers_adjust_tasks()
    ensures
        forall|
            m: &mut TaskManager,
            request: AdjustTaskRequest,
            r: Result<AdjustTaskOutcome, TaskError>,
        |
            #[trigger] call_ensures(TaskManager::adjust_task, (m, request), r) ==> exists|now: nat|
                #[trigger] manager::answers_adjustment(
                    m@,
                    final(m)@,
                    request@,
                    now,
                    None,
                    m.keeper(),
                    r,
                ) && m.timer().shows(now) && manager::asks_store(
                    m.keeper(),
                    manager::unless(
                        rules::adjust_refusal(m@, request@, now, None),
                        rules::adjusted(m@, request@, now, None),
                    ),
                    now,
                    r is Ok,
                    m.log(),
                    final(m).log(),
                ),
        forall|
            m: &mut TaskManager,
            request: AdjustTaskRequest,
            deadline: Option<Duration>,
            r: Result<AdjustTaskOutcome, TaskError>,
        |
            #[trigger] call_ensures(
                TaskManager::adjust_task_with_deadline,
                (m, request, deadline),
                r,
            ) ==> exists|now: nat| #[trigger]
                manager::answers_adjustment(
                    m@,
                    final(m)@,
                    request@,
                    now,
                    lifecycle::deadline_of(deadline),
                    m.keeper(),
                    r,
                ) && m.timer().shows(now),
{
}

/// Questions: for a task, for its time, for all tasks, for their number and for a snapshot.
pub proof fn law_managers_answer_questions(
    m: TaskManager,
    id: &str,
    view: Result<TaskView, TaskError>,
    timing: Result<TaskTiming, TaskError>,
    views: Vec<TaskView>,
    count: usize,
    state: PersistedState,
)
    requires
        call_ensures(TaskManager::get_task, (&m, id), view),
        call_ensures(TaskManager::task_timing, (&m, id), timing),
        call_ensures(TaskManager::list_tasks, (&m,), views),
        call_ensures(TaskManager::task_count, (&m,), count),
        call_ensures(TaskManager::snapshot, (&m,), state),
    ensures
        exists|now: nat| #[trigger]
            manager::answers_get(m@, id@, now, view) && m.timer().shows(now),
        exists|now: nat| #[trigger]
            manager::answers_timing(m@, id@, now, timing) && m.timer().shows(now),
        exists|now: nat| #[trigger]
            lifecycle::tells_all(m@, now, views@) && m.timer().shows(now),
        count == m@.dom().len(),
        exists|now: nat| #[trigger] recovery::holds(state, m@, now) && m.timer().shows(now),
{
}

// ---------------------------------------------------------------------------
// The tasks in memory

/// Every request to the tasks in memory is carried out as its rules say, or refused with
/// the reason and without a change.
pub proof fn law_requests_follow_the_rules()
    ensures
        forall|
            g: &mut Registry,
            request: StartTaskRequest,
            now: Duration,
            deadline: Option<Duration>,
            r: Result<StartTaskOutcome, TaskError>,
        |
            #[trigger] call_ensures(Registry::start, (g, request, now, deadline), r) ==> {
                let limit = lifecycle::deadline_of(deadline);
                let refusal = rules::start_refusal(g@, request@, now@, limit);
                &&& r is Ok <==> refusal is None
                &&& r is Ok ==> final(g)@ == rules::started(g@, request@, now@, limit)
                &&& r is Err ==> refusal == Some(r->Err_0@) && final(g)@ == g@
            },
        forall|
            g: &mut Registry,
            request: TickRequest,
            now: Duration,
            r: Result<(TickOutcome, TaskTiming), TaskError>,
        |
            #[trigger] call_ensures(Registry::tick, (g, request, now), r) ==> {
                let refusal = rules::tick_refusal(g@, request.task_id@);
                &&& r is Ok <==> refusal is None
                &&& r is Ok ==> final(g)@ == rules::ticked(g@, request.task_id@, now@)
                &&& r is Err ==> refusal == Some(r->Err_0@) && final(g)@ == g@
            },
        forall|
            g: &mut Registry,
            request: CheckpointRequest,
            now: Duration,
            r: Result<CheckpointOutcome, TaskError>,
        |
            #[trigger] call_ensures(Registry::checkpoint, (g, request, now), r) ==> {
                let refusal = rules::checkpoint_refusal(g@, request@);
                &&& r is Ok <==> refusal is None
                &&& r is Ok ==> final(g)@ == rules::checkpointed(g@, request@, now@)
                    && Some(r->Ok_0.checkpoint@) == final(g)@[request.task_id@].last_checkpoint
                &&& r is Err ==> refusal == Some(r->Err_0@) && final(g)@ == g@
            },
        forall|
            g: &mut Registry,
            request: AdjustTaskRequest,
            now: Duration,
            deadline: Option<Duration>,
            r: Result<AdjustTaskOutcome, TaskError>,
        |
            #[trigger] call_ensures(Registry::adjust, (g, request, now, deadline), r) ==> {
                let limit = lifecycle::deadline_of(deadline);
                let refusal = rules::adjust_refusal(g@, request@, now@, limit);
                &&& r is Ok <==> refusal is None
                &&& r is Ok ==> final(g)@ == rules::adjusted(g@, request@, now@, limit)
                &&& r is Err ==> refusal == Some(r->Err_0@) && final(g)@ == g@
            },
        forall|
            g: &mut Registry,
            request: FinishTaskRequest,
            now: Duration,
            r: Result<FinishTaskOutcome, TaskError>,
        |
            #[trigger] call_ensures(Registry::finish, (g, request, now), r) ==> {
                let refusal = rules::finish_refusal(
                    g@,
                    request.task_id@,
                    names::text_of(request.reason),
                    request.force,
                );
                &&& r is Ok <==> refusal is None
                &&& r is Ok ==> final(g)@ == rules::finished(
                    g@,
                    request.task_id@,
                    request.force,
                    now@,
                )
                &&& r is Err ==> refusal == Some(r->Err_0@) && final(g)@ == g@
            },
{
}

/// A change that could not be saved is taken back, and told.
pub proof fn law_unsaved_changes_are_taken_back()
    ensures
        forall|
            g: &mut Registry,
            before: Registry,
            saved: Result<(), String>,
            r: Result<(), TaskError>,
        |
            #[trigger] call_ensures(manager::persist_or_rollback, (g, before, saved), r) ==> {
                &&& saved is Ok <==> r is Ok
                &&& saved is Ok ==> *final(g) == *g
                &&& saved matches Err(said) ==> r->Err_0@ == Refusal::Persistence(said@) && *final(g) == before
            },
{
}

/// What a store's answer gives back: nothing where it holds no snapshot, and otherwise the
/// tasks of the snapshot, or the reason why it cannot be taken. Where the store fails, its
/// words are told.
pub proof fn law_stored_tasks_are_restored(
    loaded: Result<Option<PersistedState>, String>,
    now: Duration,
    now_unix_ms: u64,
    r: Result<Registry, TaskError>,
)
    requires
        call_ensures(manager::restore_loaded, (loaded, now, now_unix_ms), r),
    ensures
        loaded matches Err(said) ==> r is Err && r->Err_0@ == Refusal::Persistence(said@),
        loaded matches Ok(None) ==> r is Ok && r->Ok_0@.dom() =~= Set::<Seq<char>>::empty(),
        loaded matches Ok(Some(snapshot)) ==> {
            let list = task::saved_tasks(snapshot.tasks@);
            let downtime = recovery::downtime(snapshot.saved_at_unix_ms, now_unix_ms);
            let refusal = recovery::recover_refusal(snapshot.version, list, now@, downtime);
            &&& r is Ok <==> refusal is None
            &&& r is Ok ==> r->Ok_0@ == recovery::recovered(list, now@, downtime)
            &&& r is Err ==> Some(r->Err_0@) == refusal
        },
{
}

/// A manager with a store starts with what the store gives back, at a time that its clock
/// shows. It goes by that clock, saves in that store, and has saved nothing yet.
pub proof fn law_managers_with_stores<C: Clock + 'static, S: SnapshotStore + 'static>(
    clock: C,
    store: Arc<S>,
    r: Result<TaskManager, TaskError>,
    now: nat,
    state: PersistedState,
    answer: Result<(), String>,
)
    requires
        call_ensures(TaskManager::with_store::<C, S>, (clock, store), r),
    ensures
        exists|loaded: Result<Option<PersistedState>, String>, at: nat, now_unix_ms: u64| #[trigger]
            manager::answers_load(loaded, at, now_unix_ms, r) && store.gives(loaded)
                && clock.shows(at) && clock::wall_reads(now_unix_ms),
        r matches Ok(m) ==> {
            &&& m.timer().shows(now) <==> clock.shows(now)
            &&& m.keeper() is Some
            &&& m.keeper()->Some_0.takes(state, answer) <==> store.takes(state, answer)
            &&& m.log().len() == 0
        },
{
}

// ---------------------------------------------------------------------------
// Ledgers and metadata

/// Every request to a ledger is carried out as the laws about registering, spending and
/// revoking have it, or refused with the reason and without a change.
pub proof fn law_ledgers_follow_the_rules()
    ensures
        forall|
            l: &mut ActionLeaseLedger,
            started: Duration,
            task: &str,
            action: &str,
            eta: Number,
            grant: &ActionLeaseGrant,
            r: Result<(), ActionLeaseError>,
        |
            #[trigger] call_ensures(
                ActionLeaseLedger::register,
                (l, started, task, action, eta, grant),
                r,
            ) ==> {
                let refusal = enforcement::register_refusal(
                    l@,
                    started@,
                    task@,
                    action@,
                    eta,
                    grant@,
                );
                &&& r is Ok <==> refusal is None
                &&& r is Ok ==> final(l)@ == enforcement::registered(l@, started@, grant@)
                &&& r is Err ==> refusal == Some(r->Err_0@) && final(l)@ == l@
            },
        forall|
            l: &mut ActionLeaseLedger,
            id: &str,
            task: &str,
            action: &str,
            eta: Number,
            now: Duration,
            r: Result<(), ActionLeaseError>,
        |
            #[trigger] call_ensures(
                ActionLeaseLedger::consume,
                (l, id, task, action, eta, now),
                r,
            ) ==> {
                let refusal = enforcement::consume_refusal(l@, id@, task@, action@, eta, now@);
                &&& r is Ok <==> refusal is None
                &&& r is Ok ==> final(l)@ == enforcement::consumed(l@, id@)
                &&& r is Err ==> refusal == Some(r->Err_0@) && final(l)@ == l@
            },
        forall|l: &mut ActionLeaseLedger, task: &str, r: Result<(), ActionLeaseError>| #[trigger]
            call_ensures(ActionLeaseLedger::revoke_task, (l, task), r) ==> {
                &&& r is Ok <==> enforcement::valid_task(task@)
                &&& r is Ok ==> final(l)@ == enforcement::revoked(l@, task@)
                &&& r is Err ==> r->Err_0@ == Rejection::BindingMismatch("task_id"@) && final(l)@
                    == l@
            },
{
}

/// What is put into metadata under a name is found there, and the rest stays.
pub proof fn law_metadata_are_put()
    ensures
        forall|m: &mut Metadata, name: &str, value: &str, r: ()| #[trigger]
            call_ensures(Metadata::insert, (m, name, value), r) ==> final(m)@ == m@.insert(
                name@,
                value@,
            ),
{
}

} // verus!
