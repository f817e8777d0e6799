//! The task manager: the tasks, the clock that times them and the store that keeps them.

use crate::clock;
use crate::clock::{Clock, Timer};
use crate::duration::Duration;
use crate::error::{Refusal, TaskError};
use crate::lifecycle;
use crate::names;
use crate::recovery;
use crate::registry::{Registry, Tasks};
use crate::rules;
use crate::store::{Archive, Handed, Keeper, SnapshotStore};
use crate::task;
use crate::task::{
    Adjustment, AdjustTaskOutcome, AdjustTaskRequest, Checkpoint, CheckpointOutcome,
    CheckpointRequest, FinishTaskOutcome, FinishTaskRequest, PersistedState, Start, StartTaskOutcome,
    StartTaskRequest, State, TaskTiming, TaskView, TickOutcome, TickRequest,
};
use std::sync::Arc;
use vstd::prelude::*;

verus! {

/// Takes back a change that could not be saved.
pub fn persist_or_rollback(
    registry: &mut Registry,
    before: Registry,
    saved: Result<(), String>,
) -> (r: Result<(), TaskError>)
    ensures
        match saved {
            Ok(()) => r is Ok && *final(registry) == *old(registry),
            Err(text) => r is Err && r->Err_0@ == Refusal::Persistence(text@) && *final(registry)
                == before,
        },
{
    match saved {
        Ok(()) => Ok(()),
        Err(text) => {
            *registry = before;
            Err(TaskError::Persistence(text))
        },
    }
}

/// The tasks that a store's answer gives back: none where it holds no snapshot.
pub fn restore_loaded(
    loaded: Result<Option<PersistedState>, String>,
    now: Duration,
    now_unix_ms: u64,
) -> (r: Result<Registry, TaskError>)
    ensures
        r is Ok ==> r->Ok_0.wf(),
        match loaded {
            Err(text) => r is Err && r->Err_0@ == Refusal::Persistence(text@),
            Ok(None) => r is Ok && r->Ok_0@ == Map::<Seq<char>, State>::empty(),
            Ok(Some(snapshot)) => given_back(snapshot, now@, now_unix_ms, r),
        },
{
    match loaded {
        Err(text) => Err(TaskError::Persistence(text)),
        Ok(None) => Ok(Registry::new()),
        Ok(Some(snapshot)) => recovery::recover(&snapshot, now, now_unix_ms),
    }
}

/// What a snapshot gives back at `now`.
pub open spec fn given_back(
    snapshot: PersistedState,
    now: nat,
    now_unix_ms: u64,
    r: Result<Registry, TaskError>,
) -> bool {
    let list = task::saved_tasks(snapshot.tasks@);
    let downtime = recovery::downtime(snapshot.saved_at_unix_ms, now_unix_ms);
    let refusal = recovery::recover_refusal(snapshot.version, list, now, downtime);
    match r {
        Ok(registry) => refusal is None && registry@ == recovery::recovered(list, now, downtime),
        Err(e) => refusal == Some(e@),
    }
}

/// How a request to start a task is answered at `now`, and what it leaves.
pub open spec fn answers_start(
    before: Tasks,
    after: Tasks,
    request: Start,
    now: nat,
    deadline: Option<nat>,
    store: Keeper,
    r: Result<StartTaskOutcome, TaskError>,
) -> bool {
    let refusal = rules::start_refusal(before, request, now, deadline);
    match r {
        Ok(outcome) => {
            &&& refusal is None
            &&& after == rules::started(before, request, now, deadline)
            &&& answers_save(store, after, now, Ok(()))
            &&& lifecycle::tells_start(before, request, now, deadline, outcome)
        },
        Err(e) => {
            &&& after == before
            &&& match refusal {
                Some(refusal) => e@ == refusal,
                None => unsaved(
                    store,
                    rules::started(before, request, now, deadline),
                    now,
                    e@,
                ),
            }
        },
    }
}

/// Whether the store may give that answer when it is handed the tasks as they are at
/// `now`. Without a store nothing goes wrong.
pub open spec fn answers_save(store: Keeper, tasks: Tasks, now: nat, answer: Result<(), String>) -> bool {
    match store {
        Some(store) => exists|state: PersistedState| #[trigger]
            recovery::holds(state, tasks, now) && store.takes(state, answer),
        None => answer is Ok,
    }
}

/// The store did not take the change to `tasks`, for the reason that `e` tells.
pub open spec fn unsaved(store: Keeper, tasks: Tasks, now: nat, e: Refusal) -> bool {
    exists|answer: Result<(), String>| #[trigger]
        answers_save(store, tasks, now, answer) && answer is Err && e == Refusal::Persistence(
            answer->Err_0@,
        )
}

/// What the store was handed while a request was answered at `now`: nothing where there
/// is no store or the request was out of order, and otherwise one snapshot, of the tasks
/// as the request changes them. It took that one if the change was `kept`.
pub open spec fn asks_store(
    store: Keeper,
    change: Option<Tasks>,
    now: nat,
    kept: bool,
    before: Seq<Handed>,
    after: Seq<Handed>,
) -> bool {
    match (store, change) {
        (Some(store), Some(tasks)) => {
            let last = after.last();
            &&& after == before.push(last)
            &&& recovery::holds(last.state, tasks, now)
            &&& store.takes(last.state, last.answer)
            &&& last.answer is Ok == kept
        },
        _ => after == before,
    }
}

/// The change that a request makes, unless it is refused.
pub open spec fn unless(refusal: Option<Refusal>, changed: Tasks) -> Option<Tasks> {
    if refusal is None {
        Some(changed)
    } else {
        None
    }
}

/// How a tick is answered at `now`, and what it leaves.
pub open spec fn answers_tick(
    before: Tasks,
    after: Tasks,
    id: Seq<char>,
    now: nat,
    r: Result<(TickOutcome, TaskTiming), TaskError>,
) -> bool {
    match r {
        Ok((outcome, timing)) => {
            &&& rules::tick_refusal(before, id) is None
            &&& after == rules::ticked(before, id, now)
            &&& lifecycle::tells_tick(before, id, now, outcome)
            &&& lifecycle::tells_timing(before, id, now, timing)
        },
        Err(e) => rules::tick_refusal(before, id) == Some(e@) && after == before,
    }
}

/// How a checkpoint is answered at `now`, and what it leaves.
pub open spec fn answers_checkpoint(
    before: Tasks,
    after: Tasks,
    request: Checkpoint,
    now: nat,
    store: Keeper,
    r: Result<CheckpointOutcome, TaskError>,
) -> bool {
    let refusal = rules::checkpoint_refusal(before, request);
    match r {
        Ok(outcome) => {
            &&& refusal is None
            &&& after == rules::checkpointed(before, request, now)
            &&& answers_save(store, after, now, Ok(()))
            &&& lifecycle::tells_checkpoint(before, request, now, outcome)
        },
        Err(e) => {
            &&& after == before
            &&& match refusal {
                Some(refusal) => e@ == refusal,
                None => unsaved(store, rules::checkpointed(before, request, now), now, e@),
            }
        },
    }
}

/// How an adjustment is answered at `now`, and what it leaves.
pub open spec fn answers_adjustment(
    before: Tasks,
    after: Tasks,
    request: Adjustment,
    now: nat,
    deadline: Option<nat>,
    store: Keeper,
    r: Result<AdjustTaskOutcome, TaskError>,
) -> bool {
    let refusal = rules::adjust_refusal(before, request, now, deadline);
    match r {
        Ok(outcome) => {
            &&& refusal is None
            &&& after == rules::adjusted(before, request, now, deadline)
            &&& answers_save(store, after, now, Ok(()))
            &&& lifecycle::tells_adjustment(before, request, now, deadline, outcome)
        },
        Err(e) => {
            &&& after == before
            &&& match refusal {
                Some(refusal) => e@ == refusal,
                None => unsaved(
                    store,
                    rules::adjusted(before, request, now, deadline),
                    now,
                    e@,
                ),
            }
        },
    }
}

/// How a request to finish a task is answered at `now`, and what it leaves.
pub open spec fn answers_finish(
    before: Tasks,
    after: Tasks,
    id: Seq<char>,
    reason: Option<Seq<char>>,
    force: bool,
    now: nat,
    store: Keeper,
    r: Result<FinishTaskOutcome, TaskError>,
) -> bool {
    let refusal = rules::finish_refusal(before, id, reason, force);
    match r {
        Ok(outcome) => {
            &&& refusal is None
            &&& after == rules::finished(before, id, force, now)
            &&& answers_save(store, after, now, Ok(()))
            &&& lifecycle::tells_finish(before, id, reason, force, now, outcome)
        },
        Err(e) => {
            &&& after == before
            &&& match refusal {
                Some(refusal) => e@ == refusal,
                None => unsaved(store, rules::finished(before, id, force, now), now, e@),
            }
        },
    }
}

/// How a question for one task is answered at `now`.
pub open spec fn answers_get(
    tasks: Tasks,
    id: Seq<char>,
    now: nat,
    r: Result<TaskView, TaskError>,
) -> bool {
    match r {
        Ok(view) => tasks.contains_key(id) && view@ == rules::report(tasks, id, now)
            && view.children.wf(),
        Err(e) => !tasks.contains_key(id) && e@ == Refusal::NotFound(id),
    }
}

/// How a question for a task's time is answered at `now`.
pub open spec fn answers_timing(
    tasks: Tasks,
    id: Seq<char>,
    now: nat,
    r: Result<TaskTiming, TaskError>,
) -> bool {
    match r {
        Ok(timing) => rules::timing_refusal(tasks, id) is None && lifecycle::tells_timing(
            tasks,
            id,
            now,
            timing,
        ),
        Err(e) => rules::timing_refusal(tasks, id) == Some(e@),
    }
}

/// Task registry and policy engine. Every request is answered at one reading of the
/// clock. A change that the store does not take is taken back. Threads that share a
/// manager put it behind a lock.
pub struct TaskManager {
    timer: Timer,
    archive: Archive,
    registry: Registry,
}

impl View for TaskManager {
    type V = Tasks;

    closed spec fn view(&self) -> Tasks {
        self.registry@
    }
}

impl TaskManager {
    pub closed spec fn wf(&self) -> bool {
        self.registry.wf()
    }

    /// The clock that every request is answered by.
    pub closed spec fn timer(&self) -> Timer {
        self.timer
    }

    /// The store that changes are saved in, if there is one.
    pub closed spec fn keeper(&self) -> Keeper {
        self.archive.keeper()
    }

    /// What the store was handed by this manager so far, in that order.
    pub closed spec fn log(&self) -> Seq<Handed> {
        self.archive.log()
    }

    pub fn new<C: Clock + 'static>(clock: C) -> (r: Self)
        ensures
            r.wf(),
            r@ == Map::<Seq<char>, State>::empty(),
            r.keeper() is None,
            r.log() == Seq::<Handed>::empty(),
            forall|now: nat| #[trigger] r.timer().shows(now) == clock.shows(now),
    {
        TaskManager {
            timer: Timer { clock: Box::new(Arc::new(clock)) },
            archive: Archive::new(None),
            registry: Registry::new(),
        }
    }

    pub fn from_clock(clock: Box<dyn Clock>) -> (r: Self)
        ensures
            r.wf(),
            r@ == Map::<Seq<char>, State>::empty(),
            r.keeper() is None,
            r.log() == Seq::<Handed>::empty(),
            r.timer() == (Timer { clock }),
    {
        TaskManager { timer: Timer { clock }, archive: Archive::new(None), registry: Registry::new() }
    }

    /// A manager that starts with the tasks of the store's snapshot, if it holds one,
    /// and saves every change there.
    pub fn with_store<C: Clock + 'static, S: SnapshotStore + 'static>(
        clock: C,
        store: Arc<S>,
    ) -> (r: Result<Self, TaskError>)
        ensures
            r is Ok ==> {
                &&& r->Ok_0.wf()
                &&& forall|now: nat| #[trigger] r->Ok_0.timer().shows(now) == clock.shows(now)
                &&& r->Ok_0.log() == Seq::<Handed>::empty()
                &&& r->Ok_0.keeper() is Some
                &&& forall|state: PersistedState, answer: Result<(), String>| #[trigger]
                    r->Ok_0.keeper()->Some_0.takes(state, answer) == store.takes(state, answer)
            },
            exists|loaded: Result<Option<PersistedState>, String>, now: nat, now_unix_ms: u64| #[trigger]
                answers_load(loaded, now, now_unix_ms, r) && store.gives(loaded) && clock.shows(
                    now,
                ) && clock::wall_reads(now_unix_ms),
    {
        let loaded = store.load();
        let now = clock.now();
        let now_unix_ms: u64 = clock::unix_ms();
        let ghost answer = loaded;
        let restored = restore_loaded(loaded, now, now_unix_ms);
        match restored {
            Ok(registry) => {
                let manager = TaskManager {
                    timer: Timer { clock: Box::new(Arc::new(clock)) },
                    archive: Archive::new(Some(Box::new(store))),
                    registry,
                };
                assert(answers_load(answer, now@, now_unix_ms, Ok(manager)));
                Ok(manager)
            },
            Err(e) => {
                assert(answers_load(answer, now@, now_unix_ms, Err(e)));
                Err(e)
            },
        }
    }

    pub fn task_count(&self) -> (r: usize)
        requires
            self.wf(),
        ensures
            self@.dom().finite(),
            r == self@.dom().len(),
    {
        self.registry.len()
    }

    pub fn get_task(&self, task_id: &str) -> (r: Result<TaskView, TaskError>)
        requires
            self.wf(),
        ensures
            exists|now: nat| #[trigger]
                answers_get(self@, task_id@, now, r) && self.timer().shows(now),
    {
        let now = self.timer.now();
        let r = self.registry.get(task_id, now);
        assert(answers_get(self@, task_id@, now@, r));
        r
    }

    /// The reports of all tasks, in ascending order of their identifiers.
    pub fn list_tasks(&self) -> (r: Vec<TaskView>)
        requires
            self.wf(),
        ensures
            exists|now: nat| #[trigger]
                lifecycle::tells_all(self@, now, r@) && self.timer().shows(now),
    {
        let now = self.timer.now();
        let views = self.registry.list(now);
        assert(lifecycle::tells_all(self@, now@, views@));
        views
    }

    /// Hands the store, if there is one, all tasks as they are at `now`.
    fn save(&mut self, now: Duration) -> (r: Result<(), String>)
        requires
            old(self).wf(),
        ensures
            final(self).wf(),
            final(self)@ == old(self)@,
            final(self).keeper() == old(self).keeper(),
            final(self).timer() == old(self).timer(),
            answers_save(old(self).keeper(), old(self)@, now@, r),
            asks_store(
                old(self).keeper(),
                Some(old(self)@),
                now@,
                r is Ok,
                old(self).log(),
                final(self).log(),
            ),
    {
        if !self.archive.has_store() {
            return Ok(());
        }
        let state = self.registry.snapshot(now, clock::unix_ms());
        assert(recovery::holds(state, self@, now@));
        self.archive.hand(state)
    }

    /// Saves a change that was made at `now`, or takes it back.
    fn settle(&mut self, before: Registry, now: Duration) -> (r: Result<(), TaskError>)
        requires
            old(self).wf(),
            before.wf(),
        ensures
            final(self).wf(),
            final(self).keeper() == old(self).keeper(),
            final(self).timer() == old(self).timer(),
            asks_store(
                old(self).keeper(),
                Some(old(self)@),
                now@,
                r is Ok,
                old(self).log(),
                final(self).log(),
            ),
            match r {
                Ok(()) => final(self)@ == old(self)@ && answers_save(
                    old(self).keeper(),
                    old(self)@,
                    now@,
                    Ok(()),
                ),
                Err(e) => final(self)@ == before@ && unsaved(
                    old(self).keeper(),
                    old(self)@,
                    now@,
                    e@,
                ),
            },
    {
        let saved = self.save(now);
        proof {
            assert(answers_save(self.keeper(), self@, now@, saved));
            if let Ok(nothing) = saved {
                assert(nothing == ());
            }
        }
        persist_or_rollback(&mut self.registry, before, saved)
    }

    pub fn start_task(&mut self, request: StartTaskRequest) -> (r: Result<
        StartTaskOutcome,
        TaskError,
    >)
        requires
            old(self).wf(),
        ensures
            final(self).wf(),
            final(self).keeper() == old(self).keeper(),
            final(self).timer() == old(self).timer(),
            exists|now: nat| #[trigger]
                answers_start(
                    old(self)@,
                    final(self)@,
                    request@,
                    now,
                    None,
                    old(self).keeper(),
                    r,
                ) && old(self).timer().shows(now) && asks_store(
                    old(self).keeper(),
                    unless(
                        rules::start_refusal(old(self)@, request@, now, None),
                        rules::started(old(self)@, request@, now, None),
                    ),
                    now,
                    r is Ok,
                    old(self).log(),
                    final(self).log(),
                ),
    {
        self.start_task_with_deadline(request, None)
    }

    /// Starts a task that ends by the host's monotonic deadline, if there is one.
    pub fn start_task_with_deadline(
        &mut self,
        request: StartTaskRequest,
        deadline: Option<Duration>,
    ) -> (r: Result<StartTaskOutcome, TaskError>)
        requires
            old(self).wf(),
        ensures
            final(self).wf(),
            final(self).keeper() == old(self).keeper(),
            final(self).timer() == old(self).timer(),
            exists|now: nat| #[trigger]
                answers_start(
                    old(self)@,
                    final(self)@,
                    request@,
                    now,
                    lifecycle::deadline_of(deadline),
                    old(self).keeper(),
                    r,
                ) && old(self).timer().shows(now) && asks_store(
                    old(self).keeper(),
                    unless(
                        rules::start_refusal(old(self)@, request@, now, lifecycle::deadline_of(deadline)),
                        rules::started(old(self)@, request@, now, lifecycle::deadline_of(deadline)),
                    ),
                    now,
                    r is Ok,
                    old(self).log(),
                    final(self).log(),
                ),
    {
        let before = self.registry.duplicate();
        let now = self.timer.now();
        let ghost asked = request@;
        let r = match self.registry.start(request, now, deadline) {
            Ok(outcome) => {
                match self.settle(before, now) {
                    Ok(()) => Ok(outcome),
                    Err(e) => Err(e),
                }
            },
            Err(e) => Err(e),
        };
        assert(answers_start(
            old(self)@,
            self@,
            asked,
            now@,
            lifecycle::deadline_of(deadline),
            old(self).keeper(),
            r,
        ));
        r
    }

    /// Ticks once. The store is handed nothing.
    pub fn tick(&mut self, request: TickRequest) -> (r: Result<TickOutcome, TaskError>)
        requires
            old(self).wf(),
        ensures
            final(self).wf(),
            final(self).keeper() == old(self).keeper(),
            final(self).timer() == old(self).timer(),
            final(self).log() == old(self).log(),
            exists|now: nat, timed: Result<(TickOutcome, TaskTiming), TaskError>| #[trigger]
                answers_tick(old(self)@, final(self)@, request.task_id@, now, timed)
                    && old(self).timer().shows(now) && match r {
                    Ok(outcome) => timed is Ok && timed->Ok_0.0 == outcome,
                    Err(e) => timed == Err::<(TickOutcome, TaskTiming), TaskError>(e),
                },
    {
        match self.tick_with_timing(request) {
            Ok((outcome, _)) => Ok(outcome),
            Err(e) => Err(e),
        }
    }

    /// Ticks once and tells the actual and the accounted time along with the outcome. The
    /// store is handed nothing.
    pub fn tick_with_timing(&mut self, request: TickRequest) -> (r: Result<
        (TickOutcome, TaskTiming),
        TaskError,
    >)
        requires
            old(self).wf(),
        ensures
            final(self).wf(),
            final(self).keeper() == old(self).keeper(),
            final(self).timer() == old(self).timer(),
            final(self).log() == old(self).log(),
            exists|now: nat| #[trigger]
                answers_tick(old(self)@, final(self)@, request.task_id@, now, r) && old(
                    self,
                ).timer().shows(now),
    {
        let now = self.timer.now();
        let ghost id = request.task_id@;
        let r = self.registry.tick(request, now);
        assert(answers_tick(old(self)@, self@, id, now@, r));
        r
    }

    /// Tells the time of an active or completed task.
    pub fn task_timing(&self, task_id: &str) -> (r: Result<TaskTiming, TaskError>)
        requires
            self.wf(),
        ensures
            exists|now: nat| #[trigger]
                answers_timing(self@, task_id@, now, r) && self.timer().shows(now),
    {
        let now = self.timer.now();
        let r = self.registry.timing(task_id, now);
        assert(answers_timing(self@, task_id@, now@, r));
        r
    }

    pub fn checkpoint(&mut self, request: CheckpointRequest) -> (r: Result<
        CheckpointOutcome,
        TaskError,
    >)
        requires
            old(self).wf(),
        ensures
            final(self).wf(),
            final(self).keeper() == old(self).keeper(),
            final(self).timer() == old(self).timer(),
            exists|now: nat| #[trigger]
                answers_checkpoint(
                    old(self)@,
                    final(self)@,
                    request@,
                    now,
                    old(self).keeper(),
                    r,
                ) && old(self).timer().shows(now) && asks_store(
                    old(self).keeper(),
                    unless(
                        rules::checkpoint_refusal(old(self)@, request@),
                        rules::checkpointed(old(self)@, request@, now),
                    ),
                    now,
                    r is Ok,
                    old(self).log(),
                    final(self).log(),
                ),
    {
        let before = self.registry.duplicate();
        let now = self.timer.now();
        let ghost asked = request@;
        let r = match self.registry.checkpoint(request, now) {
            Ok(outcome) => {
                match self.settle(before, now) {
                    Ok(()) => Ok(outcome),
                    Err(e) => Err(e),
                }
            },
            Err(e) => Err(e),
        };
        assert(answers_checkpoint(old(self)@, self@, asked, now@, old(self).keeper(), r));
        r
    }

    pub fn adjust_task(&mut self, request: AdjustTaskRequest) -> (r: Result<
        AdjustTaskOutcome,
        TaskError,
    >)
        requires
            old(self).wf(),
        ensures
            final(self).wf(),
            final(self).keeper() == old(self).keeper(),
            final(self).timer() == old(self).timer(),
            exists|now: nat| #[trigger]
                answers_adjustment(
                    old(self)@,
                    final(self)@,
                    request@,
                    now,
                    None,
                    old(self).keeper(),
                    r,
                ) && old(self).timer().shows(now) && asks_store(
                    old(self).keeper(),
                    unless(
                        rules::adjust_refusal(old(self)@, request@, now, None),
                        rules::adjusted(old(self)@, request@, now, None),
                    ),
                    now,
                    r is Ok,
                    old(self).log(),
                    final(self).log(),
                ),
    {
        self.adjust_task_with_deadline(request, None)
    }

    /// Adjusts a task so that it still ends by the host's monotonic deadline, if there
    /// is one.
    pub fn adjust_task_with_deadline(
        &mut self,
        request: AdjustTaskRequest,
        deadline: Option<Duration>,
    ) -> (r: Result<AdjustTaskOutcome, TaskError>)
        requires
            old(self).wf(),
        ensures
            final(self).wf(),
            final(self).keeper() == old(self).keeper(),
            final(self).timer() == old(self).timer(),
            exists|now: nat| #[trigger]
                answers_adjustment(
                    old(self)@,
                    final(self)@,
                    request@,
                    now,
                    lifecycle::deadline_of(deadline),
                    old(self).keeper(),
                    r,
                ) && old(self).timer().shows(now) && asks_store(
                    old(self).keeper(),
                    unless(
                        rules::adjust_refusal(old(self)@, request@, now, lifecycle::deadline_of(deadline)),
                        rules::adjusted(old(self)@, request@, now, lifecycle::deadline_of(deadline)),
                    ),
                    now,
                    r is Ok,
                    old(self).log(),
                    final(self).log(),
                ),
    {
        let before = self.registry.duplicate();
        let now = self.timer.now();
        let ghost asked = request@;
        let r = match self.registry.adjust(request, now, deadline) {
            Ok(outcome) => {
                match self.settle(before, now) {
                    Ok(()) => Ok(outcome),
                    Err(e) => Err(e),
                }
            },
            Err(e) => Err(e),
        };
        assert(answers_adjustment(
            old(self)@,
            self@,
            asked,
            now@,
            lifecycle::deadline_of(deadline),
            old(self).keeper(),
            r,
        ));
        r
    }

    pub fn finish_task(&mut self, request: FinishTaskRequest) -> (r: Result<
        FinishTaskOutcome,
        TaskError,
    >)
        requires
            old(self).wf(),
        ensures
            final(self).wf(),
            final(self).keeper() == old(self).keeper(),
            final(self).timer() == old(self).timer(),
            exists|now: nat| #[trigger]
                answers_finish(
                    old(self)@,
                    final(self)@,
                    request.task_id@,
                    names::text_of(request.reason),
                    request.force,
                    now,
                    old(self).keeper(),
                    r,
                ) && old(self).timer().shows(now) && asks_store(
                    old(self).keeper(),
                    unless(
                        rules::finish_refusal(
                            old(self)@,
                            request.task_id@,
                            names::text_of(request.reason),
                            request.force,
                        ),
                        rules::finished(old(self)@, request.task_id@, request.force, now),
                    ),
                    now,
                    r is Ok,
                    old(self).log(),
                    final(self).log(),
                ),
    {
        let before = self.registry.duplicate();
        let now = self.timer.now();
        let ghost id = request.task_id@;
        let ghost reason = names::text_of(request.reason);
        let ghost force = request.force;
        let r = match self.registry.finish(request, now) {
            Ok(outcome) => {
                match self.settle(before, now) {
                    Ok(()) => Ok(outcome),
                    Err(e) => Err(e),
                }
            },
            Err(e) => Err(e),
        };
        assert(answers_finish(
            old(self)@,
            self@,
            id,
            reason,
            force,
            now@,
            old(self).keeper(),
            r,
        ));
        r
    }

    /// All tasks as they are now, in ascending order of their identifiers, under the time
    /// that the wall clock tells.
    pub fn snapshot(&self) -> (r: PersistedState)
        requires
            self.wf(),
        ensures
            exists|now: nat| #[trigger]
                recovery::holds(r, self@, now) && self.timer().shows(now),
    {
        let now = self.timer.now();
        let state = self.registry.snapshot(now, clock::unix_ms());
        assert(recovery::holds(state, self@, now@));
        state
    }
}

/// What a manager starts with when its store answered `loaded`.
pub open spec fn answers_load(
    loaded: Result<Option<PersistedState>, String>,
    now: nat,
    now_unix_ms: u64,
    r: Result<TaskManager, TaskError>,
) -> bool {
    match loaded {
        Err(text) => r is Err && r->Err_0@ == Refusal::Persistence(text@),
        Ok(None) => r is Ok && r->Ok_0@ == Map::<Seq<char>, State>::empty(),
        Ok(Some(snapshot)) => {
            let list = task::saved_tasks(snapshot.tasks@);
            let downtime = recovery::downtime(snapshot.saved_at_unix_ms, now_unix_ms);
            let refusal = recovery::recover_refusal(snapshot.version, list, now, downtime);
            match r {
                Ok(manager) => refusal is None && manager@ == recovery::recovered(
                    list,
                    now,
                    downtime,
                ),
                Err(e) => refusal == Some(e@),
            }
        },
    }
}

} // verus!
