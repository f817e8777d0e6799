//! The operations on the registry's tasks.

use crate::duration;
use crate::duration::{Duration, BILLION, MAX_NANOS, TOLERANCE};
use crate::error::{Refusal, TaskError};
use crate::names;
use crate::names::NameSet;
use crate::number::Amount;
use crate::registry;
use crate::registry::{Registry, Tasks};
use crate::rules;
use crate::rules::{MAX_ID_LEN, MAX_NOTE_LEN, MIN_PLAN_LEN};
use crate::schedule;
use crate::schedule::{Mode, SchedulePhase};
use crate::task;
use crate::task::{
    AdjustTaskOutcome, AdjustTaskRequest, CheckpointOutcome, CheckpointRecord, CheckpointRequest,
    FinishTaskOutcome, FinishTaskRequest, StartTaskOutcome, StartTaskRequest, Task, TaskStatus,
    TaskTiming, TaskView, TickOutcome, TickRequest,
};
use crate::text;
use vstd::prelude::*;

verus! {

pub fn validate_id(id: &str) -> (r: Result<(), TaskError>)
    ensures
        match r {
            Ok(()) => rules::valid_id(id@),
            Err(e) => !rules::valid_id(id@) && e@ == rules::bad_id(),
        },
{
    if id.trim().is_empty() || text::bytes_in(id) > MAX_ID_LEN {
        return Err(TaskError::invalid("task_id must be non-empty and at most 256 bytes"));
    }
    Ok(())
}

pub fn validate_budget(budget: &Amount) -> (r: Result<(), TaskError>)
    ensures
        match r {
            Ok(()) => budget.positive(),
            Err(e) => !budget.positive() && e@ == rules::bad_budget(),
        },
{
    if !budget.is_positive() {
        return Err(TaskError::invalid("budget_secs must be finite and > 0"));
    }
    Ok(())
}

pub open spec fn phase_of(phase: Option<&SchedulePhase>) -> Option<schedule::Phase> {
    match phase {
        Some(phase) => Some(phase@),
        None => None,
    }
}

fn share(ratio: &Amount) -> (r: u128)
    ensures
        r == rules::share(*ratio),
        r <= BILLION,
{
    match ratio {
        Amount::NotANumber | Amount::NegativeInfinity => 0,
        Amount::Infinity => BILLION,
        Amount::Billionths(value) => if *value < 0 {
            0
        } else if *value > 1_000_000_000 {
            BILLION
        } else {
            *value as u128
        },
    }
}

fn effective_mode(phase: Option<&SchedulePhase>, mode: Mode) -> (r: Mode)
    ensures
        r == rules::effective_mode(phase_of(phase), mode),
{
    match phase {
        Some(phase) => match phase.mode {
            Some(mode) => mode,
            None => mode,
        },
        None => mode,
    }
}

fn effective_ratio(phase: Option<&SchedulePhase>, mode: Mode) -> (r: u128)
    ensures
        r == rules::effective_ratio(phase_of(phase), mode),
        r <= BILLION,
{
    if let Some(phase) = phase {
        if let Some(ratio) = &phase.reserve_ratio {
            return share(ratio);
        }
    }
    effective_mode(phase, mode).reserve_ratio()
}

pub fn phase_name(phase: Option<&SchedulePhase>) -> (r: Option<String>)
    ensures
        names::text_of(r) == rules::phase_name(phase_of(phase)),
{
    match phase {
        Some(phase) => Some(phase.name.clone()),
        None => None,
    }
}

pub open spec fn deadline_of(deadline: Option<Duration>) -> Option<nat> {
    match deadline {
        Some(deadline) => Some(deadline@),
        None => None,
    }
}

fn falls_short(budget: Duration, asked: &Amount) -> (r: bool)
    ensures
        r == rules::falls_short(budget@, *asked),
{
    match asked {
        Amount::Infinity => true,
        Amount::NotANumber | Amount::NegativeInfinity => false,
        Amount::Billionths(value) => *value > 0 && {
            let wanted: u128 = *value as u128;
            wanted > budget.nanos && wanted - budget.nanos > TOLERANCE
        },
    }
}

fn counted(n: u64) -> (r: u64)
    ensures
        r == rules::counted(n),
{
    if n == u64::MAX {
        n
    } else {
        n + 1
    }
}

/// What is told of a task that was started.
pub open spec fn tells_start(
    tasks: Tasks,
    request: task::Start,
    now: nat,
    deadline: Option<nat>,
    outcome: StartTaskOutcome,
) -> bool {
    let after = rules::started(tasks, request, now, deadline);
    &&& outcome.task@ == rules::report(after, request.id, now)
    &&& outcome.task.children.wf()
    &&& outcome.requested_budget_secs == request.budget
    &&& outcome.effective_budget_secs@ == rules::granted(tasks, request, now, deadline)
    &&& outcome.clamped == rules::falls_short(outcome.effective_budget_secs@, request.budget)
}

/// What is told of a tick.
pub open spec fn tells_tick(tasks: Tasks, id: Seq<char>, now: nat, outcome: TickOutcome) -> bool {
    &&& outcome.task@ == rules::report(rules::ticked(tasks, id, now), id, now)
    &&& outcome.task.children.wf()
    &&& outcome.tick == rules::counted(tasks[id].ticks)
    &&& outcome.phase_changed == (tasks[id].last_phase != rules::reached_phase(tasks[id], now))
}

/// What is told of a task's time.
pub open spec fn tells_timing(tasks: Tasks, id: Seq<char>, now: nat, timing: TaskTiming) -> bool {
    timing@ == task::timing(tasks[id].runtime(now), tasks[id].budget)
}

/// What is told of a checkpoint.
pub open spec fn tells_checkpoint(
    tasks: Tasks,
    request: task::Checkpoint,
    now: nat,
    outcome: CheckpointOutcome,
) -> bool {
    let after = rules::checkpointed(tasks, request, now);
    &&& outcome.task@ == rules::report(after, request.id, now)
    &&& outcome.task.children.wf()
    &&& outcome.checkpoint@ == rules::new_record(tasks[request.id], request, now)
}

/// What is told of an adjustment.
pub open spec fn tells_adjustment(
    tasks: Tasks,
    request: task::Adjustment,
    now: nat,
    deadline: Option<nat>,
    outcome: AdjustTaskOutcome,
) -> bool {
    let after = rules::adjusted(tasks, request, now, deadline);
    let budget = rules::adjusted_budget(tasks, request, now, deadline);
    &&& outcome.task@ == rules::report(after, request.id, now)
    &&& outcome.task.children.wf()
    &&& outcome.requested_budget_secs == request.budget
    &&& outcome.effective_budget_secs@ == budget
    &&& outcome.clamped == (request.budget is Some && rules::falls_short(
        budget,
        request.budget->Some_0,
    ))
}

/// What is told of a task that was finished.
pub open spec fn tells_finish(
    tasks: Tasks,
    id: Seq<char>,
    reason: Option<Seq<char>>,
    force: bool,
    now: nat,
    outcome: FinishTaskOutcome,
) -> bool {
    let after = rules::finished(tasks, id, force, now);
    &&& outcome.task@ == rules::finish_report(after, id, now)
    &&& outcome.task.children.wf()
    &&& names::text_of(outcome.reason) == reason
    &&& outcome.actual_elapsed_secs@ == tasks[id].runtime(now)
    &&& outcome.overrun_secs@ == duration::less(tasks[id].runtime(now), tasks[id].budget)
}

impl Registry {
    /// The names in `set` that belong to tasks.
    fn known(&self, set: &NameSet) -> (r: NameSet)
        requires
            self.wf(),
            set.wf(),
        ensures
            r.wf(),
            r@ == set@.intersect(self@.dom()),
    {
        let mut r = NameSet::new();
        let mut i: usize = 0;
        let ghost list = names::texts(set.items@);
        assert(list.take(0).to_set().intersect(self@.dom()) =~= Set::<Seq<char>>::empty());
        while i < set.items.len()
            invariant
                self.wf(),
                r.wf(),
                list == names::texts(set.items@),
                i <= set.items.len(),
                r@ == list.take(i as int).to_set().intersect(self@.dom()),
            decreases set.items.len() - i,
        {
            if self.find(set.items[i].as_str()).is_some() {
                r.insert(set.items[i].as_str());
            }
            proof {
                names::lemma_one_more(list, i as int);
                assert(r@ =~= list.take(i + 1).to_set().intersect(self@.dom()));
            }
            i = i + 1;
        }
        assert(list.take(i as int) =~= list);
        r
    }

    /// What is to be reported of the task at an index.
    pub fn view_at(&self, i: usize, now: Duration) -> (r: TaskView)
        requires
            self.wf(),
            i < self.tasks@.len(),
        ensures
            r@ == rules::report(self@, self.tasks@[i as int].task_id@, now@),
            r.children.wf(),
    {
        let task = &self.tasks[i];
        proof {
            registry::lemma_entry(*self, i as int);
        }
        let elapsed = task.runtime_secs(now).shorter(task.budget);
        let remaining = task.budget.saturating_sub(elapsed);
        let phase = task.schedule.phase_at(elapsed);
        let mode = effective_mode(phase, task.mode);
        let ratio: u128 = effective_ratio(phase, task.mode);
        let work_remaining = remaining.saturating_sub(task.child_reserved);
        let reserve = if task.status == TaskStatus::Active {
            work_remaining.portion(ratio, BILLION)
        } else {
            Duration::zero()
        };
        let interval = match phase {
            Some(SchedulePhase { tick_interval_secs: Some(interval), .. }) => interval.to_span(),
            _ => task.schedule.tick_interval_secs.to_span().longer(
                mode.default_tick_interval_secs(),
            ),
        };
        let status = if task.status == TaskStatus::Active && remaining.nanos <= TOLERANCE {
            TaskStatus::Exhausted
        } else {
            task.status
        };
        let available = work_remaining.saturating_sub(reserve);
        TaskView {
            task_id: task.task_id.clone(),
            parent_id: names::copy_text(&task.parent_id),
            budget_secs: task.budget,
            elapsed_secs: elapsed,
            remaining_secs: remaining,
            child_reserved_secs: task.child_reserved,
            adaptive_reserve_secs: reserve,
            available_secs: available,
            recommended_work_secs: if status == TaskStatus::Active {
                interval.shorter(available)
            } else {
                Duration::zero()
            },
            mode,
            phase: phase_name(phase),
            status,
            ticks: task.ticks,
            checkpoints: task.checkpoints,
            last_checkpoint: task::copy_record(&task.last_checkpoint),
            children: self.known(&task.children),
            metadata: task.metadata.duplicate(),
            plan_submitted: task.plan_submitted,
        }
    }
}

impl Registry {
    /// Starts a task at `now` under the host's deadline, if there is one.
    pub fn start(
        &mut self,
        request: StartTaskRequest,
        now: Duration,
        deadline: Option<Duration>,
    ) -> (r: Result<StartTaskOutcome, TaskError>)
        requires
            old(self).wf(),
        ensures
            final(self).wf(),
            match r {
                Ok(outcome) => {
                    let limit = deadline_of(deadline);
                    &&& rules::start_refusal(old(self)@, request@, now@, limit) is None
                    &&& final(self)@ == rules::started(old(self)@, request@, now@, limit)
                    &&& tells_start(old(self)@, request@, now@, limit, outcome)
                },
                Err(e) => {
                    &&& rules::start_refusal(old(self)@, request@, now@, deadline_of(deadline))
                        == Some(e@)
                    &&& final(self)@ == old(self)@
                },
            },
    {
        validate_id(request.task_id.as_str())?;
        validate_budget(&request.budget_secs)?;
        request.schedule.validate()?;
        let place: usize = match self.place(request.task_id.as_str()) {
            Ok(_) => {
                return Err(TaskError::AlreadyExists(request.task_id));
            },
            Err(place) => place,
        };
        let asked = request.budget_secs.to_span();
        let mut budget = asked;
        if let Some(parent_id) = &request.parent_id {
            let parent: usize = match self.find(parent_id.as_str()) {
                Some(parent) => parent,
                None => {
                    return Err(TaskError::ParentNotFound(parent_id.clone()));
                },
            };
            let parent_view = self.view_at(parent, now);
            if parent_view.is_done() {
                return Err(TaskError::ParentUnavailable(parent_id.clone()));
            }
            budget = budget.shorter(parent_view.available_secs);
            if budget.nanos <= TOLERANCE {
                return Err(TaskError::BudgetExhausted(parent_id.clone()));
            }
        }
        if let Some(deadline) = deadline {
            let left = deadline.saturating_sub(now);
            if left.nanos <= TOLERANCE {
                return Err(TaskError::BudgetExhausted(request.task_id));
            }
            budget = budget.shorter(left);
        }
        let task = Task {
            task_id: request.task_id.clone(),
            parent_id: names::copy_text(&request.parent_id),
            budget,
            mode: request.mode,
            last_phase: phase_name(request.schedule.phase_at(Duration::zero())),
            schedule: request.schedule,
            metadata: request.metadata,
            status: TaskStatus::Active,
            started_at: now,
            base_elapsed: Duration::zero(),
            finished_elapsed: None,
            child_reserved: Duration::zero(),
            forgone: Ghost(0),
            holds_reservation: request.parent_id.is_some(),
            children: NameSet::new(),
            ticks: 0,
            checkpoints: 0,
            last_checkpoint: None,
            progress: None,
            plan_submitted: false,
        };
        self.add(place, task);
        if let Some(parent_id) = &request.parent_id {
            self.reserve_child(parent_id.as_str(), request.task_id.as_str(), budget);
        }
        Ok(
            StartTaskOutcome {
                task: self.view_of(request.task_id.as_str(), now),
                requested_budget_secs: request.budget_secs,
                effective_budget_secs: budget,
                clamped: falls_short(budget, &request.budget_secs),
            },
        )
    }

    /// Charges a child's budget to its parent.
    pub fn reserve_child(&mut self, parent_id: &str, child: &str, budget: Duration)
        requires
            old(self).wf(),
            old(self)@.contains_key(parent_id@),
        ensures
            final(self).wf(),
            final(self)@ == old(self)@.insert(
                parent_id@,
                rules::with_child(old(self)@[parent_id@], child@, budget@),
            ),
    {
        if let Some(i) = self.find(parent_id) {
            let mut parent = self.tasks[i].duplicate();
            parent.children.insert(child);
            parent.child_reserved = parent.child_reserved.saturating_add(budget);
            self.replace(i, parent);
        }
    }

    /// What is to be reported of a task that there is.
    pub fn view_of(&self, id: &str, now: Duration) -> (r: TaskView)
        requires
            self.wf(),
            self@.contains_key(id@),
        ensures
            r@ == rules::report(self@, id@, now@),
            r.children.wf(),
    {
        let i: usize = match self.place(id) {
            Ok(i) => i,
            Err(i) => i,
        };
        self.view_at(i, now)
    }
}

/// The note is longer than a note may be.
fn too_long(note: &Option<String>) -> (r: bool)
    ensures
        r == rules::too_long(names::text_of(*note)),
{
    match note {
        Some(note) => text::bytes_in(note.as_str()) > MAX_NOTE_LEN,
        None => false,
    }
}

fn states_plan(note: &Option<String>) -> (r: bool)
    ensures
        r == rules::states_plan(names::text_of(*note)),
{
    match note {
        Some(note) => text::bytes_in(note.trim()) >= MIN_PLAN_LEN,
        None => false,
    }
}

fn falls_behind(new: &Amount, previous: &Amount) -> (r: bool)
    ensures
        r == rules::falls_behind(*new, *previous),
{
    match (new, previous) {
        (Amount::Billionths(new), Amount::Billionths(previous)) => *previous > i128::MIN && *new
            < *previous - 1,
        (Amount::Billionths(_), Amount::Infinity) => true,
        _ => false,
    }
}

fn regresses(task: &Task, progress: &Option<Amount>) -> (r: bool)
    ensures
        forall|c: task::Checkpoint|
            c.progress == *progress ==> r == #[trigger] rules::regresses(task@, c),
{
    if let Some(progress) = progress {
        if let Some(previous) = &task.progress {
            return falls_behind(progress, previous);
        }
    }
    false
}

impl Registry {
    /// Finds a task that is not finished.
    fn open_task(&self, id: &str) -> (r: Result<usize, TaskError>)
        requires
            self.wf(),
        ensures
            match r {
                Ok(i) => {
                    &&& rules::access_refusal(self@, id@) is None
                    &&& i < self.tasks@.len()
                    &&& self.tasks@[i as int].task_id@ == id@
                    &&& self.tasks@[i as int].wf()
                    &&& self@[id@] == self.tasks@[i as int]@
                },
                Err(e) => rules::access_refusal(self@, id@) == Some(e@),
            },
    {
        match self.find(id) {
            Some(i) => if self.tasks[i].status == TaskStatus::Finished {
                Err(TaskError::NotActive(id.to_owned()))
            } else {
                Ok(i)
            },
            None => Err(TaskError::NotFound(id.to_owned())),
        }
    }

    pub fn get(&self, id: &str, now: Duration) -> (r: Result<TaskView, TaskError>)
        requires
            self.wf(),
        ensures
            match r {
                Ok(view) => self@.contains_key(id@) && view@ == rules::report(self@, id@, now@)
                    && view.children.wf(),
                Err(e) => !self@.contains_key(id@) && e@ == Refusal::NotFound(id@),
            },
    {
        match self.find(id) {
            Some(i) => Ok(self.view_at(i, now)),
            None => Err(TaskError::NotFound(id.to_owned())),
        }
    }

    /// The reports of all tasks, in ascending order of their identifiers.
    pub fn list(&self, now: Duration) -> (r: Vec<TaskView>)
        requires
            self.wf(),
        ensures
            tells_all(self@, now@, r@),
    {
        let mut views: Vec<TaskView> = Vec::new();
        let mut i: usize = 0;
        while i < self.tasks.len()
            invariant
                self.wf(),
                i <= self.tasks.len(),
                views@.len() == i,
                forall|k: int|
                    0 <= k < i ==> (#[trigger] views@[k])@ == rules::report(
                        self@,
                        self.tasks@[k].task_id@,
                        now@,
                    ) && views@[k].children.wf(),
            decreases self.tasks.len() - i,
        {
            views.push(self.view_at(i, now));
            i = i + 1;
        }
        proof {
            assert forall|k: int| 0 <= k < views@.len() implies views@[k].task_id@
                == self.tasks@[k].task_id@ by {
                assert(views@[k]@.id == self.tasks@[k].task_id@);
            }
            assert(report_ids(views@) =~= registry::ids(self.tasks@));
        }
        views
    }

    /// Counts a tick and notices phase changes and used-up budgets.
    pub fn tick(&mut self, request: TickRequest, now: Duration) -> (r: Result<
        (TickOutcome, TaskTiming),
        TaskError,
    >)
        requires
            old(self).wf(),
        ensures
            final(self).wf(),
            match r {
                Ok((outcome, timing)) => {
                    let id = request.task_id@;
                    &&& rules::tick_refusal(old(self)@, id) is None
                    &&& final(self)@ == rules::ticked(old(self)@, id, now@)
                    &&& tells_tick(old(self)@, id, now@, outcome)
                    &&& tells_timing(old(self)@, id, now@, timing)
                },
                Err(e) => {
                    &&& rules::tick_refusal(old(self)@, request.task_id@) == Some(e@)
                    &&& final(self)@ == old(self)@
                },
            },
    {
        validate_id(request.task_id.as_str())?;
        let i: usize = self.open_task(request.task_id.as_str())?;
        let mut task = self.tasks[i].duplicate();
        let runtime = task.runtime_secs(now);
        let current_phase = phase_name(task.schedule.phase_at(runtime));
        let phase_changed = !names::same_optional_text(&task.last_phase, &current_phase);
        task.last_phase = current_phase;
        task.ticks = counted(task.ticks);
        if task.budget.saturating_sub(runtime).nanos <= TOLERANCE {
            task.status = TaskStatus::Exhausted;
        }
        let tick: u64 = task.ticks;
        let timing = TaskTiming::new(runtime, task.budget);
        self.replace(i, task);
        let view = self.view_of(request.task_id.as_str(), now);
        Ok((TickOutcome { task: view, tick, phase_changed }, timing))
    }

    pub fn timing(&self, id: &str, now: Duration) -> (r: Result<TaskTiming, TaskError>)
        requires
            self.wf(),
        ensures
            match r {
                Ok(timing) => rules::timing_refusal(self@, id@) is None && tells_timing(
                    self@,
                    id@,
                    now@,
                    timing,
                ),
                Err(e) => rules::timing_refusal(self@, id@) == Some(e@),
            },
    {
        validate_id(id)?;
        match self.find(id) {
            Some(i) => Ok(
                TaskTiming::new(self.tasks[i].runtime_secs(now), self.tasks[i].budget),
            ),
            None => Err(TaskError::NotFound(id.to_owned())),
        }
    }

    /// Records progress, an estimate of the remaining work, or a plan.
    pub fn checkpoint(&mut self, request: CheckpointRequest, now: Duration) -> (r: Result<
        CheckpointOutcome,
        TaskError,
    >)
        requires
            old(self).wf(),
        ensures
            final(self).wf(),
            match r {
                Ok(outcome) => {
                    &&& rules::checkpoint_refusal(old(self)@, request@) is None
                    &&& final(self)@ == rules::checkpointed(old(self)@, request@, now@)
                    &&& tells_checkpoint(old(self)@, request@, now@, outcome)
                },
                Err(e) => {
                    &&& rules::checkpoint_refusal(old(self)@, request@) == Some(e@)
                    &&& final(self)@ == old(self)@
                },
            },
    {
        validate_id(request.task_id.as_str())?;
        if too_long(&request.note) {
            return Err(TaskError::invalid("checkpoint note is too long"));
        }
        if let Some(progress) = &request.progress {
            if !progress.is_within(0, 1_000_000_000) {
                return Err(TaskError::invalid("checkpoint progress must be between 0 and 1"));
            }
        }
        if let Some(eta) = &request.estimated_remaining_work_secs {
            if !eta.is_positive() {
                return Err(
                    TaskError::invalid("estimated_remaining_work_secs must be finite and > 0"),
                );
            }
        }
        let i: usize = self.open_task(request.task_id.as_str())?;
        let mut task = self.tasks[i].duplicate();
        if !task.plan_submitted && !request.plan_complete {
            return Err(
                TaskError::invalid("first checkpoint must submit a compact execution plan"),
            );
        }
        if request.plan_complete {
            if !states_plan(&request.note) {
                return Err(TaskError::invalid("plan checkpoint requires a compact plan in note"));
            }
            if request.estimated_remaining_work_secs.is_none() {
                return Err(
                    TaskError::invalid(
                        "plan checkpoint requires estimated_remaining_work_secs > 0",
                    ),
                );
            }
        }
        if regresses(&task, &request.progress) && !request.replan {
            return Err(TaskError::invalid("progress cannot decrease unless replan=true"));
        }
        task.checkpoints = counted(task.checkpoints);
        let checkpoint = CheckpointRecord {
            sequence: task.checkpoints,
            elapsed_secs: task.runtime_secs(now),
            note: request.note,
            progress: request.progress,
            estimated_remaining_work_secs: request.estimated_remaining_work_secs,
            plan_complete: request.plan_complete,
        };
        if request.plan_complete {
            task.plan_submitted = true;
        }
        if request.progress.is_some() {
            task.progress = request.progress;
        }
        task.last_checkpoint = Some(checkpoint.duplicate());
        self.replace(i, task);
        let view = self.view_of(request.task_id.as_str(), now);
        Ok(CheckpointOutcome { task: view, checkpoint })
    }
}

/// `a - taken + given`, as near as a span comes to it.
fn net(a: Duration, taken: Duration, given: Duration) -> (r: Duration)
    ensures
        r@ == duration::clip(a@ - taken@ + given@),
{
    if a.nanos >= taken.nanos {
        a.saturating_sub(taken).saturating_add(given)
    } else {
        given.saturating_sub(taken.saturating_sub(a)).shorter(Duration { nanos: MAX_NANOS })
    }
}

/// What is reserved of the parent's time for a child with that budget.
fn reserved_for(child: &Task, budget: Duration) -> (r: Duration)
    ensures
        r@ == rules::reserved_for(child@, budget@),
{
    if child.holds_reservation {
        budget
    } else {
        Duration::zero()
    }
}

/// What the parent could offer if the child gave back what it has reserved.
fn offer(parent: &Task, given_back: Duration, now: Duration) -> (r: Duration)
    ensures
        r@ == rules::offer(parent@, given_back@, now@),
{
    let runtime = parent.runtime_secs(now);
    let remaining = parent.budget.saturating_sub(runtime);
    let work = net(remaining, parent.child_reserved, given_back);
    let ratio: u128 = effective_ratio(parent.schedule.phase_at(runtime), parent.mode);
    work.saturating_sub(work.portion(ratio, BILLION))
}

fn below(amount: &Amount, span: Duration) -> (r: bool)
    ensures
        r == rules::below(*amount, span@),
{
    match amount {
        Amount::NegativeInfinity => true,
        Amount::NotANumber | Amount::Infinity => false,
        Amount::Billionths(value) => if *value < 0 {
            span.nanos > 0 || *value < -1
        } else {
            let nanos: u128 = *value as u128;
            span.nanos > nanos && span.nanos - nanos > TOLERANCE
        },
    }
}

impl Registry {
    /// The budget that a task gets when it asks for `asked`.
    fn regrant(&self, i: usize, asked: &Amount, now: Duration, deadline: Option<Duration>) -> (r:
        Result<Duration, TaskError>)
        requires
            self.wf(),
            i < self.tasks@.len(),
        ensures
            ({
                let id = self.tasks@[i as int].task_id@;
                let limit = deadline_of(deadline);
                match r {
                    Ok(budget) => {
                        &&& rules::budget_refusal(self@, id, *asked, now@, limit) is None
                        &&& budget@ == rules::regranted(self@, id, *asked, now@, limit)
                    },
                    Err(e) => rules::budget_refusal(self@, id, *asked, now@, limit) == Some(e@),
                }
            }),
    {
        proof {
            registry::lemma_entry(*self, i as int);
        }
        let task = &self.tasks[i];
        let runtime = task.runtime_secs(now);
        if below(asked, runtime) {
            return Err(TaskError::invalid("new budget cannot be less than elapsed runtime"));
        }
        let mut budget = asked.to_span();
        if let Some(parent_id) = &task.parent_id {
            let parent: usize = match self.find(parent_id.as_str()) {
                Some(parent) => parent,
                None => {
                    return Err(TaskError::ParentNotFound(parent_id.clone()));
                },
            };
            let held = reserved_for(task, task.budget);
            budget = budget.shorter(offer(&self.tasks[parent], held, now));
            if runtime.saturating_sub(budget).nanos > TOLERANCE {
                return Err(TaskError::BudgetExhausted(parent_id.clone()));
            }
        }
        if let Some(deadline) = deadline {
            let until = task.base_elapsed.saturating_add(deadline.saturating_sub(task.started_at));
            budget = budget.shorter(until);
            if runtime.saturating_sub(budget).nanos > TOLERANCE {
                return Err(TaskError::BudgetExhausted(task.task_id.clone()));
            }
        }
        Ok(budget)
    }

    /// Charges a task's parent with the task's new budget instead of its present one.
    fn repay(&mut self, i: usize, budget: Duration)
        requires
            old(self).wf(),
            i < old(self).tasks@.len(),
            ({
                let t = old(self).tasks@[i as int]@;
                t.parent is Some ==> old(self)@.contains_key(t.parent->Some_0)
            }),
        ensures
            final(self).wf(),
            registry::ids(final(self).tasks@) == registry::ids(old(self).tasks@),
            ({
                let t = old(self).tasks@[i as int]@;
                final(self)@ == if t.parent is Some {
                    old(self)@.insert(
                        t.parent->Some_0,
                        rules::with_child_budget(
                            old(self)@[t.parent->Some_0],
                            rules::reserved_for(t, t.budget),
                            rules::reserved_for(t, budget@),
                        ),
                    )
                } else {
                    old(self)@
                }
            }),
    {
        let from = reserved_for(&self.tasks[i], self.tasks[i].budget);
        let to = reserved_for(&self.tasks[i], budget);
        let parent_id = names::copy_text(&self.tasks[i].parent_id);
        if let Some(parent_id) = &parent_id {
            if let Some(parent) = self.find(parent_id.as_str()) {
                let mut repaid = self.tasks[parent].duplicate();
                repaid.child_reserved = net(repaid.child_reserved, from, to);
                self.replace(parent, repaid);
                assert(registry::ids(self.tasks@) =~= registry::ids(old(self).tasks@));
            }
        }
    }

    /// Changes a task's budget, profile or schedule.
    #[verifier::rlimit(40)]
    pub fn adjust(
        &mut self,
        request: AdjustTaskRequest,
        now: Duration,
        deadline: Option<Duration>,
    ) -> (r: Result<AdjustTaskOutcome, TaskError>)
        requires
            old(self).wf(),
        ensures
            final(self).wf(),
            match r {
                Ok(outcome) => {
                    let limit = deadline_of(deadline);
                    &&& rules::adjust_refusal(old(self)@, request@, now@, limit) is None
                    &&& final(self)@ == rules::adjusted(old(self)@, request@, now@, limit)
                    &&& tells_adjustment(old(self)@, request@, now@, limit, outcome)
                },
                Err(e) => {
                    &&& rules::adjust_refusal(old(self)@, request@, now@, deadline_of(deadline))
                        == Some(e@)
                    &&& final(self)@ == old(self)@
                },
            },
    {
        validate_id(request.task_id.as_str())?;
        if request.budget_secs.is_none() && request.mode.is_none() && request.schedule.is_none() {
            return Err(TaskError::EmptyAdjustment);
        }
        if let Some(budget) = &request.budget_secs {
            validate_budget(budget)?;
        }
        if let Some(schedule) = &request.schedule {
            schedule.validate()?;
        }
        let i: usize = self.open_task(request.task_id.as_str())?;
        let parent_id = names::copy_text(&self.tasks[i].parent_id);
        let mut budget = self.tasks[i].budget;
        let mut clamped = false;
        match &request.budget_secs {
            Some(asked) => {
                budget = self.regrant(i, asked, now, deadline)?;
                clamped = falls_short(budget, asked);
                self.repay(i, budget);
            },
            None => if let Some(parent_id) = &parent_id {
                if self.find(parent_id.as_str()).is_none() {
                    return Err(TaskError::ParentNotFound(parent_id.clone()));
                }
            },
        }
        let mut task = self.tasks[i].duplicate();
        proof {
            assert(registry::ids(self.tasks@)[i as int] == request@.id);
            registry::lemma_entry(*self, i as int);
        }
        let ghost change = request@;
        let ghost before = task@;
        task.budget = budget;
        if let Some(mode) = request.mode {
            task.mode = mode;
        }
        if let Some(schedule) = request.schedule {
            task.schedule = schedule;
        }
        assert(task@ == rules::adjusted_task(before, change, budget@));
        self.replace(i, task);
        Ok(
            AdjustTaskOutcome {
                task: self.view_of(request.task_id.as_str(), now),
                requested_budget_secs: request.budget_secs,
                effective_budget_secs: budget,
                clamped,
            },
        )
    }
}

impl Registry {
    /// The children of the task at an index that are still active.
    fn active_children(&self, i: usize) -> (r: NameSet)
        requires
            self.wf(),
            i < self.tasks@.len(),
        ensures
            r.wf(),
            r@ == rules::active_children(self@, self.tasks@[i as int].task_id@),
    {
        let ghost id = self.tasks@[i as int].task_id@;
        proof {
            registry::lemma_entry(*self, i as int);
        }
        let children = &self.tasks[i].children;
        let ghost list = names::texts(children.items@);
        let ghost active = |child: Seq<char>|
            self@.contains_key(child) && self@[child].status == TaskStatus::Active;
        let mut r = NameSet::new();
        let mut k: usize = 0;
        assert(list.take(0).to_set().filter(active) =~= Set::<Seq<char>>::empty());
        while k < children.items.len()
            invariant
                self.wf(),
                r.wf(),
                list == names::texts(children.items@),
                k <= children.items.len(),
                active == (|child: Seq<char>|
                    self@.contains_key(child) && self@[child].status == TaskStatus::Active),
                r@ == list.take(k as int).to_set().filter(active),
            decreases children.items.len() - k,
        {
            if let Some(child) = self.find(children.items[k].as_str()) {
                if self.tasks[child].status == TaskStatus::Active {
                    r.insert(children.items[k].as_str());
                }
            }
            proof {
                names::lemma_one_more(list, k as int);
                assert(r@ =~= list.take(k + 1).to_set().filter(active));
            }
            k = k + 1;
        }
        proof {
            assert(list.take(k as int) =~= list);
            assert(self@[id].children == list.to_set());
            assert(r@ =~= rules::active_children(self@, id));
        }
        r
    }

    /// Takes their parent from the tasks named.
    fn orphan(&mut self, children: &NameSet)
        requires
            old(self).wf(),
            children.wf(),
        ensures
            final(self).wf(),
            final(self)@ == rules::orphaned(old(self)@, children@),
    {
        let ghost list = names::texts(children.items@);
        let mut k: usize = 0;
        assert(self@ =~= rules::orphaned(old(self)@, list.take(0).to_set()));
        while k < children.items.len()
            invariant
                self.wf(),
                list == names::texts(children.items@),
                k <= children.items.len(),
                self@ == rules::orphaned(old(self)@, list.take(k as int).to_set()),
            decreases children.items.len() - k,
        {
            if let Some(i) = self.find(children.items[k].as_str()) {
                let mut child = self.tasks[i].duplicate();
                child.parent_id = None;
                child.holds_reservation = false;
                self.replace(i, child);
            }
            proof {
                names::lemma_one_more(list, k as int);
                assert(self@ =~= rules::orphaned(old(self)@, list.take(k + 1).to_set()));
            }
            k = k + 1;
        }
        assert(list.take(k as int) =~= list);
    }

    /// Marks a task as finished that has let go of children with those budgets.
    fn close(&mut self, id: &str, now: Duration, forgone: Ghost<nat>)
        requires
            old(self).wf(),
            old(self)@.contains_key(id@),
        ensures
            final(self).wf(),
            final(self)@ == old(self)@.insert(
                id@,
                rules::finished_task(old(self)@[id@], forgone@, now@),
            ),
    {
        if let Some(i) = self.find(id) {
            let mut task = self.tasks[i].duplicate();
            task.finished_elapsed = Some(task.runtime_secs(now));
            task.status = TaskStatus::Finished;
            task.forgone = forgone;
            task.holds_reservation = false;
            task.children = NameSet::new();
            self.replace(i, task);
        }
    }

    /// Gives a child's reservation back to its parent, if the parent still exists.
    fn release_child(&mut self, parent_id: &str, child: &str, reservation: Duration)
        requires
            old(self).wf(),
        ensures
            final(self).wf(),
            final(self)@ == if old(self)@.contains_key(parent_id@) {
                old(self)@.insert(
                    parent_id@,
                    rules::without_child(old(self)@[parent_id@], child@, reservation@),
                )
            } else {
                old(self)@
            },
    {
        if let Some(i) = self.find(parent_id) {
            let mut parent = self.tasks[i].duplicate();
            parent.child_reserved = parent.child_reserved.saturating_sub(reservation);
            parent.children.remove(child);
            self.replace(i, parent);
        }
    }

    /// Finishes a task. A forced request lets go of the task's active children first.
    pub fn finish(&mut self, request: FinishTaskRequest, now: Duration) -> (r: Result<
        FinishTaskOutcome,
        TaskError,
    >)
        requires
            old(self).wf(),
        ensures
            final(self).wf(),
            ({
                let id = request.task_id@;
                let reason = names::text_of(request.reason);
                let refusal = rules::finish_refusal(old(self)@, id, reason, request.force);
                match r {
                    Ok(outcome) => {
                        &&& refusal is None
                        &&& final(self)@ == rules::finished(old(self)@, id, request.force, now@)
                        &&& tells_finish(old(self)@, id, reason, request.force, now@, outcome)
                    },
                    Err(e) => {
                        &&& refusal == Some(e@)
                        &&& final(self)@ == old(self)@
                    },
                }
            }),
    {
        validate_id(request.task_id.as_str())?;
        if too_long(&request.reason) {
            return Err(TaskError::invalid("finish reason is too long"));
        }
        let i: usize = match self.find(request.task_id.as_str()) {
            Some(i) => i,
            None => {
                return Err(TaskError::NotFound(request.task_id));
            },
        };
        let children = self.active_children(i);
        if !request.force && !children.is_empty() {
            return Err(TaskError::ActiveChildren(request.task_id));
        }
        if self.tasks[i].status == TaskStatus::Finished {
            return Err(TaskError::NotActive(request.task_id));
        }
        let runtime = self.tasks[i].runtime_secs(now);
        let budget = self.tasks[i].budget;
        let reservation = reserved_for(&self.tasks[i], budget);
        let ghost forgone = rules::total(
            self@,
            rules::active_children(self@, request.task_id@),
        );
        if request.force {
            self.orphan(&children);
        }
        let parent_id = self.parent_of(request.task_id.as_str());
        self.close(request.task_id.as_str(), now, Ghost(forgone));
        if let Some(parent_id) = &parent_id {
            self.release_child(parent_id.as_str(), request.task_id.as_str(), reservation);
        }
        let mut view = self.view_of(request.task_id.as_str(), now);
        view.elapsed_secs = runtime;
        Ok(
            FinishTaskOutcome {
                task: view,
                reason: request.reason,
                actual_elapsed_secs: runtime,
                overrun_secs: runtime.saturating_sub(budget),
            },
        )
    }

    fn parent_of(&self, id: &str) -> (r: Option<String>)
        requires
            self.wf(),
            self@.contains_key(id@),
        ensures
            names::text_of(r) == self@[id@].parent,
    {
        match self.find(id) {
            Some(i) => names::copy_text(&self.tasks[i].parent_id),
            None => None,
        }
    }
}

/// The list reports every task, in ascending order of identifiers.
pub open spec fn tells_all(tasks: Tasks, now: nat, views: Seq<TaskView>) -> bool {
    &&& text::ascending(report_ids(views))
    &&& forall|id: Seq<char>| tasks.contains_key(id) == report_ids(views).contains(id)
    &&& forall|i: int|
        0 <= i < views.len() ==> (#[trigger] views[i])@ == rules::report(
            tasks,
            views[i].task_id@,
            now,
        ) && views[i].children.wf()
}

/// The identifiers of a list of reports.
pub open spec fn report_ids(views: Seq<TaskView>) -> Seq<Seq<char>> {
    Seq::new(views.len(), |i: int| views[i].task_id@)
}

} // verus!
