//! Tasks, the requests made about them, and what is reported of them.

use crate::duration;
use crate::duration::{Duration, TOLERANCE};
use crate::metadata::Metadata;
use crate::names;
use crate::names::NameSet;
use crate::number::Amount;
use crate::schedule::{Mode, Schedule, Timetable};
use vstd::prelude::*;

verus! {

#[derive(Clone, Copy, Debug, PartialEq, Eq, Structural)]
pub enum TaskStatus {
    Active,
    Exhausted,
    Finished,
}

impl TaskStatus {
    pub open spec fn name(self) -> Seq<char> {
        match self {
            TaskStatus::Active => "active"@,
            TaskStatus::Exhausted => "exhausted"@,
            TaskStatus::Finished => "finished"@,
        }
    }

    pub fn as_str(&self) -> (r: &'static str)
        ensures
            r@ == self.name(),
    {
        match self {
            TaskStatus::Active => "active",
            TaskStatus::Exhausted => "exhausted",
            TaskStatus::Finished => "finished",
        }
    }
}

#[derive(Clone, Debug, PartialEq, Eq)]
pub struct StartTaskRequest {
    pub task_id: String,
    pub budget_secs: Amount,
    pub parent_id: Option<String>,
    pub mode: Mode,
    pub schedule: Schedule,
    pub metadata: Metadata,
}

/// The contents of a [`StartTaskRequest`].
pub struct Start {
    pub id: Seq<char>,
    pub budget: Amount,
    pub parent: Option<Seq<char>>,
    pub mode: Mode,
    pub schedule: Timetable,
    pub metadata: Map<Seq<char>, Seq<char>>,
}

impl View for StartTaskRequest {
    type V = Start;

    open spec fn view(&self) -> Start {
        Start {
            id: self.task_id@,
            budget: self.budget_secs,
            parent: names::text_of(self.parent_id),
            mode: self.mode,
            schedule: self.schedule@,
            metadata: self.metadata@,
        }
    }
}

impl StartTaskRequest {
    pub fn new(task_id: &str, budget_secs: Amount) -> (r: Self)
        ensures
            r@.id == task_id@,
            r@.budget == budget_secs,
            r@.parent is None,
            r@.mode == Mode::Balanced,
            r@.schedule.tick_interval == Amount::Billionths(1_000_000_000),
            r@.schedule.phases.len() == 0,
            r@.metadata == Map::<Seq<char>, Seq<char>>::empty(),
    {
        StartTaskRequest {
            task_id: task_id.to_owned(),
            budget_secs,
            parent_id: None,
            mode: Mode::Balanced,
            schedule: Schedule::default(),
            metadata: Metadata::new(),
        }
    }

    pub fn with_parent(self, parent_id: &str) -> (r: Self)
        ensures
            r@ == (Start { parent: Some(parent_id@), ..self@ }),
    {
        StartTaskRequest { parent_id: Some(parent_id.to_owned()), ..self }
    }

    pub fn with_mode(self, mode: Mode) -> (r: Self)
        ensures
            r@ == (Start { mode, ..self@ }),
    {
        StartTaskRequest { mode, ..self }
    }

    pub fn with_schedule(self, schedule: Schedule) -> (r: Self)
        ensures
            r@ == (Start { schedule: schedule@, ..self@ }),
    {
        StartTaskRequest { schedule, ..self }
    }
}

#[derive(Clone, Debug, PartialEq, Eq)]
pub struct TickRequest {
    pub task_id: String,
}

impl TickRequest {
    pub fn new(task_id: &str) -> (r: Self)
        ensures
            r.task_id@ == task_id@,
    {
        TickRequest { task_id: task_id.to_owned() }
    }
}

#[derive(Clone, Debug, PartialEq, Eq)]
pub struct CheckpointRequest {
    pub task_id: String,
    pub note: Option<String>,
    pub progress: Option<Amount>,
    pub estimated_remaining_work_secs: Option<Amount>,
    pub plan_complete: bool,
    pub replan: bool,
}

/// The contents of a [`CheckpointRequest`].
pub struct Checkpoint {
    pub id: Seq<char>,
    pub note: Option<Seq<char>>,
    pub progress: Option<Amount>,
    pub eta: Option<Amount>,
    pub plan_complete: bool,
    pub replan: bool,
}

impl View for CheckpointRequest {
    type V = Checkpoint;

    open spec fn view(&self) -> Checkpoint {
        Checkpoint {
            id: self.task_id@,
            note: names::text_of(self.note),
            progress: self.progress,
            eta: self.estimated_remaining_work_secs,
            plan_complete: self.plan_complete,
            replan: self.replan,
        }
    }
}

impl CheckpointRequest {
    pub fn new(task_id: &str) -> (r: Self)
        ensures
            r@ == (Checkpoint {
                id: task_id@,
                note: None,
                progress: None,
                eta: None,
                plan_complete: false,
                replan: false,
            }),
    {
        CheckpointRequest {
            task_id: task_id.to_owned(),
            note: None,
            progress: None,
            estimated_remaining_work_secs: None,
            plan_complete: false,
            replan: false,
        }
    }
}

#[derive(Clone, Debug, PartialEq, Eq)]
pub struct AdjustTaskRequest {
    pub task_id: String,
    pub budget_secs: Option<Amount>,
    pub mode: Option<Mode>,
    pub schedule: Option<Schedule>,
}

/// The contents of an [`AdjustTaskRequest`].
pub struct Adjustment {
    pub id: Seq<char>,
    pub budget: Option<Amount>,
    pub mode: Option<Mode>,
    pub schedule: Option<Timetable>,
}

impl View for AdjustTaskRequest {
    type V = Adjustment;

    open spec fn view(&self) -> Adjustment {
        Adjustment {
            id: self.task_id@,
            budget: self.budget_secs,
            mode: self.mode,
            schedule: match self.schedule {
                Some(schedule) => Some(schedule@),
                None => None,
            },
        }
    }
}

impl AdjustTaskRequest {
    pub fn new(task_id: &str) -> (r: Self)
        ensures
            r@ == (Adjustment { id: task_id@, budget: None, mode: None, schedule: None }),
    {
        AdjustTaskRequest {
            task_id: task_id.to_owned(),
            budget_secs: None,
            mode: None,
            schedule: None,
        }
    }

    pub fn with_budget(self, budget_secs: Amount) -> (r: Self)
        ensures
            r@ == (Adjustment { budget: Some(budget_secs), ..self@ }),
    {
        AdjustTaskRequest { budget_secs: Some(budget_secs), ..self }
    }

    pub fn with_mode(self, mode: Mode) -> (r: Self)
        ensures
            r@ == (Adjustment { mode: Some(mode), ..self@ }),
    {
        AdjustTaskRequest { mode: Some(mode), ..self }
    }

    pub fn with_schedule(self, schedule: Schedule) -> (r: Self)
        ensures
            r@ == (Adjustment { schedule: Some(schedule@), ..self@ }),
    {
        AdjustTaskRequest { schedule: Some(schedule), ..self }
    }
}

#[derive(Clone, Debug, PartialEq, Eq)]
pub struct FinishTaskRequest {
    pub task_id: String,
    pub reason: Option<String>,
    pub force: bool,
}

impl FinishTaskRequest {
    pub fn new(task_id: &str) -> (r: Self)
        ensures
            r.task_id@ == task_id@,
            r.reason is None,
            !r.force,
    {
        FinishTaskRequest { task_id: task_id.to_owned(), reason: None, force: false }
    }
}

#[derive(Clone, Debug, PartialEq, Eq)]
pub struct CheckpointRecord {
    pub sequence: u64,
    pub elapsed_secs: Duration,
    pub note: Option<String>,
    pub progress: Option<Amount>,
    pub estimated_remaining_work_secs: Option<Amount>,
    pub plan_complete: bool,
}

/// The contents of a [`CheckpointRecord`].
pub struct Record {
    pub sequence: u64,
    pub elapsed: nat,
    pub note: Option<Seq<char>>,
    pub progress: Option<Amount>,
    pub eta: Option<Amount>,
    pub plan_complete: bool,
}

impl View for CheckpointRecord {
    type V = Record;

    open spec fn view(&self) -> Record {
        Record {
            sequence: self.sequence,
            elapsed: self.elapsed_secs@,
            note: names::text_of(self.note),
            progress: self.progress,
            eta: self.estimated_remaining_work_secs,
            plan_complete: self.plan_complete,
        }
    }
}

impl CheckpointRecord {
    pub fn duplicate(&self) -> (r: Self)
        ensures
            r@ == self@,
    {
        CheckpointRecord {
            sequence: self.sequence,
            elapsed_secs: self.elapsed_secs,
            note: names::copy_text(&self.note),
            progress: self.progress,
            estimated_remaining_work_secs: self.estimated_remaining_work_secs,
            plan_complete: self.plan_complete,
        }
    }
}

pub open spec fn record_of(record: Option<CheckpointRecord>) -> Option<Record> {
    match record {
        Some(record) => Some(record@),
        None => None,
    }
}

pub fn copy_record(record: &Option<CheckpointRecord>) -> (r: Option<CheckpointRecord>)
    ensures
        record_of(r) == record_of(*record),
{
    match record {
        Some(record) => Some(record.duplicate()),
        None => None,
    }
}

#[derive(Clone, Debug, PartialEq, Eq)]
pub struct TaskView {
    pub task_id: String,
    pub parent_id: Option<String>,
    pub budget_secs: Duration,
    pub elapsed_secs: Duration,
    pub remaining_secs: Duration,
    pub child_reserved_secs: Duration,
    pub adaptive_reserve_secs: Duration,
    pub available_secs: Duration,
    pub recommended_work_secs: Duration,
    pub mode: Mode,
    pub phase: Option<String>,
    pub status: TaskStatus,
    pub ticks: u64,
    pub checkpoints: u64,
    pub last_checkpoint: Option<CheckpointRecord>,
    pub children: NameSet,
    pub metadata: Metadata,
    pub plan_submitted: bool,
}

/// The contents of a [`TaskView`].
pub struct Report {
    pub id: Seq<char>,
    pub parent: Option<Seq<char>>,
    pub budget: nat,
    pub elapsed: nat,
    pub remaining: nat,
    pub child_reserved: nat,
    pub reserve: nat,
    pub available: nat,
    pub recommended: nat,
    pub mode: Mode,
    pub phase: Option<Seq<char>>,
    pub status: TaskStatus,
    pub ticks: u64,
    pub checkpoints: u64,
    pub last_checkpoint: Option<Record>,
    pub children: Set<Seq<char>>,
    pub metadata: Map<Seq<char>, Seq<char>>,
    pub plan_submitted: bool,
}

impl View for TaskView {
    type V = Report;

    open spec fn view(&self) -> Report {
        Report {
            id: self.task_id@,
            parent: names::text_of(self.parent_id),
            budget: self.budget_secs@,
            elapsed: self.elapsed_secs@,
            remaining: self.remaining_secs@,
            child_reserved: self.child_reserved_secs@,
            reserve: self.adaptive_reserve_secs@,
            available: self.available_secs@,
            recommended: self.recommended_work_secs@,
            mode: self.mode,
            phase: names::text_of(self.phase),
            status: self.status,
            ticks: self.ticks,
            checkpoints: self.checkpoints,
            last_checkpoint: record_of(self.last_checkpoint),
            children: self.children@,
            metadata: self.metadata@,
            plan_submitted: self.plan_submitted,
        }
    }
}

impl Report {
    pub open spec fn done(self) -> bool {
        self.status == TaskStatus::Finished || self.status == TaskStatus::Exhausted
    }
}

impl TaskView {
    pub fn is_done(&self) -> (r: bool)
        ensures
            r == self@.done(),
    {
        matches!(self.status, TaskStatus::Finished | TaskStatus::Exhausted)
    }
}

#[derive(Clone, Debug, PartialEq, Eq)]
pub struct StartTaskOutcome {
    pub task: TaskView,
    pub requested_budget_secs: Amount,
    pub effective_budget_secs: Duration,
    pub clamped: bool,
}

#[derive(Clone, Debug, PartialEq, Eq)]
pub struct TickOutcome {
    pub task: TaskView,
    pub tick: u64,
    pub phase_changed: bool,
}

/// Explicit deadline accounting returned by opt-in timing APIs.
#[derive(Clone, Copy, Debug, PartialEq, Eq, Structural)]
pub struct TaskTiming {
    /// Monotonic runtime without deadline clamping.
    pub actual_elapsed_secs: Duration,
    /// Runtime charged against the configured budget.
    pub accounted_elapsed_secs: Duration,
    pub overrun_secs: Duration,
    pub deadline_met: bool,
}

/// The contents of a [`TaskTiming`].
pub struct Timing {
    pub actual: nat,
    pub accounted: nat,
    pub overrun: nat,
    pub deadline_met: bool,
}

impl View for TaskTiming {
    type V = Timing;

    open spec fn view(&self) -> Timing {
        Timing {
            actual: self.actual_elapsed_secs@,
            accounted: self.accounted_elapsed_secs@,
            overrun: self.overrun_secs@,
            deadline_met: self.deadline_met,
        }
    }
}

/// Whether a runtime keeps to a budget, within the tolerance.
pub open spec fn keeps_to(runtime: nat, budget: nat) -> bool {
    runtime <= budget + TOLERANCE
}

/// The accounting of a runtime against a budget.
pub open spec fn timing(runtime: nat, budget: nat) -> Timing {
    Timing {
        actual: runtime,
        accounted: duration::min_nat(runtime, budget),
        overrun: duration::less(runtime, budget),
        deadline_met: keeps_to(runtime, budget),
    }
}

impl TaskTiming {
    pub fn new(actual_elapsed_secs: Duration, budget_secs: Duration) -> (r: Self)
        ensures
            r@ == timing(actual_elapsed_secs@, budget_secs@),
    {
        TaskTiming {
            actual_elapsed_secs,
            accounted_elapsed_secs: actual_elapsed_secs.shorter(budget_secs),
            overrun_secs: actual_elapsed_secs.saturating_sub(budget_secs),
            deadline_met: actual_elapsed_secs.saturating_sub(budget_secs).nanos <= TOLERANCE,
        }
    }
}

#[derive(Clone, Debug, PartialEq, Eq)]
pub struct CheckpointOutcome {
    pub task: TaskView,
    pub checkpoint: CheckpointRecord,
}

#[derive(Clone, Debug, PartialEq, Eq)]
pub struct AdjustTaskOutcome {
    pub task: TaskView,
    pub requested_budget_secs: Option<Amount>,
    pub effective_budget_secs: Duration,
    pub clamped: bool,
}

#[derive(Clone, Debug, PartialEq, Eq)]
pub struct FinishTaskOutcome {
    pub task: TaskView,
    pub reason: Option<String>,
    pub actual_elapsed_secs: Duration,
    pub overrun_secs: Duration,
}

impl FinishTaskOutcome {
    pub fn deadline_met(&self) -> (r: bool)
        ensures
            r == keeps_to(self.actual_elapsed_secs@, self.task.budget_secs@),
    {
        self.actual_elapsed_secs.saturating_sub(self.task.budget_secs).nanos <= TOLERANCE
    }
}

#[derive(Clone, Debug, PartialEq, Eq)]
pub struct PersistedState {
    pub version: u32,
    pub saved_at_unix_ms: u64,
    pub tasks: Vec<PersistedTask>,
}

#[derive(Clone, Debug, PartialEq, Eq)]
pub struct PersistedTask {
    pub task_id: String,
    pub parent_id: Option<String>,
    pub budget_secs: Amount,
    pub mode: Mode,
    pub schedule: Schedule,
    pub metadata: Metadata,
    pub status: TaskStatus,
    pub elapsed_secs: Amount,
    pub ticks: u64,
    pub checkpoints: u64,
    pub last_checkpoint: Option<CheckpointRecord>,
    pub progress: Option<Amount>,
    pub plan_submitted: bool,
}

/// The contents of a [`PersistedTask`].
pub struct Saved {
    pub id: Seq<char>,
    pub parent: Option<Seq<char>>,
    pub budget: Amount,
    pub mode: Mode,
    pub schedule: Timetable,
    pub metadata: Map<Seq<char>, Seq<char>>,
    pub status: TaskStatus,
    pub elapsed: Amount,
    pub ticks: u64,
    pub checkpoints: u64,
    pub last_checkpoint: Option<Record>,
    pub progress: Option<Amount>,
    pub plan_submitted: bool,
}

impl View for PersistedTask {
    type V = Saved;

    open spec fn view(&self) -> Saved {
        Saved {
            id: self.task_id@,
            parent: names::text_of(self.parent_id),
            budget: self.budget_secs,
            mode: self.mode,
            schedule: self.schedule@,
            metadata: self.metadata@,
            status: self.status,
            elapsed: self.elapsed_secs,
            ticks: self.ticks,
            checkpoints: self.checkpoints,
            last_checkpoint: record_of(self.last_checkpoint),
            progress: self.progress,
            plan_submitted: self.plan_submitted,
        }
    }
}

/// The contents of a list of persisted tasks.
pub open spec fn saved_tasks(tasks: Seq<PersistedTask>) -> Seq<Saved> {
    Seq::new(tasks.len(), |i: int| tasks[i]@)
}

impl PersistedTask {
    pub fn duplicate(&self) -> (r: Self)
        ensures
            r@ == self@,
    {
        PersistedTask {
            task_id: self.task_id.clone(),
            parent_id: names::copy_text(&self.parent_id),
            budget_secs: self.budget_secs,
            mode: self.mode,
            schedule: self.schedule.duplicate(),
            metadata: self.metadata.duplicate(),
            status: self.status,
            elapsed_secs: self.elapsed_secs,
            ticks: self.ticks,
            checkpoints: self.checkpoints,
            last_checkpoint: copy_record(&self.last_checkpoint),
            progress: self.progress,
            plan_submitted: self.plan_submitted,
        }
    }
}

/// A task and its running state. Its `progress` is what the latest checkpoint that told
/// any told.
pub struct Task {
    pub task_id: String,
    pub parent_id: Option<String>,
    pub budget: Duration,
    pub mode: Mode,
    pub schedule: Schedule,
    pub metadata: Metadata,
    pub status: TaskStatus,
    pub started_at: Duration,
    pub base_elapsed: Duration,
    pub finished_elapsed: Option<Duration>,
    pub last_phase: Option<String>,
    pub child_reserved: Duration,
    pub forgone: Ghost<nat>,
    pub holds_reservation: bool,
    pub children: NameSet,
    pub ticks: u64,
    pub checkpoints: u64,
    pub last_checkpoint: Option<CheckpointRecord>,
    pub progress: Option<Amount>,
    pub plan_submitted: bool,
}

/// The contents of a [`Task`], but for its identifier.
pub struct State {
    pub parent: Option<Seq<char>>,
    pub budget: nat,
    pub mode: Mode,
    pub schedule: Timetable,
    pub metadata: Map<Seq<char>, Seq<char>>,
    pub status: TaskStatus,
    pub started_at: nat,
    pub base_elapsed: nat,
    pub finished_elapsed: Option<nat>,
    pub last_phase: Option<Seq<char>>,
    /// What the task has reserved for its children.
    pub child_reserved: nat,
    /// The part of that which belonged to children that a forced finish let go of.
    pub forgone: nat,
    /// Whether the task's budget is part of what its parent has reserved.
    pub holds_reservation: bool,
    pub children: Set<Seq<char>>,
    pub ticks: u64,
    pub checkpoints: u64,
    pub last_checkpoint: Option<Record>,
    pub progress: Option<Amount>,
    pub plan_submitted: bool,
}

impl View for Task {
    type V = State;

    open spec fn view(&self) -> State {
        State {
            parent: names::text_of(self.parent_id),
            budget: self.budget@,
            mode: self.mode,
            schedule: self.schedule@,
            metadata: self.metadata@,
            status: self.status,
            started_at: self.started_at@,
            base_elapsed: self.base_elapsed@,
            finished_elapsed: match self.finished_elapsed {
                Some(elapsed) => Some(elapsed@),
                None => None,
            },
            last_phase: names::text_of(self.last_phase),
            child_reserved: self.child_reserved@,
            forgone: self.forgone@,
            holds_reservation: self.holds_reservation,
            children: self.children@,
            ticks: self.ticks,
            checkpoints: self.checkpoints,
            last_checkpoint: record_of(self.last_checkpoint),
            progress: self.progress,
            plan_submitted: self.plan_submitted,
        }
    }
}

impl State {
    /// How long the task has run at `now`: what it had run before it was started or
    /// recovered, and what has passed since then, until it finished.
    pub open spec fn runtime(self, now: nat) -> nat {
        match self.finished_elapsed {
            Some(elapsed) => elapsed,
            None => duration::clip(
                (self.base_elapsed + duration::less(now, self.started_at)) as int,
            ),
        }
    }
}

impl Task {
    pub open spec fn wf(&self) -> bool {
        self.children.wf()
    }

    pub fn runtime_secs(&self, now: Duration) -> (r: Duration)
        ensures
            r@ == self@.runtime(now@),
    {
        match self.finished_elapsed {
            Some(elapsed) => elapsed,
            None => self.base_elapsed.saturating_add(now.saturating_sub(self.started_at)),
        }
    }

    pub fn duplicate(&self) -> (r: Self)
        ensures
            r@ == self@,
            r.task_id@ == self.task_id@,
            self.wf() ==> r.wf(),
    {
        Task {
            task_id: self.task_id.clone(),
            parent_id: names::copy_text(&self.parent_id),
            budget: self.budget,
            mode: self.mode,
            schedule: self.schedule.duplicate(),
            metadata: self.metadata.duplicate(),
            status: self.status,
            started_at: self.started_at,
            base_elapsed: self.base_elapsed,
            finished_elapsed: self.finished_elapsed,
            last_phase: names::copy_text(&self.last_phase),
            child_reserved: self.child_reserved,
            forgone: self.forgone,
            holds_reservation: self.holds_reservation,
            children: self.children.duplicate(),
            ticks: self.ticks,
            checkpoints: self.checkpoints,
            last_checkpoint: copy_record(&self.last_checkpoint),
            progress: self.progress,
            plan_submitted: self.plan_submitted,
        }
    }
}

} // verus!
