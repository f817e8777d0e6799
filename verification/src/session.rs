//! What an agent asks for over one connection: the five requests, the task that they are
//! about when none is named, and the answers.

use crate::advice;
use crate::advice::TickOutput;
use crate::clock;
use crate::clock::Timer;
use crate::decimal;
use crate::decimal::Thousandths;
use crate::duration;
use crate::duration::{Duration, MAX_NANOS, MILLION};
use crate::error::Refusal;
use crate::laws;
use crate::lifecycle;
use crate::manager;
use crate::manager::TaskManager;
use crate::metadata::Metadata;
use crate::names;
use crate::number::{Amount, Number, LARGEST};
use crate::plan;
use crate::plan::PlanStepInput;
use crate::policy::Decision;
use crate::registry::Tasks;
use crate::reservations;
use crate::rules;
use crate::schedule::{Mode, Phase, Schedule, Timetable};
use crate::store::{Handed, Keeper};
use crate::task;
use crate::task::{
    AdjustTaskRequest, Adjustment, Checkpoint, CheckpointRequest, FinishTaskOutcome,
    FinishTaskRequest, Report, Start, StartTaskRequest, TickRequest,
};
use crate::text;
use vstd::arithmetic::div_mod;
use vstd::arithmetic::power;
use vstd::prelude::*;
use vstd::string::StringExecFns;

verus! {

/// The longest objective that is kept, in characters.
pub const MAX_OBJECTIVE_CHARS: usize = 256;

// ---------------------------------------------------------------------------
// The host's settings

/// What the host decides for all requests.
#[derive(Debug, Clone, Copy, PartialEq, Eq, Structural)]
pub struct Settings {
    pub default_validation_percent: Option<Amount>,
    pub default_finalization_percent: Option<Amount>,
    pub default_verbose: bool,
    pub allow_budget_increase: bool,
    pub host_deadline: Option<Duration>,
}

/// Whether a setting is switched on: by `1`, or by `true` or `yes` in any case.
pub open spec fn switched_on(value: Seq<char>) -> bool {
    value == "1"@ || text::lowered(value) == "true"@ || text::lowered(value) == "yes"@
}

pub fn is_switched_on(value: &str) -> (r: bool)
    ensures
        r == switched_on(value@),
{
    let lowered = value.to_ascii_lowercase();
    text::same_text(value, "1") || text::same_text(lowered.as_str(), "true") || text::same_text(
        lowered.as_str(),
        "yes",
    )
}

/// The deadline that the host states as a wall-clock time in milliseconds.
pub fn parse_host_deadline(value: Option<&str>) -> (r: Result<Option<u64>, String>)
    ensures
        match value {
            None => r is Ok && r->Ok_0 is None,
            Some(value) => match text::whole_number(value@) {
                Some(n) if n <= u64::MAX => r is Ok && r->Ok_0 == Some(n as u64),
                _ => r is Err && r->Err_0@
                    == "TIME_STRIKE_DEADLINE_UNIX_MS must be an unsigned Unix timestamp in milliseconds"@,
            },
        },
{
    match value {
        None => Ok(None),
        Some(value) => match text::parse_u64(value) {
            Some(deadline) => Ok(Some(deadline)),
            None => Err(
                "TIME_STRIKE_DEADLINE_UNIX_MS must be an unsigned Unix timestamp in milliseconds".to_owned(),
            ),
        },
    }
}

/// The monotonic time at which a wall-clock deadline falls, reckoned from one reading of
/// both clocks. A deadline that has passed falls on that reading.
pub fn monotonic_host_deadline(
    host_deadline_unix_ms: Option<u64>,
    now_unix_ms: u64,
    monotonic_anchor: Duration,
) -> (r: Option<Duration>)
    ensures
        match host_deadline_unix_ms {
            Some(deadline) => r is Some && r->Some_0@ == duration::clip(
                (monotonic_anchor@ + duration::less(deadline as nat, now_unix_ms as nat)
                    * MILLION as nat) as int,
            ),
            None => r is None,
        },
{
    match host_deadline_unix_ms {
        Some(deadline) => {
            let left: u64 = if deadline >= now_unix_ms {
                deadline - now_unix_ms
            } else {
                0
            };
            Some(monotonic_anchor.saturating_add(Duration::from_millis(left)))
        },
        None => None,
    }
}

// ---------------------------------------------------------------------------
// Requests

#[derive(Debug, Clone, PartialEq, Eq)]
pub struct StartInput {
    /// Short human objective; stored truncated and never returned by a tick.
    pub objective: Option<String>,
    /// Optional stable identifier. Generated when omitted.
    pub task_id: Option<String>,
    pub budget_seconds: Amount,
    pub parent_task_id: Option<String>,
    pub validation_reserve_percent: Option<Amount>,
    pub finalization_reserve_percent: Option<Amount>,
    pub verbose: bool,
}

#[derive(Debug, Clone, PartialEq, Eq)]
pub struct TickInput {
    /// The task started last, when omitted.
    pub task_id: Option<String>,
    pub progress_percent: Option<Amount>,
    pub estimated_remaining_work_seconds: Option<Amount>,
    pub current_action: Option<String>,
    pub current_action_estimated_seconds: Option<Number>,
    pub verbose: bool,
}

#[derive(Debug, Clone, PartialEq, Eq)]
pub struct CheckpointInput {
    pub task_id: Option<String>,
    pub progress_percent: Option<Amount>,
    pub estimated_remaining_work_seconds: Option<Amount>,
    pub completed: Vec<String>,
    pub note: Option<String>,
    /// Two to eight auditable steps for an initial or replacement plan.
    pub plan_steps: Vec<PlanStepInput>,
    pub plan_complete: bool,
    pub replan: bool,
}

#[derive(Debug, Clone, PartialEq, Eq)]
pub struct AdjustInput {
    pub task_id: Option<String>,
    pub add_seconds: Option<Amount>,
    pub remove_seconds: Option<Amount>,
    pub set_total_seconds: Option<Amount>,
}

#[derive(Debug, Clone, PartialEq, Eq)]
pub struct FinishInput {
    pub task_id: Option<String>,
    pub reason: Option<String>,
    /// A privilege of hosts that no agent can exercise.
    pub force: bool,
}

// ---------------------------------------------------------------------------
// Answers

#[derive(Debug, Clone, PartialEq, Eq)]
pub struct StartOutput {
    pub task_id: String,
    pub remaining_seconds: Thousandths,
    pub mode: &'static str,
    pub next_check_seconds: Thousandths,
    pub clamped: bool,
    pub deadline_authority: &'static str,
    pub planning_budget_seconds: Thousandths,
    pub directive: &'static str,
    pub max_new_action_seconds: Thousandths,
    pub reason: Option<&'static str>,
}

#[derive(Debug, Clone, PartialEq, Eq)]
pub struct CheckpointOutput {
    pub task_id: String,
    pub checkpoint_count: u64,
    pub remaining_seconds: Thousandths,
    pub mode: &'static str,
    pub schedule: &'static str,
    pub next_check_seconds: Thousandths,
    pub must_converge: bool,
    pub plan_step_count: usize,
}

#[derive(Debug, Clone, PartialEq, Eq)]
pub struct AdjustOutput {
    pub task_id: String,
    pub total_budget_seconds: Thousandths,
    pub remaining_seconds: Thousandths,
    pub mode: &'static str,
    pub clamped: bool,
}

#[derive(Debug, Clone, PartialEq, Eq)]
pub struct FinishOutput {
    pub elapsed_seconds: Thousandths,
    pub budget_seconds: Thousandths,
    pub unused_seconds: Thousandths,
    pub overrun_seconds: Thousandths,
    /// None for a budget of no time at all.
    pub budget_used_percent: Option<Thousandths>,
    pub checkpoints: u64,
    pub deadline_met: bool,
}

// ---------------------------------------------------------------------------
// The session

/// The contents of a [`Session`].
pub struct Desk {
    pub tasks: Tasks,
    /// The clock that every request is answered by.
    pub clock: Timer,
    /// The store that changes are saved in, if there is one.
    pub store: Keeper,
    /// The task that a request is about when it names none.
    pub active: Option<Seq<char>>,
    /// The number of the next generated identifier.
    pub next_id: u64,
    pub settings: Settings,
}

/// One agent's dealings with the task manager.
pub struct Session {
    manager: TaskManager,
    active_task: Option<String>,
    next_id: u64,
    settings: Settings,
}

impl View for Session {
    type V = Desk;

    closed spec fn view(&self) -> Desk {
        Desk {
            tasks: self.manager@,
            clock: self.manager.timer(),
            store: self.manager.keeper(),
            active: names::text_of(self.active_task),
            next_id: self.next_id,
            settings: self.settings,
        }
    }
}

impl Session {
    /// What the store was handed by this session so far, in that order.
    pub closed spec fn log(&self) -> Seq<Handed> {
        self.manager.log()
    }
}

/// The task that a request is about: the one it names, or else the active one.
pub open spec fn resolved(desk: Desk, asked: Option<String>) -> Option<Seq<char>> {
    match asked {
        Some(id) => Some(id@),
        None => desk.active,
    }
}

/// The identifier number `n` generated at a wall-clock time in milliseconds.
pub open spec fn generated_id(millis: nat, n: u64) -> Seq<char> {
    "pt-"@ + text::decimal(millis) + "-"@ + text::decimal(n as nat)
}

/// How a refused request is answered: with the refusal, or where there is none, with why
/// the store did not take the change.
pub open spec fn tells_refusal(
    refusal: Option<Refusal>,
    store: Keeper,
    tasks: Tasks,
    now: nat,
    answer: Seq<char>,
) -> bool {
    match refusal {
        Some(e) => answer == e.line(),
        None => exists|e: Refusal| #[trigger]
            manager::unsaved(store, tasks, now, e) && answer == e.line(),
    }
}

impl Session {
    pub closed spec fn wf(&self) -> bool {
        self.manager.wf()
    }

    pub fn new(manager: TaskManager, settings: Settings) -> (r: Self)
        requires
            manager.wf(),
        ensures
            r.wf(),
            r@ == (Desk {
                tasks: manager@,
                clock: manager.timer(),
                store: manager.keeper(),
                active: None,
                next_id: 1,
                settings,
            }),
            r.log() == manager.log(),
    {
        Session { manager, active_task: None, next_id: 1, settings }
    }

    fn resolve_task_id(&self, task_id: &Option<String>) -> (r: Result<String, String>)
        ensures
            match r {
                Ok(id) => resolved(self@, *task_id) == Some(id@),
                Err(e) => resolved(self@, *task_id) is None && e@
                    == "task_id required: no active task"@,
            },
    {
        match task_id {
            Some(id) => Ok(id.clone()),
            None => match &self.active_task {
                Some(id) => Ok(id.clone()),
                None => Err("task_id required: no active task".to_owned()),
            },
        }
    }
}

/// The identifier number `n` generated at a wall-clock time in milliseconds.
pub fn generated_task_id(epoch_ms: u128, n: u64) -> (r: String)
    ensures
        r@ == generated_id(epoch_ms as nat, n),
{
    "pt-".to_owned().concat(text::decimal_text(epoch_ms).as_str()).concat("-").concat(
        text::decimal_text(n as u128).as_str(),
    )
}

// ---------------------------------------------------------------------------
// Starting

/// A percentage as the metadata hold it: the one given, or else the host's.
pub open spec fn with_percent(
    metadata: Map<Seq<char>, Seq<char>>,
    key: Seq<char>,
    given: Option<Amount>,
    usual: Option<Amount>,
) -> Map<Seq<char>, Seq<char>> {
    match given {
        Some(percent) => metadata.insert(key, decimal::amount_text(percent)),
        None => match usual {
            Some(percent) => metadata.insert(key, decimal::amount_text(percent)),
            None => metadata,
        },
    }
}

/// The metadata of a task that is started.
pub open spec fn start_metadata(settings: Settings, input: StartInput) -> Map<
    Seq<char>,
    Seq<char>,
> {
    let objective = match input.objective {
        Some(objective) => Map::<Seq<char>, Seq<char>>::empty().insert(
            "objective"@,
            text::shortened(objective@, MAX_OBJECTIVE_CHARS as nat),
        ),
        None => Map::empty(),
    };
    with_percent(
        with_percent(
            objective,
            advice::validation_key(),
            input.validation_reserve_percent,
            settings.default_validation_percent,
        ),
        advice::finalization_key(),
        input.finalization_reserve_percent,
        settings.default_finalization_percent,
    )
}

/// What the manager is asked to start.
pub open spec fn start_request(settings: Settings, input: StartInput, id: Seq<char>) -> Start {
    Start {
        id,
        budget: input.budget_seconds,
        parent: names::text_of(input.parent_task_id),
        mode: Mode::Balanced,
        schedule: Timetable {
            tick_interval: Amount::Billionths(1_000_000_000),
            phases: Seq::<Phase>::empty(),
        },
        metadata: start_metadata(settings, input),
    }
}

/// What is told of a task that was started.
pub open spec fn tells_started(
    settings: Settings,
    verbose: bool,
    view: Report,
    clamped: bool,
    out: StartOutput,
) -> bool {
    let decision = advice::question(view, Some(Amount::Billionths(0)), None).decision();
    let planning = decimal::thousandths(advice::planning_budget(view.budget));
    &&& out.task_id@ == view.id
    &&& out.remaining_seconds.count == decimal::thousandths(decision.remaining)
    &&& out.mode@ == "plan"@
    &&& out.next_check_seconds.count == planning
    &&& out.clamped == clamped
    &&& out.deadline_authority@ == if settings.host_deadline is Some {
        "host_absolute"@
    } else {
        "agent_relative"@
    }
    &&& out.planning_budget_seconds.count == planning
    &&& out.directive@ == "submit_plan"@
    &&& out.max_new_action_seconds.count == 0
    &&& advice::slice_text(out.reason) == if verbose || settings.default_verbose {
        Some(decision.reason)
    } else {
        None
    }
}

/// How a request to start the task `id` is answered at `now`, and what it leaves.
pub open spec fn answers_start(
    before: Desk,
    after: Desk,
    input: StartInput,
    id: Seq<char>,
    now: nat,
    r: Result<StartOutput, String>,
) -> bool {
    let request = start_request(before.settings, input, id);
    let deadline = lifecycle::deadline_of(before.settings.host_deadline);
    let refusal = rules::start_refusal(before.tasks, request, now, deadline);
    match r {
        Ok(out) => {
            let budget = rules::granted(before.tasks, request, now, deadline);
            let tasks = rules::started(before.tasks, request, now, deadline);
            &&& refusal is None
            &&& after == (Desk { tasks, active: Some(id), ..before })
            &&& before.clock.shows(now)
            &&& manager::answers_save(before.store, tasks, now, Ok(()))
            &&& tells_started(
                before.settings,
                input.verbose,
                rules::report(tasks, id, now),
                rules::falls_short(budget, input.budget_seconds),
                out,
            )
        },
        Err(answer) => after == before && before.clock.shows(now) && tells_refusal(
            refusal,
            before.store,
            rules::started(before.tasks, request, now, deadline),
            now,
            answer@,
        ),
    }
}

/// The tasks as a request to start the task `id` at `now` changes them, unless it is
/// refused.
pub open spec fn start_change(desk: Desk, input: StartInput, id: Seq<char>, now: nat) -> Option<
    Tasks,
> {
    let request = start_request(desk.settings, input, id);
    let deadline = lifecycle::deadline_of(desk.settings.host_deadline);
    manager::unless(
        rules::start_refusal(desk.tasks, request, now, deadline),
        rules::started(desk.tasks, request, now, deadline),
    )
}

/// The desk once an identifier was generated.
pub open spec fn numbered(desk: Desk) -> Desk {
    Desk {
        next_id: if desk.next_id == u64::MAX {
            0
        } else {
            (desk.next_id + 1) as u64
        },
        ..desk
    }
}

fn put_percent(metadata: &mut Metadata, key: &str, given: &Option<Amount>, usual: &Option<Amount>)
    ensures
        final(metadata)@ == with_percent(old(metadata)@, key@, *given, *usual),
{
    match given {
        Some(percent) => {
            metadata.insert(key, percent.to_text().as_str());
        },
        None => if let Some(percent) = usual {
            metadata.insert(key, percent.to_text().as_str());
        },
    }
}

fn metadata_for(settings: &Settings, input: &StartInput) -> (r: Metadata)
    ensures
        r@ == start_metadata(*settings, *input),
{
    let mut metadata = Metadata::new();
    if let Some(objective) = &input.objective {
        metadata.insert("objective", text::shorten(objective.as_str(), MAX_OBJECTIVE_CHARS));
    }
    put_percent(
        &mut metadata,
        "validation_reserve_percent",
        &input.validation_reserve_percent,
        &settings.default_validation_percent,
    );
    put_percent(
        &mut metadata,
        "finalization_reserve_percent",
        &input.finalization_reserve_percent,
        &settings.default_finalization_percent,
    );
    metadata
}

/// What is told of a task that was started.
pub fn start_output(
    settings: &Settings,
    verbose: bool,
    outcome: &task::StartTaskOutcome,
) -> (r: StartOutput)
    ensures
        tells_started(*settings, verbose, outcome.task@, outcome.clamped, r),
{
    let decision = advice::policy(&outcome.task, Some(Amount::Billionths(0)), None);
    let planning = decimal::round3(advice::planning_budget_secs(outcome.task.budget_secs).nanos);
    StartOutput {
        task_id: outcome.task.task_id.clone(),
        remaining_seconds: decimal::round3(decision.remaining_secs.nanos),
        mode: "plan",
        next_check_seconds: planning,
        clamped: outcome.clamped,
        deadline_authority: if settings.host_deadline.is_some() {
            "host_absolute"
        } else {
            "agent_relative"
        },
        planning_budget_seconds: planning,
        directive: "submit_plan",
        max_new_action_seconds: Thousandths { count: 0 },
        reason: if verbose || settings.default_verbose {
            Some(decision.reason)
        } else {
            None
        },
    }
}

impl Session {
    /// Starts a task of that name and makes it the active one.
    fn start_named(&mut self, input: StartInput, task_id: String) -> (r: Result<
        StartOutput,
        String,
    >)
        requires
            old(self).wf(),
        ensures
            final(self).wf(),
            exists|now: nat| #[trigger]
                answers_start(old(self)@, final(self)@, input, task_id@, now, r)
                    && manager::asks_store(
                    old(self)@.store,
                    start_change(old(self)@, input, task_id@, now),
                    now,
                    r is Ok,
                    old(self).log(),
                    final(self).log(),
                ),
    {
        let settings = self.settings;
        let ghost asked = input;
        let metadata = metadata_for(&settings, &input);
        let request = StartTaskRequest {
            task_id: task_id.clone(),
            budget_secs: input.budget_seconds,
            parent_id: input.parent_task_id,
            mode: Mode::Balanced,
            schedule: Schedule::default(),
            metadata,
        };
        let ghost named = request@;
        assert(named == start_request(settings, asked, task_id@));
        let started = self.manager.start_task_with_deadline(request, settings.host_deadline);
        let ghost deadline = lifecycle::deadline_of(settings.host_deadline);
        let ghost now = choose|now: nat| #[trigger]
            manager::answers_start(
                old(self)@.tasks,
                self@.tasks,
                named,
                now,
                deadline,
                old(self)@.store,
                started,
            ) && old(self)@.clock.shows(now) && manager::asks_store(
                old(self)@.store,
                start_change(old(self)@, asked, task_id@, now),
                now,
                started is Ok,
                old(self).log(),
                self.log(),
            );
        match started {
            Ok(outcome) => {
                let out = start_output(&settings, input.verbose, &outcome);
                self.active_task = Some(task_id);
                assert(answers_start(old(self)@, self@, asked, task_id@, now, Ok(out)));
                Ok(out)
            },
            Err(e) => {
                let answer = e.message();
                proof {
                    assert(answers_start(old(self)@, self@, asked, task_id@, now, Err(answer)));
                }
                Err(answer)
            },
        }
    }

    /// Starts a task, under a name generated from what the wall clock shows if the request
    /// names none. The store is handed the change, unless the request is refused.
    pub fn start_task(&mut self, input: StartInput) -> (r: Result<StartOutput, String>)
        requires
            old(self).wf(),
        ensures
            final(self).wf(),
            match input.task_id {
                Some(id) => exists|now: nat| #[trigger]
                    answers_start(old(self)@, final(self)@, input, id@, now, r)
                        && manager::asks_store(
                        old(self)@.store,
                        start_change(old(self)@, input, id@, now),
                        now,
                        r is Ok,
                        old(self).log(),
                        final(self).log(),
                    ),
                None => exists|millis: u128, now: nat| #[trigger]
                    answers_start(
                        numbered(old(self)@),
                        final(self)@,
                        input,
                        generated_id(millis as nat, old(self)@.next_id),
                        now,
                        r,
                    ) && clock::wall_shows(millis) && manager::asks_store(
                        old(self)@.store,
                        start_change(
                            old(self)@,
                            input,
                            generated_id(millis as nat, old(self)@.next_id),
                            now,
                        ),
                        now,
                        r is Ok,
                        old(self).log(),
                        final(self).log(),
                    ),
            },
    {
        match &input.task_id {
            Some(id) => {
                let id = id.clone();
                self.start_named(input, id)
            },
            None => {
                let millis: u128 = clock::unix_millis();
                let id = generated_task_id(millis, self.next_id);
                self.next_id = self.next_id.wrapping_add(1);
                let ghost counted = self@;
                assert(counted == numbered(old(self)@));
                let ghost asked = input;
                let ghost name = id@;
                let r = self.start_named(input, id);
                proof {
                    let now = choose|now: nat| #[trigger]
                        answers_start(counted, self@, asked, name, now, r)
                            && manager::asks_store(
                            counted.store,
                            start_change(counted, asked, name, now),
                            now,
                            r is Ok,
                            old(self).log(),
                            self.log(),
                        );
                    assert(answers_start(
                        numbered(old(self)@),
                        self@,
                        asked,
                        generated_id(millis as nat, old(self)@.next_id),
                        now,
                        r,
                    ));
                }
                r
            },
        }
    }
}

// ---------------------------------------------------------------------------
// Ticking

pub open spec fn no_active_task() -> Seq<char> {
    "task_id required: no active task"@
}

/// How a tick is answered at `now`, and what it leaves.
pub open spec fn answers_tick(
    before: Desk,
    after: Desk,
    input: TickInput,
    now: nat,
    r: Result<TickOutput, String>,
) -> bool {
    let action = names::text_of(input.current_action);
    let estimate = input.current_action_estimated_seconds;
    let fault = advice::proposal_fault(action, estimate);
    match resolved(before, input.task_id) {
        Some(id) if fault is None => match r {
            Ok(out) => {
                let tasks = rules::ticked(before.tasks, id, now);
                let view = rules::report(tasks, id, now);
                let t = before.tasks[id];
                &&& rules::tick_refusal(before.tasks, id) is None
                &&& after == (Desk { tasks, ..before })
                &&& before.clock.shows(now)
                &&& out@ == advice::advice(
                    view,
                    task::timing(t.runtime(now), t.budget),
                    advice::question(
                        view,
                        input.progress_percent,
                        input.estimated_remaining_work_seconds,
                    ).decision(),
                    rules::counted(t.ticks),
                    action,
                    estimate,
                    input.verbose || before.settings.default_verbose,
                )
            },
            Err(answer) => {
                &&& after == before
                &&& rules::tick_refusal(before.tasks, id) matches Some(e) && answer@ == e.line()
            },
        },
        _ => {
            &&& after == before
            &&& r is Err
            &&& r->Err_0@ == if fault is Some {
                fault->Some_0
            } else {
                no_active_task()
            }
        },
    }
}

/// The string slice that an option of a string holds.
fn as_slice(s: &Option<String>) -> (r: Option<&str>)
    ensures
        advice::slice_text(r) == names::text_of(*s),
{
    match s {
        Some(s) => Some(s.as_str()),
        None => None,
    }
}

impl Session {
    /// Ticks a task, and advises what to do next. A faulty proposal fails before
    /// anything changes. The store is handed nothing.
    pub fn tick(&mut self, input: TickInput) -> (r: Result<TickOutput, String>)
        requires
            old(self).wf(),
        ensures
            final(self).wf(),
            final(self).log() == old(self).log(),
            exists|now: nat| #[trigger] answers_tick(old(self)@, final(self)@, input, now, r),
    {
        let action = as_slice(&input.current_action);
        let estimate = input.current_action_estimated_seconds;
        if let Err(answer) = advice::validate_action_proposal(action, estimate) {
            assert(answers_tick(old(self)@, self@, input, 0, Err(answer)));
            return Err(answer);
        }
        let task_id = match self.resolve_task_id(&input.task_id) {
            Ok(id) => id,
            Err(answer) => {
                assert(answers_tick(old(self)@, self@, input, 0, Err(answer)));
                return Err(answer);
            },
        };
        let verbose: bool = input.verbose || self.settings.default_verbose;
        let ticked = self.manager.tick_with_timing(TickRequest { task_id });
        let ghost now = choose|now: nat| #[trigger]
            manager::answers_tick(
                old(self)@.tasks,
                self@.tasks,
                task_id@,
                now,
                ticked,
            ) && old(self)@.clock.shows(now);
        match ticked {
            Ok((outcome, timing)) => {
                let decision = advice::policy(
                    &outcome.task,
                    input.progress_percent,
                    input.estimated_remaining_work_seconds,
                );
                let out = advice::tick_output(
                    &outcome.task,
                    &timing,
                    decision,
                    outcome.tick,
                    action,
                    estimate,
                    verbose,
                );
                assert(answers_tick(old(self)@, self@, input, now, Ok(out)));
                Ok(out)
            },
            Err(e) => {
                let answer = e.message();
                assert(answers_tick(old(self)@, self@, input, now, Err(answer)));
                Err(answer)
            },
        }
    }
}

// ---------------------------------------------------------------------------
// Checkpoints

/// The note of a checkpoint: the plan, or else the note given, or else what was
/// completed.
pub open spec fn checkpoint_note(input: CheckpointInput) -> Option<Seq<char>> {
    let steps = plan::steps_of(input.plan_steps@);
    if steps.len() > 0 {
        Some(plan::plan_text(steps, steps.len() as int))
    } else if input.note is Some {
        Some(input.note->Some_0@)
    } else if input.completed@.len() > 0 {
        Some(plan::completed_text(names::texts(input.completed@)))
    } else {
        None
    }
}

/// The estimate of a checkpoint: the plan's, or else the one given.
pub open spec fn checkpoint_eta(input: CheckpointInput) -> Option<Amount> {
    let steps = plan::steps_of(input.plan_steps@);
    if steps.len() > 0 {
        Some(plan::total(steps, steps.len() as int).spec_amount())
    } else {
        input.estimated_remaining_work_seconds
    }
}

/// What the manager is asked to record.
pub open spec fn checkpoint_request(input: CheckpointInput, id: Seq<char>) -> Checkpoint {
    Checkpoint {
        id,
        note: checkpoint_note(input),
        progress: match input.progress_percent {
            Some(percent) => Some(percent.fraction_of_one()),
            None => None,
        },
        eta: checkpoint_eta(input),
        plan_complete: input.plan_complete,
        replan: input.replan,
    }
}

/// What is told of a checkpoint.
pub open spec fn tells_checkpoint(
    view: Report,
    decision: Decision,
    steps: nat,
    out: CheckpointOutput,
) -> bool {
    &&& out.task_id@ == view.id
    &&& out.checkpoint_count == view.checkpoints
    &&& out.remaining_seconds.count == decimal::thousandths(decision.remaining)
    &&& out.mode@ == decision.mode.name()
    &&& out.schedule@ == decision.schedule.name()
    &&& out.next_check_seconds.count == decimal::thousandths(decision.next_check)
    &&& out.must_converge == decision.must_converge
    &&& out.plan_step_count == steps
}

/// How a checkpoint is answered at `now`, and what it leaves.
pub open spec fn answers_checkpoint(
    before: Desk,
    after: Desk,
    input: CheckpointInput,
    now: nat,
    r: Result<CheckpointOutput, String>,
) -> bool {
    let fault = plan::plan_fault(plan::steps_of(input.plan_steps@), input.plan_complete);
    match resolved(before, input.task_id) {
        Some(id) if fault is None => {
            let request = checkpoint_request(input, id);
            let refusal = rules::checkpoint_refusal(before.tasks, request);
            match r {
                Ok(out) => {
                    let tasks = rules::checkpointed(before.tasks, request, now);
                    let view = rules::report(tasks, id, now);
                    &&& refusal is None
                    &&& after == (Desk { tasks, ..before })
                    &&& before.clock.shows(now)
                    &&& manager::answers_save(before.store, tasks, now, Ok(()))
                    &&& tells_checkpoint(
                        view,
                        advice::question(
                            view,
                            input.progress_percent,
                            checkpoint_eta(input),
                        ).decision(),
                        input.plan_steps@.len(),
                        out,
                    )
                },
                Err(answer) => after == before && before.clock.shows(now) && tells_refusal(
                    refusal,
                    before.store,
                    rules::checkpointed(before.tasks, request, now),
                    now,
                    answer@,
                ),
            }
        },
        _ => {
            &&& after == before
            &&& r is Err
            &&& r->Err_0@ == if resolved(before, input.task_id) is None {
                no_active_task()
            } else {
                fault->Some_0
            }
        },
    }
}

/// The tasks as a checkpoint at `now` changes them, unless it is refused.
pub open spec fn checkpoint_change(desk: Desk, input: CheckpointInput, now: nat) -> Option<
    Tasks,
> {
    let fault = plan::plan_fault(plan::steps_of(input.plan_steps@), input.plan_complete);
    match resolved(desk, input.task_id) {
        Some(id) if fault is None => {
            let request = checkpoint_request(input, id);
            manager::unless(
                rules::checkpoint_refusal(desk.tasks, request),
                rules::checkpointed(desk.tasks, request, now),
            )
        },
        _ => None,
    }
}

impl Session {
    /// Records a plan, or progress and estimates. The store is handed the change, unless
    /// the request is refused.
    #[verifier::rlimit(40)]
    pub fn checkpoint(&mut self, input: CheckpointInput) -> (r: Result<CheckpointOutput, String>)
        requires
            old(self).wf(),
        ensures
            final(self).wf(),
            exists|now: nat| #[trigger]
                answers_checkpoint(old(self)@, final(self)@, input, now, r)
                    && manager::asks_store(
                    old(self)@.store,
                    checkpoint_change(old(self)@, input, now),
                    now,
                    r is Ok,
                    old(self).log(),
                    final(self).log(),
                ),
    {
        let ghost asked = input;
        let task_id = match self.resolve_task_id(&input.task_id) {
            Ok(id) => id,
            Err(answer) => {
                assert(answers_checkpoint(old(self)@, self@, asked, 0, Err(answer)));
                return Err(answer);
            },
        };
        let ghost id = task_id@;
        let planned = match plan::structured_plan(&input.plan_steps, input.plan_complete) {
            Ok(planned) => planned,
            Err(answer) => {
                assert(answers_checkpoint(old(self)@, self@, asked, 0, Err(answer)));
                return Err(answer);
            },
        };
        let plan_step_count: usize = input.plan_steps.len();
        let completed = plan::completed_note(&input.completed);
        let (note, eta): (Option<String>, Option<Amount>) = match planned {
            Some(plan) => (Some(plan.note), Some(plan.estimated_seconds.amount())),
            None => (
                match input.note {
                    Some(note) => Some(note),
                    None => completed,
                },
                input.estimated_remaining_work_seconds,
            ),
        };
        let request = CheckpointRequest {
            task_id: task_id.clone(),
            note,
            progress: match &input.progress_percent {
                Some(percent) => Some(percent.to_fraction()),
                None => None,
            },
            estimated_remaining_work_secs: eta,
            plan_complete: input.plan_complete,
            replan: input.replan,
        };
        let ghost named = request@;
        assert(named == checkpoint_request(asked, id));
        let recorded = self.manager.checkpoint(request);
        let ghost now = choose|now: nat| #[trigger]
            manager::answers_checkpoint(
                old(self)@.tasks,
                self@.tasks,
                named,
                now,
                old(self)@.store,
                recorded,
            ) && old(self)@.clock.shows(now) && manager::asks_store(
                old(self)@.store,
                checkpoint_change(old(self)@, asked, now),
                now,
                recorded is Ok,
                old(self).log(),
                self.log(),
            );
        match recorded {
            Ok(outcome) => {
                let decision = advice::policy(&outcome.task, input.progress_percent, eta);
                let out = CheckpointOutput {
                    task_id,
                    checkpoint_count: outcome.task.checkpoints,
                    remaining_seconds: decimal::round3(decision.remaining_secs.nanos),
                    mode: decision.mode.as_str(),
                    schedule: decision.schedule.as_str(),
                    next_check_seconds: decimal::round3(decision.next_check_secs.nanos),
                    must_converge: decision.must_converge,
                    plan_step_count,
                };
                assert(answers_checkpoint(old(self)@, self@, asked, now, Ok(out)));
                Ok(out)
            },
            Err(e) => {
                let answer = e.message();
                proof {
                    assert(answers_checkpoint(old(self)@, self@, asked, now, Err(answer)));
                }
                Err(answer)
            },
        }
    }
}

// ---------------------------------------------------------------------------
// Adjusting

/// An amount within the largest ones.
pub open spec fn within_largest(value: int) -> Amount {
    Amount::Billionths(
        if value > LARGEST {
            LARGEST as i128
        } else if value < -(LARGEST as int) {
            (-(LARGEST as int)) as i128
        } else {
            value as i128
        },
    )
}

/// `budget` nanoseconds and `change` seconds, as an amount of seconds.
pub open spec fn increased(budget: nat, change: Amount) -> Amount {
    match change {
        Amount::Billionths(value) => within_largest(
            duration::min_nat(budget, LARGEST as nat) + value,
        ),
        _ => change,
    }
}

/// `budget` nanoseconds without `change` seconds, as an amount of seconds.
pub open spec fn decreased(budget: nat, change: Amount) -> Amount {
    match change {
        Amount::Billionths(value) => within_largest(
            duration::min_nat(budget, LARGEST as nat) - value,
        ),
        Amount::Infinity => Amount::NegativeInfinity,
        Amount::NegativeInfinity => Amount::Infinity,
        Amount::NotANumber => Amount::NotANumber,
    }
}

/// The total that an adjustment asks for.
pub open spec fn new_total(input: AdjustInput, budget: nat) -> Amount {
    match input.set_total_seconds {
        Some(total) => total,
        None => match input.add_seconds {
            Some(add) => increased(budget, add),
            None => match input.remove_seconds {
                Some(remove) => decreased(budget, remove),
                None => increased(budget, Amount::Billionths(0)),
            },
        },
    }
}

/// Whether an adjustment asks for exactly one thing.
pub open spec fn single(input: AdjustInput) -> bool {
    let add: int = if input.add_seconds is Some {
        1
    } else {
        0
    };
    let remove: int = if input.remove_seconds is Some {
        1
    } else {
        0
    };
    let set: int = if input.set_total_seconds is Some {
        1
    } else {
        0
    };
    add + remove + set == 1
}

/// Whether a total is more than a budget.
pub open spec fn raises(total: Amount, budget: nat) -> bool {
    match total {
        Amount::Billionths(value) => value > duration::min_nat(budget, LARGEST as nat),
        Amount::Infinity => true,
        _ => false,
    }
}

/// What the manager is asked to adjust.
pub open spec fn adjust_request(input: AdjustInput, id: Seq<char>, budget: nat) -> Adjustment {
    Adjustment { id, budget: Some(new_total(input, budget)), mode: None, schedule: None }
}

/// What is told of an adjustment.
pub open spec fn tells_adjusted(view: Report, clamped: bool, out: AdjustOutput) -> bool {
    let decision = advice::question(view, None, None).decision();
    &&& out.task_id@ == view.id
    &&& out.total_budget_seconds.count == decimal::thousandths(view.budget)
    &&& out.remaining_seconds.count == decimal::thousandths(decision.remaining)
    &&& out.mode@ == decision.mode.name()
    &&& out.clamped == clamped
}

/// Why an adjustment does not reach the manager.
pub open spec fn adjust_fault(desk: Desk, input: AdjustInput) -> Option<Seq<char>> {
    match resolved(desk, input.task_id) {
        None => Some(no_active_task()),
        Some(id) => if !single(input) {
            Some("provide exactly one of add_seconds, remove_seconds, set_total_seconds"@)
        } else if !desk.tasks.contains_key(id) {
            Some(Refusal::NotFound(id).line())
        } else if raises(new_total(input, desk.tasks[id].budget), desk.tasks[id].budget)
            && !desk.settings.allow_budget_increase {
            Some("budget increase is disabled; only the host may grant more time"@)
        } else {
            None
        },
    }
}

/// How an adjustment is answered at `now`, and what it leaves.
pub open spec fn answers_adjustment(
    before: Desk,
    after: Desk,
    input: AdjustInput,
    now: nat,
    r: Result<AdjustOutput, String>,
) -> bool {
    match adjust_fault(before, input) {
        Some(fault) => r is Err && r->Err_0@ == fault && after == before,
        None => {
            let id = resolved(before, input.task_id)->Some_0;
            let request = adjust_request(input, id, before.tasks[id].budget);
            let deadline = lifecycle::deadline_of(before.settings.host_deadline);
            let refusal = rules::adjust_refusal(before.tasks, request, now, deadline);
            match r {
                Ok(out) => {
                    let tasks = rules::adjusted(before.tasks, request, now, deadline);
                    let budget = rules::adjusted_budget(before.tasks, request, now, deadline);
                    &&& refusal is None
                    &&& after == (Desk { tasks, ..before })
                    &&& before.clock.shows(now)
                    &&& manager::answers_save(before.store, tasks, now, Ok(()))
                    &&& tells_adjusted(
                        rules::report(tasks, id, now),
                        rules::falls_short(budget, request.budget->Some_0),
                        out,
                    )
                },
                Err(answer) => after == before && before.clock.shows(now) && tells_refusal(
                    refusal,
                    before.store,
                    rules::adjusted(before.tasks, request, now, deadline),
                    now,
                    answer@,
                ),
            }
        },
    }
}

/// The tasks as an adjustment at `now` changes them, unless it is refused.
pub open spec fn adjust_change(desk: Desk, input: AdjustInput, now: nat) -> Option<Tasks> {
    let id = resolved(desk, input.task_id)->Some_0;
    let request = adjust_request(input, id, desk.tasks[id].budget);
    let deadline = lifecycle::deadline_of(desk.settings.host_deadline);
    if adjust_fault(desk, input) is Some {
        None
    } else {
        manager::unless(
            rules::adjust_refusal(desk.tasks, request, now, deadline),
            rules::adjusted(desk.tasks, request, now, deadline),
        )
    }
}

fn shifted_total(budget: Duration, change: &Amount, up: bool) -> (r: Amount)
    ensures
        r == if up {
            increased(budget@, *change)
        } else {
            decreased(budget@, *change)
        },
{
    let value: i128 = match change {
        Amount::NotANumber => {
            return Amount::NotANumber;
        },
        Amount::Infinity => {
            return if up {
                Amount::Infinity
            } else {
                Amount::NegativeInfinity
            };
        },
        Amount::NegativeInfinity => {
            return if up {
                Amount::NegativeInfinity
            } else {
                Amount::Infinity
            };
        },
        Amount::Billionths(value) => *value,
    };
    let base: i128 = if budget.nanos > LARGEST {
        170_141_183_460_469_231_731_687_303_715_884_105_727
    } else {
        budget.nanos as i128
    };
    let sum: Option<i128> = if up {
        base.checked_add(value)
    } else {
        base.checked_sub(value)
    };
    match sum {
        Some(sum) => if sum < -170_141_183_460_469_231_731_687_303_715_884_105_727 {
            Amount::Billionths(-170_141_183_460_469_231_731_687_303_715_884_105_727)
        } else {
            Amount::Billionths(sum)
        },
        None => if (value > 0) == up {
            Amount::Billionths(170_141_183_460_469_231_731_687_303_715_884_105_727)
        } else {
            Amount::Billionths(-170_141_183_460_469_231_731_687_303_715_884_105_727)
        },
    }
}

fn total_for(input: &AdjustInput, budget: Duration) -> (r: Amount)
    ensures
        r == new_total(*input, budget@),
{
    if let Some(total) = &input.set_total_seconds {
        *total
    } else if let Some(add) = &input.add_seconds {
        shifted_total(budget, add, true)
    } else if let Some(remove) = &input.remove_seconds {
        shifted_total(budget, remove, false)
    } else {
        shifted_total(budget, &Amount::Billionths(0), true)
    }
}

fn is_raise(total: &Amount, budget: Duration) -> (r: bool)
    ensures
        r == raises(*total, budget@),
{
    match total {
        Amount::Infinity => true,
        Amount::NotANumber | Amount::NegativeInfinity => false,
        Amount::Billionths(value) => *value > 0 && *value as u128 > budget.shorter(
            Duration { nanos: LARGEST },
        ).nanos,
    }
}

impl Session {
    /// Adds to a task's total budget, removes from it, or sets it. The store is handed the
    /// change, unless the request is refused.
    #[verifier::rlimit(60)]
    pub fn adjust_task(&mut self, input: AdjustInput) -> (r: Result<AdjustOutput, String>)
        requires
            old(self).wf(),
        ensures
            final(self).wf(),
            exists|now: nat| #[trigger]
                answers_adjustment(old(self)@, final(self)@, input, now, r)
                    && manager::asks_store(
                    old(self)@.store,
                    adjust_change(old(self)@, input, now),
                    now,
                    r is Ok,
                    old(self).log(),
                    final(self).log(),
                ),
    {
        let task_id = match self.resolve_task_id(&input.task_id) {
            Ok(id) => id,
            Err(answer) => {
                assert(answers_adjustment(old(self)@, self@, input, 0, Err(answer)));
                return Err(answer);
            },
        };
        let ghost id = task_id@;
        let (add, remove, set): (bool, bool, bool) = (
            input.add_seconds.is_some(),
            input.remove_seconds.is_some(),
            input.set_total_seconds.is_some(),
        );
        if !((add && !remove && !set) || (!add && remove && !set) || (!add && !remove && set)) {
            let answer =
                "provide exactly one of add_seconds, remove_seconds, set_total_seconds".to_owned();
            assert(answers_adjustment(old(self)@, self@, input, 0, Err(answer)));
            return Err(answer);
        }
        let current = match self.manager.get_task(task_id.as_str()) {
            Ok(view) => view,
            Err(e) => {
                let answer = e.message();
                assert(answers_adjustment(old(self)@, self@, input, 0, Err(answer)));
                return Err(answer);
            },
        };
        let total = total_for(&input, current.budget_secs);
        if is_raise(&total, current.budget_secs) && !self.settings.allow_budget_increase {
            let answer =
                "budget increase is disabled; only the host may grant more time".to_owned();
            assert(answers_adjustment(old(self)@, self@, input, 0, Err(answer)));
            return Err(answer);
        }
        let request = AdjustTaskRequest {
            task_id: task_id.clone(),
            budget_secs: Some(total),
            mode: None,
            schedule: None,
        };
        let ghost named = request@;
        let ghost deadline = lifecycle::deadline_of(self.settings.host_deadline);
        assert(named == adjust_request(input, id, old(self)@.tasks[id].budget));
        let host_deadline = self.settings.host_deadline;
        let adjusted = self.manager.adjust_task_with_deadline(request, host_deadline);
        let ghost now = choose|now: nat| #[trigger]
            manager::answers_adjustment(
                old(self)@.tasks,
                self@.tasks,
                named,
                now,
                deadline,
                old(self)@.store,
                adjusted,
            ) && old(self)@.clock.shows(now) && manager::asks_store(
                old(self)@.store,
                adjust_change(old(self)@, input, now),
                now,
                adjusted is Ok,
                old(self).log(),
                self.log(),
            );
        match adjusted {
            Ok(outcome) => {
                let decision = advice::policy(&outcome.task, None, None);
                let out = AdjustOutput {
                    task_id,
                    total_budget_seconds: decimal::round3(outcome.task.budget_secs.nanos),
                    remaining_seconds: decimal::round3(decision.remaining_secs.nanos),
                    mode: decision.mode.as_str(),
                    clamped: outcome.clamped,
                };
                assert(answers_adjustment(old(self)@, self@, input, now, Ok(out)));
                Ok(out)
            },
            Err(e) => {
                let answer = e.message();
                proof {
                    assert(answers_adjustment(old(self)@, self@, input, now, Err(answer)));
                }
                Err(answer)
            },
        }
    }
}

// ---------------------------------------------------------------------------
// Finishing

/// The share of a budget that was used, in thousandths of a percent to the nearest one,
/// with half of one rounded up.
pub open spec fn used_percent(actual: nat, budget: nat) -> Option<nat> {
    if budget == 0 {
        None
    } else {
        Some((actual * 100_000 + budget / 2) / budget)
    }
}

proof fn lemma_half_up(n: nat, d: nat)
    requires
        d > 0,
    ensures
        (n + d / 2) / d == n / d + if 2 * (n % d) >= d {
            1int
        } else {
            0int
        },
{
    let q = n as int / d as int;
    let r = n as int % d as int;
    div_mod::lemma_fundamental_div_mod(n as int, d as int);
    assert(d * q == q * d) by (nonlinear_arith);
    if 2 * r >= d {
        assert((q + 1) * d == q * d + d) by (nonlinear_arith);
        div_mod::lemma_fundamental_div_mod_converse(
            (n + d / 2) as int,
            d as int,
            q + 1,
            r + d / 2 - d,
        );
    } else {
        div_mod::lemma_fundamental_div_mod_converse(
            (n + d / 2) as int,
            d as int,
            q,
            r + d / 2,
        );
    }
}

/// The share of a budget that was used, or the largest number that fits.
pub fn budget_used_percent(actual: Duration, budget: Duration) -> (r: Option<Thousandths>)
    ensures
        match r {
            Some(percent) => used_percent(actual@, budget@) matches Some(used) && percent.count
                == duration::capped(used as int),
            None => used_percent(actual@, budget@) is None,
        },
{
    if budget.nanos == 0 {
        return None;
    }
    let (whole, half): (u128, bool) = duration::ratio(actual, budget, 5);
    proof {
        reveal_with_fuel(power::pow, 6);
        assert(power::pow(10, 5) == 100_000);
        lemma_half_up(actual@ * 100_000, budget@);
    }
    Some(
        Thousandths {
            count: if half {
                whole.saturating_add(1)
            } else {
                whole
            },
        },
    )
}

/// What is told of a task that has run for `runtime` when it finished.
pub open spec fn tells_finished(t: task::State, runtime: nat, out: FinishOutput) -> bool {
    &&& out.elapsed_seconds.count == decimal::thousandths(runtime)
    &&& out.budget_seconds.count == decimal::thousandths(t.budget)
    &&& out.unused_seconds.count == decimal::thousandths(duration::less(t.budget, runtime))
    &&& out.overrun_seconds.count == decimal::thousandths(duration::less(runtime, t.budget))
    &&& match out.budget_used_percent {
        Some(percent) => used_percent(runtime, t.budget) matches Some(used) && percent.count
            == duration::capped(used as int),
        None => used_percent(runtime, t.budget) is None,
    }
    &&& out.checkpoints == t.checkpoints
    &&& out.deadline_met == task::keeps_to(runtime, t.budget)
}

/// Why a request to finish does not reach the manager.
pub open spec fn finish_fault(desk: Desk, input: FinishInput) -> Option<Seq<char>> {
    if input.force {
        Some("force is a host-only core privilege and cannot be requested over MCP"@)
    } else if resolved(desk, input.task_id) is None {
        Some(no_active_task())
    } else {
        None
    }
}

/// How a request to finish a task is answered at `now`, and what it leaves.
pub open spec fn answers_finish(
    before: Desk,
    after: Desk,
    input: FinishInput,
    now: nat,
    r: Result<FinishOutput, String>,
) -> bool {
    match finish_fault(before, input) {
        Some(fault) => r is Err && r->Err_0@ == fault && after == before,
        None => {
            let id = resolved(before, input.task_id)->Some_0;
            let reason = names::text_of(input.reason);
            let refusal = rules::finish_refusal(before.tasks, id, reason, false);
            match r {
                Ok(out) => {
                    let tasks = rules::finished(before.tasks, id, false, now);
                    &&& refusal is None
                    &&& before.clock.shows(now)
                    &&& manager::answers_save(before.store, tasks, now, Ok(()))
                    &&& after == (Desk {
                        tasks,
                        active: if before.active == Some(id) {
                            None
                        } else {
                            before.active
                        },
                        ..before
                    })
                    &&& tells_finished(before.tasks[id], before.tasks[id].runtime(now), out)
                },
                Err(answer) => after == before && before.clock.shows(now) && tells_refusal(
                    refusal,
                    before.store,
                    rules::finished(before.tasks, id, false, now),
                    now,
                    answer@,
                ),
            }
        },
    }
}

/// The tasks as a request to finish one at `now` changes them, unless it is refused.
pub open spec fn finish_change(desk: Desk, input: FinishInput, now: nat) -> Option<Tasks> {
    let id = resolved(desk, input.task_id)->Some_0;
    if finish_fault(desk, input) is Some {
        None
    } else {
        manager::unless(
            rules::finish_refusal(desk.tasks, id, names::text_of(input.reason), false),
            rules::finished(desk.tasks, id, false, now),
        )
    }
}

fn finish_output(outcome: &FinishTaskOutcome) -> (r: FinishOutput)
    ensures
        forall|t: task::State|
            t.budget == outcome.task.budget_secs@ && t.checkpoints == outcome.task.checkpoints
                && outcome.overrun_secs@ == duration::less(
                outcome.actual_elapsed_secs@,
                t.budget,
            ) ==> #[trigger] tells_finished(t, outcome.actual_elapsed_secs@, r),
{
    let actual = outcome.actual_elapsed_secs;
    let budget = outcome.task.budget_secs;
    FinishOutput {
        elapsed_seconds: decimal::round3(actual.nanos),
        budget_seconds: decimal::round3(budget.nanos),
        unused_seconds: decimal::round3(budget.saturating_sub(actual).nanos),
        overrun_seconds: decimal::round3(outcome.overrun_secs.nanos),
        budget_used_percent: budget_used_percent(actual, budget),
        checkpoints: outcome.task.checkpoints,
        deadline_met: outcome.deadline_met(),
    }
}

impl Session {
    /// Finishes a task. Agents cannot force it. The store is handed the change, unless the
    /// request is refused.
    pub fn finish_task(&mut self, input: FinishInput) -> (r: Result<FinishOutput, String>)
        requires
            old(self).wf(),
        ensures
            final(self).wf(),
            exists|now: nat| #[trigger]
                answers_finish(old(self)@, final(self)@, input, now, r) && manager::asks_store(
                    old(self)@.store,
                    finish_change(old(self)@, input, now),
                    now,
                    r is Ok,
                    old(self).log(),
                    final(self).log(),
                ),
    {
        let ghost asked = input;
        if input.force {
            let answer =
                "force is a host-only core privilege and cannot be requested over MCP".to_owned();
            assert(answers_finish(old(self)@, self@, asked, 0, Err(answer)));
            return Err(answer);
        }
        let task_id = match self.resolve_task_id(&input.task_id) {
            Ok(id) => id,
            Err(answer) => {
                assert(answers_finish(old(self)@, self@, asked, 0, Err(answer)));
                return Err(answer);
            },
        };
        let ghost id = task_id@;
        let request = FinishTaskRequest {
            task_id: task_id.clone(),
            reason: input.reason,
            force: false,
        };
        let ghost reason = names::text_of(input.reason);
        let finished = self.manager.finish_task(request);
        let ghost now = choose|now: nat| #[trigger]
            manager::answers_finish(
                old(self)@.tasks,
                self@.tasks,
                id,
                reason,
                false,
                now,
                old(self)@.store,
                finished,
            ) && old(self)@.clock.shows(now) && manager::asks_store(
                old(self)@.store,
                finish_change(old(self)@, asked, now),
                now,
                finished is Ok,
                old(self).log(),
                self.log(),
            );
        match finished {
            Ok(outcome) => {
                let out = finish_output(&outcome);
                let is_active: bool = match &self.active_task {
                    Some(active) => text::same_text(active.as_str(), task_id.as_str()),
                    None => false,
                };
                if is_active {
                    self.active_task = None;
                }
                proof {
                    assert(tells_finished(
                        old(self)@.tasks[id],
                        outcome.actual_elapsed_secs@,
                        out,
                    ));
                    assert(answers_finish(old(self)@, self@, asked, now, Ok(out)));
                }
                Ok(out)
            },
            Err(e) => {
                let answer = e.message();
                proof {
                    assert(answers_finish(old(self)@, self@, asked, now, Err(answer)));
                }
                Err(answer)
            },
        }
    }
}

// ---------------------------------------------------------------------------
// Laws

/// The reserves that are asked for at the start are those that the policy is asked
/// about, and the host's where none are.
pub proof fn law_reserves_are_honoured(settings: Settings, input: StartInput)
    requires
        input.validation_reserve_percent != Some(Amount::Billionths(i128::MIN)),
        input.finalization_reserve_percent != Some(Amount::Billionths(i128::MIN)),
        settings.default_validation_percent != Some(Amount::Billionths(i128::MIN)),
        settings.default_finalization_percent != Some(Amount::Billionths(i128::MIN)),
    ensures
        advice::held_percent(start_metadata(settings, input), advice::validation_key())
            == if input.validation_reserve_percent is Some {
            input.validation_reserve_percent
        } else {
            settings.default_validation_percent
        },
        advice::held_percent(start_metadata(settings, input), advice::finalization_key())
            == if input.finalization_reserve_percent is Some {
            input.finalization_reserve_percent
        } else {
            settings.default_finalization_percent
        },
{
    reveal_strlit("objective");
    reveal_strlit("validation_reserve_percent");
    reveal_strlit("finalization_reserve_percent");
    assert("objective"@[0] != advice::validation_key()[0]);
    assert("objective"@[0] != advice::finalization_key()[0]);
    assert(advice::validation_key()[0] != advice::finalization_key()[0]);
    if input.validation_reserve_percent is Some {
        decimal::law_amounts_read_back(input.validation_reserve_percent->Some_0);
    } else if settings.default_validation_percent is Some {
        decimal::law_amounts_read_back(settings.default_validation_percent->Some_0);
    }
    if input.finalization_reserve_percent is Some {
        decimal::law_amounts_read_back(input.finalization_reserve_percent->Some_0);
    } else if settings.default_finalization_percent is Some {
        decimal::law_amounts_read_back(settings.default_finalization_percent->Some_0);
    }
}

/// Unless the host allows it, no adjustment by an agent leaves a task with more than it
/// had.
pub proof fn law_agents_cannot_raise_budgets(
    before: Desk,
    after: Desk,
    input: AdjustInput,
    now: nat,
    r: Result<AdjustOutput, String>,
    id: Seq<char>,
)
    requires
        answers_adjustment(before, after, input, now, r),
        !before.settings.allow_budget_increase,
        before.tasks.contains_key(id),
        before.tasks[id].budget <= MAX_NANOS,
    ensures
        after.tasks.contains_key(id),
        after.tasks[id].budget <= before.tasks[id].budget,
{
}

/// Under a host's deadline, no task that an agent starts or adjusts ends after it, if it
/// began before.
pub proof fn law_agents_keep_to_the_hosts_deadline(
    before: Desk,
    after: Desk,
    start: StartInput,
    id: Seq<char>,
    started: StartOutput,
    adjust: AdjustInput,
    adjusted: AdjustOutput,
    now: nat,
)
    requires
        before.settings.host_deadline is Some,
    ensures
        answers_start(before, after, start, id, now, Ok(started)) ==> laws::end(after.tasks[id])
            <= before.settings.host_deadline->Some_0@,
        answers_adjustment(before, after, adjust, now, Ok(adjusted)) && resolved(
            before,
            adjust.task_id,
        ) == Some(id) && before.tasks[id].started_at <= before.settings.host_deadline->Some_0@
            ==> laws::end(after.tasks[id]) <= before.settings.host_deadline->Some_0@,
{
    let deadline = before.settings.host_deadline->Some_0@;
    laws::law_no_start_outlasts_the_deadline(
        before.tasks,
        start_request(before.settings, start, id),
        now,
        deadline,
    );
    if answers_adjustment(before, after, adjust, now, Ok(adjusted)) && resolved(
        before,
        adjust.task_id,
    ) == Some(id) && before.tasks[id].started_at <= deadline {
        laws::law_no_adjustment_outlasts_the_deadline(
            before.tasks,
            adjust_request(adjust, id, before.tasks[id].budget),
            now,
            deadline,
        );
    }
}

/// No agent finishes a task by force.
pub proof fn law_agents_cannot_force(
    before: Desk,
    after: Desk,
    input: FinishInput,
    now: nat,
    r: Result<FinishOutput, String>,
)
    requires
        answers_finish(before, after, input, now, r),
        input.force,
    ensures
        r is Err,
        after == before,
{
}

/// A request that is refused changes nothing, but for the number of a generated name.
pub proof fn law_refused_requests_change_nothing(
    before: Desk,
    after: Desk,
    start: StartInput,
    id: Seq<char>,
    tick: TickInput,
    checkpoint: CheckpointInput,
    adjust: AdjustInput,
    finish: FinishInput,
    now: nat,
    answer: String,
)
    ensures
        answers_start(before, after, start, id, now, Err(answer)) ==> after == before,
        answers_tick(before, after, tick, now, Err(answer)) ==> after == before,
        answers_checkpoint(before, after, checkpoint, now, Err(answer)) ==> after == before,
        answers_adjustment(before, after, adjust, now, Err(answer)) ==> after == before,
        answers_finish(before, after, finish, now, Err(answer)) ==> after == before,
{
}

/// However an agent's requests are answered, all tasks stay sound, and every reservation
/// accounted for.
pub proof fn law_agents_keep_sound(
    before: Desk,
    after: Desk,
    start: StartInput,
    id: Seq<char>,
    started: Result<StartOutput, String>,
    tick: TickInput,
    ticked: Result<TickOutput, String>,
    checkpoint: CheckpointInput,
    recorded: Result<CheckpointOutput, String>,
    adjust: AdjustInput,
    adjusted: Result<AdjustOutput, String>,
    finish: FinishInput,
    finished: Result<FinishOutput, String>,
    now: nat,
)
    requires
        laws::sound(before.tasks),
        reservations::accounted(before.tasks),
        ({
            ||| answers_start(before, after, start, id, now, started)
            ||| answers_tick(before, after, tick, now, ticked)
            ||| answers_checkpoint(before, after, checkpoint, now, recorded)
            ||| answers_adjustment(before, after, adjust, now, adjusted)
            ||| answers_finish(before, after, finish, now, finished)
        }),
    ensures
        laws::sound(after.tasks),
        reservations::accounted(after.tasks),
{
    if after.tasks != before.tasks {
        let tasks = before.tasks;
        let deadline = lifecycle::deadline_of(before.settings.host_deadline);
        if answers_start(before, after, start, id, now, started) {
            let request = start_request(before.settings, start, id);
            laws::law_start_keeps_sound(tasks, request, now, deadline);
            reservations::law_start_keeps_accounted(tasks, request, now, deadline);
        } else if answers_tick(before, after, tick, now, ticked) {
            let id = resolved(before, tick.task_id)->Some_0;
            laws::law_tick_keeps_sound(tasks, id, now);
            reservations::law_tick_keeps_accounted(tasks, id, now);
        } else if answers_checkpoint(before, after, checkpoint, now, recorded) {
            let id = resolved(before, checkpoint.task_id)->Some_0;
            let request = checkpoint_request(checkpoint, id);
            laws::law_checkpoint_keeps_sound(tasks, request, now);
            reservations::law_checkpoint_keeps_accounted(tasks, request, now);
        } else if answers_adjustment(before, after, adjust, now, adjusted) {
            let id = resolved(before, adjust.task_id)->Some_0;
            let request = adjust_request(adjust, id, tasks[id].budget);
            laws::law_adjust_keeps_sound(tasks, request, now, deadline);
            reservations::law_adjust_keeps_accounted(tasks, request, now, deadline);
        } else {
            let id = resolved(before, finish.task_id)->Some_0;
            let reason = names::text_of(finish.reason);
            laws::law_finish_keeps_sound(tasks, id, reason, false, now);
            reservations::law_finish_keeps_accounted(tasks, id, reason, false, now);
        }
    }
}

/// A request that names no task is about the one started last, until that one finishes.
pub proof fn law_the_task_started_last_is_meant(
    before: Desk,
    started: Desk,
    finished: Desk,
    start: StartInput,
    id: Seq<char>,
    out: StartOutput,
    finish: FinishInput,
    done: FinishOutput,
    now: nat,
    later: nat,
)
    requires
        answers_start(before, started, start, id, now, Ok(out)),
    ensures
        resolved(started, None) == Some(id),
        answers_finish(started, finished, finish, later, Ok(done)) && resolved(
            started,
            finish.task_id,
        ) == Some(id) ==> resolved(finished, None) is None,
{
}

} // verus!
