use std::sync::Arc;
use time_strike::{
    AdjustTaskRequest, Amount, CheckpointRequest, Clock, Duration, FinishTaskRequest, ManualClock,
    MemoryStore, Mode, MonotonicClock, Number, PersistedState, Schedule, SchedulePhase,
    SnapshotStore, StartTaskRequest, TaskError, TaskManager, TaskStatus, TickRequest,
};

fn amount(value: f64) -> Amount {
    Number { bits: value.to_bits() }.amount()
}

fn millis(span: Duration) -> u128 {
    assert_eq!(span.nanos % 1_000_000, 0);
    span.nanos / 1_000_000
}

fn manager() -> (ManualClock, TaskManager) {
    let clock = ManualClock::new();
    let manager = TaskManager::new(clock.clone());
    (clock, manager)
}

fn plan(task_id: &str, progress: f64) -> CheckpointRequest {
    CheckpointRequest {
        task_id: task_id.into(),
        note: Some("Read the code; change it; run the tests".into()),
        progress: Some(amount(progress)),
        estimated_remaining_work_secs: Some(amount(5.0)),
        plan_complete: true,
        replan: false,
    }
}

fn invalid(text: &str) -> TaskError {
    TaskError::Invalid(text.into())
}

#[test]
fn names_of_tasks_are_checked() {
    let (_, mut manager) = manager();
    let error = invalid("task_id must be non-empty and at most 256 bytes");
    for id in ["", " \t\n", &"x".repeat(257), &"\u{e9}".repeat(129)] {
        assert_eq!(
            manager.start_task(StartTaskRequest::new(id, amount(1.0))),
            Err(error.clone())
        );
        assert_eq!(manager.tick(TickRequest::new(id)), Err(error.clone()));
        assert_eq!(manager.task_timing(id), Err(error.clone()));
        assert_eq!(manager.checkpoint(CheckpointRequest::new(id)), Err(error.clone()));
        assert_eq!(manager.adjust_task(AdjustTaskRequest::new(id)), Err(error.clone()));
        assert_eq!(manager.finish_task(FinishTaskRequest::new(id)), Err(error.clone()));
    }
    assert!(manager
        .start_task(StartTaskRequest::new(&"x".repeat(256), amount(1.0)))
        .is_ok());
}

#[test]
fn budgets_must_be_positive_numbers() {
    let (_, mut manager) = manager();
    let error = invalid("budget_secs must be finite and > 0");
    for budget in [0.0, -0.0, -1.0, f64::NAN, f64::INFINITY] {
        assert_eq!(
            manager.start_task(StartTaskRequest::new("task", amount(budget))),
            Err(error.clone())
        );
    }
    manager.start_task(StartTaskRequest::new("task", amount(1e-12))).unwrap();
    assert_eq!(manager.get_task("task").unwrap().status, TaskStatus::Exhausted);
    assert_eq!(
        manager.adjust_task(AdjustTaskRequest::new("task").with_budget(amount(f64::NAN))),
        Err(error)
    );
}

#[test]
fn schedules_are_checked_field_by_field() {
    let phase = || SchedulePhase::new("a", amount(1.0));
    let cases = vec![
        (
            Schedule::new(amount(0.0)),
            "schedule tick_interval_secs must be > 0",
        ),
        (
            Schedule::default().with_phases(vec![SchedulePhase::new("  ", amount(1.0))]),
            "schedule phase name cannot be empty",
        ),
        (
            Schedule::default().with_phases(vec![phase(), phase()]),
            "schedule phase until_secs must be finite and strictly increasing",
        ),
        (
            Schedule::default().with_phases(vec![
                SchedulePhase::new("a", amount(f64::INFINITY)),
                phase(),
            ]),
            "schedule phase until_secs must be finite and strictly increasing",
        ),
        (
            Schedule::default().with_phases(vec![SchedulePhase::new("a", amount(f64::NAN))]),
            "schedule phase until_secs must be finite and strictly increasing",
        ),
        (
            Schedule::default().with_phases(vec![phase().with_reserve_ratio(amount(0.81))]),
            "schedule reserve_ratio must be between 0 and 0.80",
        ),
        (
            Schedule::default().with_phases(vec![phase().with_tick_interval(amount(-1.0))]),
            "schedule phase tick_interval_secs must be > 0",
        ),
    ];
    let (_, mut refusing) = manager();
    for (schedule, text) in cases {
        assert_eq!(schedule.validate(), Err(invalid(text)));
        assert_eq!(
            refusing.start_task(StartTaskRequest::new("t", amount(9.0)).with_schedule(schedule)),
            Err(invalid(text))
        );
    }
    let sound = Schedule::default().with_phases(vec![
        phase().with_reserve_ratio(amount(0.8)),
        SchedulePhase::new("b", amount(2.0)).with_reserve_ratio(amount(0.0)),
    ]);
    assert_eq!(sound.validate(), Ok(()));
    let endless = Schedule::default().with_phases(vec![
        phase(),
        SchedulePhase::new("b", amount(f64::INFINITY)).with_mode(Mode::Deep),
    ]);
    assert_eq!(endless.validate(), Ok(()));
    let (clock, mut manager) = manager();
    manager
        .start_task(StartTaskRequest::new("t", amount(9.0)).with_schedule(endless))
        .unwrap();
    clock.set_secs(amount(1.0));
    assert_eq!(manager.get_task("t").unwrap().mode, Mode::Deep);
}

#[test]
fn modes_are_read_in_any_case() {
    assert_eq!(Mode::parse(" Thorough\n"), Ok(Mode::Deep));
    assert_eq!(Mode::parse("URGENT"), Ok(Mode::Deadline));
    assert_eq!(Mode::parse("fast"), Ok(Mode::Interactive));
    assert_eq!(Mode::parse("normal"), Ok(Mode::Balanced));
    assert_eq!("Default".parse::<Mode>(), Ok(Mode::Balanced));
    assert_eq!(Mode::parse(" Slow "), Err("unknown mode: slow".to_string()));
    for mode in [Mode::Balanced, Mode::Interactive, Mode::Deep, Mode::Deadline] {
        assert_eq!(Mode::parse(mode.as_str()), Ok(mode));
    }
    assert_eq!(Mode::default(), Mode::Balanced);
    assert_eq!(Mode::Deadline.reserve_ratio(), 250_000_000);
    assert_eq!(millis(Mode::Deadline.default_tick_interval_secs()), 100);
}

#[test]
fn reports_account_for_the_whole_budget() {
    let (clock, mut manager) = manager();
    let schedule = Schedule::new(amount(3.0)).with_phases(vec![
        SchedulePhase::new("first", amount(2.0)).with_reserve_ratio(amount(0.5)),
        SchedulePhase::new("last", amount(4.0)).with_mode(Mode::Interactive),
    ]);
    manager
        .start_task(StartTaskRequest::new("root", amount(10.0)).with_schedule(schedule))
        .unwrap();
    clock.set_secs(amount(1.0));
    let view = manager.get_task("root").unwrap();
    assert_eq!(millis(view.elapsed_secs), 1_000);
    assert_eq!(millis(view.remaining_secs), 9_000);
    assert_eq!(millis(view.adaptive_reserve_secs), 4_500);
    assert_eq!(millis(view.available_secs), 4_500);
    assert_eq!(millis(view.recommended_work_secs), 3_000);
    assert_eq!(view.phase.as_deref(), Some("first"));

    // The last phase extends forever.
    clock.set_secs(amount(9.5));
    let view = manager.get_task("root").unwrap();
    assert_eq!(view.phase.as_deref(), Some("last"));
    assert_eq!(view.mode, Mode::Interactive);
    assert_eq!(millis(view.adaptive_reserve_secs), 100);
    assert_eq!(millis(view.recommended_work_secs), 400);
    assert_eq!(
        view.elapsed_secs.saturating_add(view.remaining_secs),
        view.budget_secs
    );

    clock.set_secs(amount(25.0));
    let view = manager.get_task("root").unwrap();
    assert_eq!(millis(view.elapsed_secs), 10_000);
    assert_eq!(millis(view.remaining_secs), 0);
    assert_eq!(view.status, TaskStatus::Exhausted);
    assert_eq!(millis(view.recommended_work_secs), 0);
    assert!(view.is_done());
}

#[test]
fn listed_tasks_are_in_order() {
    let (_, mut manager) = manager();
    for id in ["b", "a", "c", "B"] {
        manager.start_task(StartTaskRequest::new(id, amount(1.0))).unwrap();
    }
    let ids: Vec<String> = manager.list_tasks().into_iter().map(|view| view.task_id).collect();
    assert_eq!(ids, ["B", "a", "b", "c"]);
    assert_eq!(manager.task_count(), 4);
    assert_eq!(
        manager.get_task("d"),
        Err(TaskError::NotFound("d".into()))
    );
}

#[test]
fn starts_under_a_parent_are_refused_with_the_parents_name() {
    let (clock, mut manager) = manager();
    let child = || StartTaskRequest::new("child", amount(1.0)).with_parent("root");
    assert_eq!(
        manager.start_task(child()),
        Err(TaskError::ParentNotFound("root".into()))
    );
    let schedule = Schedule::default().with_phases(vec![
        SchedulePhase::new("all", amount(9.0)).with_reserve_ratio(amount(0.0)),
    ]);
    manager
        .start_task(StartTaskRequest::new("root", amount(2.0)).with_schedule(schedule))
        .unwrap();
    manager
        .start_task(StartTaskRequest::new("all", amount(2.0)).with_parent("root"))
        .unwrap();
    assert_eq!(
        manager.start_task(child()),
        Err(TaskError::BudgetExhausted("root".into()))
    );
    clock.advance_secs(amount(2.0));
    assert_eq!(
        manager.start_task(child()),
        Err(TaskError::ParentUnavailable("root".into()))
    );
    assert_eq!(manager.task_count(), 2);
}

#[test]
fn a_child_that_starts_and_finishes_leaves_its_parent_as_it_was() {
    let (_, mut manager) = manager();
    manager.start_task(StartTaskRequest::new("root", amount(10.0))).unwrap();
    let before = manager.get_task("root").unwrap();
    let child = manager
        .start_task(StartTaskRequest::new("child", amount(3.0)).with_parent("root"))
        .unwrap();
    assert!(!child.clamped);
    let during = manager.get_task("root").unwrap();
    assert_eq!(during.children.items, ["child"]);
    assert_eq!(millis(during.child_reserved_secs), 3_000);
    assert_eq!(millis(during.adaptive_reserve_secs), 840);
    manager.finish_task(FinishTaskRequest::new("child")).unwrap();
    assert_eq!(manager.get_task("root").unwrap(), before);
}

#[test]
fn forced_finishes_let_go_of_active_children() {
    let (_, mut manager) = manager();
    manager.start_task(StartTaskRequest::new("root", amount(10.0))).unwrap();
    manager
        .start_task(StartTaskRequest::new("child", amount(3.0)).with_parent("root"))
        .unwrap();
    assert_eq!(
        manager.finish_task(FinishTaskRequest::new("root")),
        Err(TaskError::ActiveChildren("root".into()))
    );
    let mut forced = FinishTaskRequest::new("root");
    forced.force = true;
    forced.reason = Some("cancelled".into());
    let outcome = manager.finish_task(forced).unwrap();
    assert_eq!(outcome.reason.as_deref(), Some("cancelled"));
    assert_eq!(outcome.task.status, TaskStatus::Finished);
    assert!(outcome.deadline_met());
    let child = manager.get_task("child").unwrap();
    assert_eq!(child.parent_id, None);
    assert_eq!(child.status, TaskStatus::Active);
    assert!(manager.get_task("root").unwrap().children.items.is_empty());
}

#[test]
fn finished_tasks_take_no_more_requests() {
    let (clock, mut manager) = manager();
    manager.start_task(StartTaskRequest::new("t", amount(10.0))).unwrap();
    clock.advance_secs(amount(4.0));
    manager.finish_task(FinishTaskRequest::new("t")).unwrap();
    clock.advance_secs(amount(100.0));
    let error = TaskError::NotActive("t".into());
    assert_eq!(manager.tick(TickRequest::new("t")), Err(error.clone()));
    assert_eq!(manager.checkpoint(plan("t", 0.0)), Err(error.clone()));
    assert_eq!(
        manager.adjust_task(AdjustTaskRequest::new("t").with_mode(Mode::Deep)),
        Err(error.clone())
    );
    assert_eq!(manager.finish_task(FinishTaskRequest::new("t")), Err(error));
    let timing = manager.task_timing("t").unwrap();
    assert_eq!(millis(timing.actual_elapsed_secs), 4_000);
    assert!(timing.deadline_met);
    let missing = TaskError::NotFound("x".into());
    assert_eq!(manager.tick(TickRequest::new("x")), Err(missing.clone()));
    assert_eq!(manager.task_timing("x"), Err(missing.clone()));
    assert_eq!(manager.finish_task(FinishTaskRequest::new("x")), Err(missing));
}

#[test]
fn checkpoints_are_checked_field_by_field() {
    let (_, mut manager) = manager();
    manager.start_task(StartTaskRequest::new("t", amount(10.0))).unwrap();
    let mut request = plan("t", 0.0);
    request.note = Some("x".repeat(8_193));
    assert_eq!(
        manager.checkpoint(request.clone()),
        Err(invalid("checkpoint note is too long"))
    );
    request.note = Some(format!("   {}   ", "x".repeat(19)));
    assert_eq!(
        manager.checkpoint(request.clone()),
        Err(invalid("plan checkpoint requires a compact plan in note"))
    );
    request.note = Some("x".repeat(20));
    request.estimated_remaining_work_secs = None;
    assert_eq!(
        manager.checkpoint(request.clone()),
        Err(invalid("plan checkpoint requires estimated_remaining_work_secs > 0"))
    );
    request.estimated_remaining_work_secs = Some(amount(0.0));
    assert_eq!(
        manager.checkpoint(request.clone()),
        Err(invalid("estimated_remaining_work_secs must be finite and > 0"))
    );
    request.progress = Some(amount(1.01));
    assert_eq!(
        manager.checkpoint(request.clone()),
        Err(invalid("checkpoint progress must be between 0 and 1"))
    );
    assert_eq!(
        manager.checkpoint(CheckpointRequest::new("t")),
        Err(invalid("first checkpoint must submit a compact execution plan"))
    );
    request.progress = Some(amount(0.5));
    request.estimated_remaining_work_secs = Some(amount(3.0));
    let outcome = manager.checkpoint(request.clone()).unwrap();
    assert_eq!(outcome.checkpoint.sequence, 1);
    assert_eq!(outcome.task.checkpoints, 1);
    request.progress = Some(amount(0.25));
    assert_eq!(
        manager.checkpoint(request.clone()),
        Err(invalid("progress cannot decrease unless replan=true"))
    );
    // Less than the tolerance is no decrease.
    request.progress = Some(Amount::Billionths(499_999_999));
    assert_eq!(manager.checkpoint(request).unwrap().checkpoint.sequence, 2);
    let mut reason = FinishTaskRequest::new("t");
    reason.reason = Some("x".repeat(8_193));
    assert_eq!(
        manager.finish_task(reason),
        Err(invalid("finish reason is too long"))
    );
}

#[test]
fn adjusted_children_stay_within_their_parent() {
    let (clock, mut manager) = manager();
    manager.start_task(StartTaskRequest::new("root", amount(10.0))).unwrap();
    manager
        .start_task(StartTaskRequest::new("child", amount(2.0)).with_parent("root"))
        .unwrap();
    clock.advance_secs(amount(1.0));
    // The parent has nine seconds left and would have 12 percent of them held back.
    let outcome = manager
        .adjust_task(AdjustTaskRequest::new("child").with_budget(amount(100.0)))
        .unwrap();
    assert!(outcome.clamped);
    assert_eq!(outcome.requested_budget_secs, Some(amount(100.0)));
    assert_eq!(millis(outcome.effective_budget_secs), 7_920);
    assert_eq!(
        millis(manager.get_task("root").unwrap().child_reserved_secs),
        7_920
    );
    let outcome = manager
        .adjust_task(AdjustTaskRequest::new("child").with_mode(Mode::Deep))
        .unwrap();
    assert!(!outcome.clamped);
    assert_eq!(outcome.requested_budget_secs, None);
    assert_eq!(millis(outcome.effective_budget_secs), 7_920);
    assert_eq!(
        manager.adjust_task(AdjustTaskRequest::new("child").with_budget(amount(0.5))),
        Err(invalid("new budget cannot be less than elapsed runtime"))
    );
    clock.advance_secs(amount(8.0));
    assert_eq!(
        manager.adjust_task(AdjustTaskRequest::new("child").with_budget(amount(9.5))),
        Err(TaskError::BudgetExhausted("root".into()))
    );
    let bad = Schedule::new(amount(f64::NAN));
    assert_eq!(
        manager.adjust_task(AdjustTaskRequest::new("child").with_schedule(bad)),
        Err(invalid("schedule tick_interval_secs must be > 0"))
    );
}

#[test]
fn the_hosts_deadline_bounds_starts_and_adjustments() {
    let (clock, mut manager) = manager();
    clock.set_secs(amount(2.0));
    let deadline = Some(Duration::from_secs(12));
    let outcome = manager
        .start_task_with_deadline(StartTaskRequest::new("t", amount(60.0)), deadline)
        .unwrap();
    assert!(outcome.clamped);
    assert_eq!(millis(outcome.effective_budget_secs), 10_000);
    clock.set_secs(amount(5.0));
    let outcome = manager
        .adjust_task_with_deadline(AdjustTaskRequest::new("t").with_budget(amount(60.0)), deadline)
        .unwrap();
    assert_eq!(millis(outcome.effective_budget_secs), 10_000);
    let outcome = manager
        .adjust_task_with_deadline(AdjustTaskRequest::new("t").with_budget(amount(4.0)), deadline)
        .unwrap();
    assert!(!outcome.clamped);
    assert_eq!(millis(outcome.effective_budget_secs), 4_000);
    clock.set_secs(amount(13.0));
    assert_eq!(
        manager.adjust_task_with_deadline(
            AdjustTaskRequest::new("t").with_budget(amount(60.0)),
            deadline
        ),
        Err(TaskError::BudgetExhausted("t".into()))
    );
    assert_eq!(
        manager.start_task_with_deadline(StartTaskRequest::new("late", amount(1.0)), deadline),
        Err(TaskError::BudgetExhausted("late".into()))
    );
    assert_eq!(manager.task_count(), 1);
}

#[test]
fn errors_are_told_in_one_line() {
    let id = || "x".to_string();
    let lines = [
        (TaskError::Invalid(id()), "invalid request: x"),
        (TaskError::AlreadyExists(id()), "task already exists: x"),
        (TaskError::NotFound(id()), "task not found: x"),
        (TaskError::NotActive(id()), "task is not active: x"),
        (TaskError::ParentNotFound(id()), "parent task not found: x"),
        (TaskError::ParentUnavailable(id()), "parent task unavailable: x"),
        (TaskError::BudgetExhausted(id()), "no budget available for task: x"),
        (TaskError::ActiveChildren(id()), "task has active children: x"),
        (TaskError::EmptyAdjustment, "adjustment did not change anything"),
        (TaskError::Persistence(id()), "persistence error: x"),
        (TaskError::CorruptSnapshot(id()), "corrupt snapshot: x"),
    ];
    for (error, line) in lines {
        assert_eq!(error.message(), line);
    }
    assert_eq!(TaskStatus::Active.as_str(), "active");
    assert_eq!(TaskStatus::Exhausted.as_str(), "exhausted");
    assert_eq!(TaskStatus::Finished.as_str(), "finished");
}

#[test]
fn clocks_go_forward() {
    let manual = ManualClock::new();
    manual.set_secs(amount(3.0));
    assert_eq!(millis(manual.now()), 3_000);
    manual.advance_secs(amount(1e19));
    assert_eq!(manual.now(), Duration::from_nanos(u64::MAX));
    manual.advance_secs(amount(1.0));
    assert_eq!(manual.elapsed_secs(), Duration::from_nanos(u64::MAX));
    let clock = MonotonicClock::new();
    let first = clock.now();
    assert!(clock.now() >= first);
    let mut manager = TaskManager::from_clock(Box::new(MonotonicClock::default()));
    manager.start_task(StartTaskRequest::new("t", amount(1000.0))).unwrap();
    assert_eq!(manager.get_task("t").unwrap().status, TaskStatus::Active);
}

fn snapshot_of(manager: &TaskManager) -> PersistedState {
    let mut snapshot = manager.snapshot();
    snapshot.saved_at_unix_ms = u64::MAX;
    snapshot
}

fn recovered(snapshot: &PersistedState, clock: &ManualClock) -> Result<TaskManager, TaskError> {
    let store = Arc::new(MemoryStore::default());
    store.save(snapshot).unwrap();
    TaskManager::with_store(clock.clone(), store)
}

fn refused(snapshot: &PersistedState) -> TaskError {
    recovered(snapshot, &ManualClock::new()).err().unwrap()
}

#[test]
fn snapshots_give_back_every_task() {
    let (clock, mut manager) = manager();
    manager.start_task(StartTaskRequest::new("root", amount(20.0))).unwrap();
    manager
        .start_task(StartTaskRequest::new("a", amount(4.0)).with_parent("root"))
        .unwrap();
    manager
        .start_task(StartTaskRequest::new("b", amount(5.0)).with_parent("root"))
        .unwrap();
    manager.checkpoint(plan("a", 0.5)).unwrap();
    clock.advance_secs(amount(2.0));
    manager.tick(TickRequest::new("a")).unwrap();
    manager.finish_task(FinishTaskRequest::new("b")).unwrap();
    let snapshot = snapshot_of(&manager);
    assert_eq!(snapshot.version, 2);
    let ids: Vec<&str> = snapshot.tasks.iter().map(|task| task.task_id.as_str()).collect();
    assert_eq!(ids, ["a", "b", "root"]);
    let other = ManualClock::new();
    other.set_secs(amount(77.0));
    let restored = recovered(&snapshot, &other).ok().unwrap();
    assert_eq!(restored.list_tasks(), manager.list_tasks());
    assert_eq!(
        restored.task_timing("b").unwrap(),
        manager.task_timing("b").unwrap()
    );
}

#[test]
fn downtime_is_charged_to_active_tasks_only() {
    let (clock, mut manager) = manager();
    for (id, budget) in [("short", 3.0), ("long", 30.0), ("done", 30.0)] {
        manager.start_task(StartTaskRequest::new(id, amount(budget))).unwrap();
    }
    clock.advance_secs(amount(1.0));
    manager.finish_task(FinishTaskRequest::new("done")).unwrap();
    let mut snapshot = manager.snapshot();
    snapshot.saved_at_unix_ms = snapshot.saved_at_unix_ms.saturating_sub(10_000);
    let restored = recovered(&snapshot, &ManualClock::new()).ok().unwrap();
    let short = restored.get_task("short").unwrap();
    assert_eq!(short.status, TaskStatus::Exhausted);
    let long = restored.task_timing("long").unwrap().actual_elapsed_secs;
    assert!(long >= Duration::from_secs(11) && long < Duration::from_secs(12));
    assert_eq!(
        restored.task_timing("done").unwrap().actual_elapsed_secs,
        Duration::from_secs(1)
    );
}

#[test]
fn corrupt_snapshots_are_refused_with_the_reason() {
    let (_, mut manager) = manager();
    manager.start_task(StartTaskRequest::new("root", amount(20.0))).unwrap();
    manager
        .start_task(StartTaskRequest::new("child", amount(4.0)).with_parent("root"))
        .unwrap();
    let sound = snapshot_of(&manager);
    let corrupt = |text: &str| TaskError::CorruptSnapshot(text.into());

    let mut bad = sound.clone();
    bad.version = 3;
    assert_eq!(refused(&bad), corrupt("unsupported version 3"));
    let mut bad = sound.clone();
    bad.tasks[0].task_id = " ".into();
    assert_eq!(
        refused(&bad),
        corrupt("invalid request: task_id must be non-empty and at most 256 bytes")
    );
    let mut bad = sound.clone();
    bad.tasks[0].budget_secs = amount(0.0);
    assert_eq!(refused(&bad), corrupt("invalid request: budget_secs must be finite and > 0"));
    let mut bad = sound.clone();
    bad.tasks[0].elapsed_secs = amount(-1.0);
    assert_eq!(refused(&bad), corrupt("elapsed_secs must be finite and >= 0"));
    let mut bad = sound.clone();
    bad.tasks[0].schedule = Schedule::new(amount(0.0));
    assert_eq!(
        refused(&bad),
        corrupt("invalid request: schedule tick_interval_secs must be > 0")
    );
    let mut bad = sound.clone();
    bad.tasks[1].task_id = "child".into();
    assert_eq!(refused(&bad), corrupt("duplicate task child"));
    let mut bad = sound.clone();
    bad.tasks[1].parent_id = Some("nobody".into());
    assert_eq!(refused(&bad), corrupt("invalid parent for root: nobody"));
    let mut bad = sound.clone();
    bad.tasks[1].parent_id = Some("root".into());
    assert_eq!(refused(&bad), corrupt("invalid parent for root: root"));
    let mut bad = sound.clone();
    bad.tasks[1].parent_id = Some("child".into());
    assert_eq!(refused(&bad), corrupt("cycle involving task child"));
    assert!(recovered(&sound, &ManualClock::new()).is_ok());
}

struct Unreadable;

impl SnapshotStore for Unreadable {
    fn save(&self, _state: &PersistedState) -> Result<(), String> {
        Ok(())
    }

    fn load(&self) -> Result<Option<PersistedState>, String> {
        Err("no such device".into())
    }
}

#[test]
fn a_store_that_cannot_be_read_stops_the_manager() {
    assert_eq!(
        TaskManager::with_store(ManualClock::new(), Arc::new(Unreadable)).err(),
        Some(TaskError::Persistence("no such device".into()))
    );
}

struct FailsAfter {
    good: std::sync::atomic::AtomicUsize,
}

impl SnapshotStore for FailsAfter {
    fn save(&self, _state: &PersistedState) -> Result<(), String> {
        let order = std::sync::atomic::Ordering::SeqCst;
        if self.good.load(order) == 0 {
            return Err("disk full".into());
        }
        self.good.fetch_sub(1, order);
        Ok(())
    }

    fn load(&self) -> Result<Option<PersistedState>, String> {
        Ok(None)
    }
}

#[test]
fn changes_that_cannot_be_saved_are_taken_back() {
    let store = Arc::new(FailsAfter {
        good: std::sync::atomic::AtomicUsize::new(2),
    });
    let clock = ManualClock::new();
    let mut manager = TaskManager::with_store(clock.clone(), store).ok().unwrap();
    manager.start_task(StartTaskRequest::new("root", amount(20.0))).unwrap();
    manager
        .start_task(StartTaskRequest::new("child", amount(4.0)).with_parent("root"))
        .unwrap();
    let before = manager.list_tasks();
    let error = TaskError::Persistence("disk full".into());
    assert_eq!(manager.checkpoint(plan("root", 0.0)), Err(error.clone()));
    assert_eq!(
        manager.adjust_task(AdjustTaskRequest::new("child").with_budget(amount(2.0))),
        Err(error.clone())
    );
    assert_eq!(manager.finish_task(FinishTaskRequest::new("child")), Err(error.clone()));
    assert_eq!(
        manager.start_task(StartTaskRequest::new("more", amount(2.0)).with_parent("root")),
        Err(error)
    );
    assert_eq!(manager.list_tasks(), before);
}

#[test]
fn phases_and_used_up_budgets_are_noticed_by_ticks() {
    let (clock, mut manager) = manager();
    let schedule = Schedule::default().with_phases(vec![
        SchedulePhase::new("one", amount(1.0)),
        SchedulePhase::new("two", amount(2.0)),
    ]);
    manager
        .start_task(StartTaskRequest::new("t", amount(3.0)).with_schedule(schedule))
        .unwrap();
    assert!(!manager.tick(TickRequest::new("t")).unwrap().phase_changed);
    clock.set_secs(amount(1.0));
    assert!(manager.tick(TickRequest::new("t")).unwrap().phase_changed);
    assert!(!manager.tick(TickRequest::new("t")).unwrap().phase_changed);
    clock.set_secs(amount(2.999_999_999));
    let outcome = manager.tick(TickRequest::new("t")).unwrap();
    assert_eq!(outcome.tick, 4);
    assert_eq!(outcome.task.status, TaskStatus::Exhausted);
    // More budget does not make an exhausted task active again.
    manager
        .adjust_task(AdjustTaskRequest::new("t").with_budget(amount(10.0)))
        .unwrap();
    assert_eq!(manager.get_task("t").unwrap().status, TaskStatus::Exhausted);
}
