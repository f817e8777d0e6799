use std::sync::{
    atomic::{AtomicUsize, Ordering},
    Arc,
};
use time_strike::{
    AdjustTaskRequest, Amount, CheckpointRequest, Duration, FinishTaskRequest, ManualClock,
    MemoryStore, Mode, Number, PersistedState, Schedule, SchedulePhase, SnapshotStore,
    StartTaskRequest, TaskError, TaskManager, TaskStatus, TickRequest,
};

fn amount(value: f64) -> Amount {
    Number { bits: value.to_bits() }.amount()
}

fn secs(span: Duration) -> f64 {
    span.nanos as f64 / 1e9
}

fn manager() -> (ManualClock, TaskManager) {
    let clock = ManualClock::new();
    let manager = TaskManager::new(clock.clone());
    (clock, manager)
}

#[test]
fn schedule_validation_rejects_non_monotonic_phases() {
    let schedule = Schedule::default().with_phases(vec![
        SchedulePhase::new("a", amount(2.0)),
        SchedulePhase::new("b", amount(1.0)),
    ]);
    assert!(schedule.validate().is_err());
}

#[test]
fn manual_clock_is_monotonic_and_shared() {
    let clock = ManualClock::new();
    let other = clock.clone();
    other.advance_secs(amount(1.25));
    assert!((secs(clock.elapsed_secs()) - 1.25).abs() < 1e-9);
}

#[test]
fn clock_and_budget_are_monotonic_and_reserve_adapts() {
    let (clock, mut manager) = manager();
    let started = manager
        .start_task(StartTaskRequest::new("root", amount(10.0)))
        .unwrap();
    assert_eq!(started.task.status, TaskStatus::Active);
    assert!((secs(started.task.elapsed_secs) - 0.0).abs() < 1e-9);
    assert!((secs(started.task.adaptive_reserve_secs) - 1.2).abs() < 1e-9);
    assert!((secs(started.task.available_secs) - 8.8).abs() < 1e-9);

    clock.advance_secs(amount(3.0));
    let tick = manager.tick(TickRequest::new("root")).unwrap();
    assert_eq!(tick.tick, 1);
    assert!((secs(tick.task.elapsed_secs) - 3.0).abs() < 1e-9);
    assert!((secs(tick.task.remaining_secs) - 7.0).abs() < 1e-9);
    assert!((secs(tick.task.adaptive_reserve_secs) - 0.84).abs() < 1e-9);
    assert!(secs(tick.task.available_secs) >= 6.15 && secs(tick.task.available_secs) <= 6.17);
}

#[test]
fn modes_change_policy_and_schedule_can_override_phase() {
    let (clock, mut manager) = manager();
    let balanced = manager
        .start_task(StartTaskRequest::new("balanced", amount(10.0)).with_mode(Mode::Balanced))
        .unwrap();
    let interactive = manager
        .start_task(StartTaskRequest::new("interactive", amount(10.0)).with_mode(Mode::Interactive))
        .unwrap();
    assert!(interactive.task.adaptive_reserve_secs > balanced.task.adaptive_reserve_secs);

    let schedule = Schedule::new(amount(0.5)).with_phases(vec![
        SchedulePhase::new("plan", amount(2.0)),
        SchedulePhase::new("execute", amount(5.0))
            .with_mode(Mode::Deep)
            .with_reserve_ratio(amount(0.02))
            .with_tick_interval(amount(0.75)),
    ]);
    manager
        .start_task(StartTaskRequest::new("scheduled", amount(10.0)).with_schedule(schedule))
        .unwrap();
    assert_eq!(
        manager.get_task("scheduled").unwrap().phase.as_deref(),
        Some("plan")
    );
    clock.advance_secs(amount(2.0));
    let tick = manager.tick(TickRequest::new("scheduled")).unwrap();
    assert!(tick.phase_changed);
    assert_eq!(tick.task.phase.as_deref(), Some("execute"));
    assert_eq!(tick.task.mode, Mode::Deep);
    assert!((secs(tick.task.adaptive_reserve_secs) - 0.16).abs() < 1e-9);
    assert!((secs(tick.task.recommended_work_secs) - 0.75).abs() < 1e-9);
}

#[test]
fn children_are_clamped_and_release_parent_budget() {
    let (_clock, mut manager) = manager();
    let root = manager
        .start_task(StartTaskRequest::new("root", amount(10.0)))
        .unwrap();
    assert!((secs(root.task.available_secs) - 8.8).abs() < 1e-9);
    let child = manager
        .start_task(StartTaskRequest::new("child", amount(20.0)).with_parent("root"))
        .unwrap();
    assert!(child.clamped);
    assert!((secs(child.effective_budget_secs) - 8.8).abs() < 1e-9);
    let root_with_child = manager.get_task("root").unwrap();
    assert!((secs(root_with_child.child_reserved_secs) - 8.8).abs() < 1e-9);
    let sibling = manager
        .start_task(StartTaskRequest::new("sibling", amount(0.1)).with_parent("root"))
        .unwrap();
    assert!(!sibling.clamped);
    assert!(matches!(
        manager.finish_task(FinishTaskRequest::new("root")),
        Err(TaskError::ActiveChildren(_))
    ));
    manager
        .finish_task(FinishTaskRequest::new("child"))
        .unwrap();
    let root_after = manager.get_task("root").unwrap();
    assert!((secs(root_after.child_reserved_secs) - 0.1).abs() < 1e-9);
    let sibling_after_release = manager
        .start_task(StartTaskRequest::new("sibling-after-release", amount(0.1)).with_parent("root"))
        .unwrap();
    assert!(!sibling_after_release.clamped);
}

#[test]
fn checkpoint_and_recovery_preserve_runtime_without_extra_time() {
    let clock = ManualClock::new();
    let store = Arc::new(MemoryStore::new());
    let mut manager = TaskManager::with_store(clock.clone(), store.clone()).ok().unwrap();
    manager
        .start_task(StartTaskRequest::new("recover", amount(20.0)))
        .unwrap();
    clock.advance_secs(amount(2.5));
    manager
        .checkpoint(CheckpointRequest {
            task_id: "recover".into(),
            note: Some("Inspect state; persist plan; recover safely".into()),
            progress: Some(amount(0.25)),
            estimated_remaining_work_secs: Some(amount(12.0)),
            plan_complete: true,
            replan: false,
        })
        .unwrap();
    let before = manager.get_task("recover").unwrap();
    assert!((secs(before.elapsed_secs) - 2.5).abs() < 1e-9);

    let recovered = TaskManager::with_store(clock.clone(), store).ok().unwrap();
    let after = recovered.get_task("recover").unwrap();
    assert!((secs(after.elapsed_secs) - secs(before.elapsed_secs)).abs() < 1e-9);
    assert_eq!(after.checkpoints, 1);
    assert_eq!(
        after.last_checkpoint.unwrap().note.as_deref(),
        Some("Inspect state; persist plan; recover safely")
    );
    assert!((secs(clock.elapsed_secs()) - 2.5).abs() < 1e-9);
}

#[test]
fn recovery_before_the_snapshot_was_dated_charges_nothing() {
    let clock = ManualClock::new();
    let store = Arc::new(MemoryStore::new());
    let mut manager = TaskManager::with_store(clock.clone(), store.clone()).ok().unwrap();
    manager
        .start_task(StartTaskRequest::new("recover", amount(20.0)))
        .unwrap();
    clock.advance_secs(amount(2.5));
    manager.checkpoint(plan("recover", 0.25, 12.0)).unwrap();
    let mut snapshot = store.state().unwrap();
    snapshot.saved_at_unix_ms = u64::MAX;
    store.save(&snapshot).unwrap();
    let recovered = TaskManager::with_store(clock, store).ok().unwrap();
    assert_eq!(
        recovered.get_task("recover").unwrap(),
        manager.get_task("recover").unwrap()
    );
}

#[test]
fn process_restart_charges_wall_clock_downtime() {
    let clock = ManualClock::new();
    let store = Arc::new(MemoryStore::new());
    let mut manager = TaskManager::with_store(clock.clone(), store.clone()).ok().unwrap();
    manager
        .start_task(StartTaskRequest::new("restart", amount(10.0)))
        .unwrap();
    clock.advance_secs(amount(1.0));
    manager
        .checkpoint(CheckpointRequest {
            task_id: "restart".into(),
            note: Some("Persist initial plan before process restart".into()),
            progress: Some(amount(0.0)),
            estimated_remaining_work_secs: Some(amount(8.0)),
            plan_complete: true,
            replan: false,
        })
        .unwrap();

    let mut snapshot = store.state().unwrap();
    snapshot.saved_at_unix_ms = snapshot.saved_at_unix_ms.saturating_sub(2_000);
    store.save(&snapshot).unwrap();

    let restarted = TaskManager::with_store(ManualClock::new(), store).ok().unwrap();
    let recovered = restarted.get_task("restart").unwrap();
    assert!(secs(recovered.elapsed_secs) >= 3.0);
    assert!(secs(recovered.elapsed_secs) < 3.2);
    assert!(secs(recovered.remaining_secs) <= 7.0);
}

struct FailingStore;

impl SnapshotStore for FailingStore {
    fn save(&self, _state: &PersistedState) -> Result<(), String> {
        Err("injected save failure".into())
    }

    fn load(&self) -> Result<Option<PersistedState>, String> {
        Ok(None)
    }
}

#[test]
fn persistence_failure_rolls_back_memory() {
    let mut manager = TaskManager::with_store(ManualClock::new(), Arc::new(FailingStore))
        .ok()
        .unwrap();
    assert!(matches!(
        manager.start_task(StartTaskRequest::new("rollback", amount(10.0))),
        Err(TaskError::Persistence(_))
    ));
    assert!(matches!(
        manager.get_task("rollback"),
        Err(TaskError::NotFound(_))
    ));
}

#[test]
fn edge_validation_and_adjustment_are_explicit() {
    let (clock, mut manager) = manager();
    assert!(matches!(
        manager.start_task(StartTaskRequest::new("bad", amount(0.0))),
        Err(TaskError::Invalid(_))
    ));
    manager
        .start_task(StartTaskRequest::new("task", amount(5.0)))
        .unwrap();
    assert!(matches!(
        manager.start_task(StartTaskRequest::new("task", amount(2.0))),
        Err(TaskError::AlreadyExists(_))
    ));
    assert_eq!(
        manager.adjust_task(AdjustTaskRequest::new("task")),
        Err(TaskError::EmptyAdjustment)
    );
    assert!(matches!(
        manager.checkpoint(CheckpointRequest {
            task_id: "task".into(),
            note: None,
            progress: Some(amount(2.0)),
            estimated_remaining_work_secs: None,
            plan_complete: false,
            replan: false,
        }),
        Err(TaskError::Invalid(_))
    ));
    clock.advance_secs(amount(1.0));
    let adjusted = manager
        .adjust_task(
            AdjustTaskRequest::new("task")
                .with_budget(amount(8.0))
                .with_mode(Mode::Deep),
        )
        .unwrap();
    assert!((secs(adjusted.effective_budget_secs) - 8.0).abs() < 1e-9);
    assert_eq!(adjusted.task.mode, Mode::Deep);
    assert!(matches!(
        manager.adjust_task(AdjustTaskRequest::new("task").with_budget(amount(0.5))),
        Err(TaskError::Invalid(_))
    ));
}

#[test]
fn simulation_never_reports_negative_budget() {
    let (clock, mut manager) = manager();
    manager
        .start_task(StartTaskRequest::new("sim", amount(3.0)))
        .unwrap();
    for _ in 0..400 {
        clock.advance_secs(amount(0.01));
        let view = manager.tick(TickRequest::new("sim")).unwrap().task;
        assert!(secs(view.remaining_secs) >= 0.0);
        assert!(secs(view.available_secs) >= 0.0);
        assert!(secs(view.adaptive_reserve_secs) >= 0.0);
        if view.status == TaskStatus::Exhausted {
            break;
        }
    }
    assert_eq!(
        manager.get_task("sim").unwrap().status,
        TaskStatus::Exhausted
    );
}

fn plan(task_id: &str, progress: f64, eta: f64) -> CheckpointRequest {
    CheckpointRequest {
        task_id: task_id.into(),
        note: Some("Inspect relevant files; implement minimal fix; run targeted tests".into()),
        progress: Some(amount(progress)),
        estimated_remaining_work_secs: Some(amount(eta)),
        plan_complete: true,
        replan: false,
    }
}

#[test]
fn first_checkpoint_must_submit_plan() {
    let (_, mut manager) = manager();
    manager
        .start_task(StartTaskRequest::new("plan", amount(30.0)))
        .unwrap();
    assert!(matches!(
        manager.checkpoint(CheckpointRequest::new("plan")),
        Err(TaskError::Invalid(_))
    ));
    assert!(manager.checkpoint(plan("plan", 0.0, 20.0)).is_ok());
    assert!(manager.get_task("plan").unwrap().plan_submitted);
}

#[test]
fn plan_submitted_survives_recovery() {
    let store = Arc::new(MemoryStore::new());
    let mut manager = TaskManager::with_store(ManualClock::new(), store.clone()).ok().unwrap();
    manager
        .start_task(StartTaskRequest::new("persist-plan", amount(30.0)))
        .unwrap();
    manager.checkpoint(plan("persist-plan", 0.0, 20.0)).unwrap();
    let recovered = TaskManager::with_store(ManualClock::new(), store).ok().unwrap();
    assert!(recovered.get_task("persist-plan").unwrap().plan_submitted);
}

#[test]
fn progress_regression_requires_replan() {
    let (_, mut manager) = manager();
    manager
        .start_task(StartTaskRequest::new("progress", amount(30.0)))
        .unwrap();
    manager.checkpoint(plan("progress", 0.5, 15.0)).unwrap();
    let mut regressed = CheckpointRequest::new("progress");
    regressed.progress = Some(amount(0.4));
    assert!(matches!(
        manager.checkpoint(regressed.clone()),
        Err(TaskError::Invalid(_))
    ));
    regressed.replan = true;
    assert!(manager.checkpoint(regressed).is_ok());
}

#[test]
fn finish_reports_real_overrun() {
    let (clock, mut manager) = manager();
    manager
        .start_task(StartTaskRequest::new("overrun", amount(10.0)))
        .unwrap();
    clock.advance_secs(amount(14.0));
    let outcome = manager
        .finish_task(FinishTaskRequest::new("overrun"))
        .unwrap();
    assert!((secs(outcome.actual_elapsed_secs) - 14.0).abs() < 1e-9);
    assert!((secs(outcome.overrun_secs) - 4.0).abs() < 1e-9);
}

#[test]
fn tick_preserves_actual_and_accounted_elapsed_after_deadline() {
    let (clock, mut manager) = manager();
    manager
        .start_task(StartTaskRequest::new("overdue-tick", amount(10.0)))
        .unwrap();
    clock.advance_secs(amount(14.0));

    let (outcome, timing) = manager
        .tick_with_timing(TickRequest::new("overdue-tick"))
        .unwrap();
    let view = outcome.task;

    assert!((secs(timing.actual_elapsed_secs) - 14.0).abs() < 1e-9);
    assert!((secs(timing.accounted_elapsed_secs) - 10.0).abs() < 1e-9);
    assert!((secs(view.elapsed_secs) - secs(timing.accounted_elapsed_secs)).abs() < 1e-9);
    assert!((secs(timing.overrun_secs) - 4.0).abs() < 1e-9);
    assert!(!timing.deadline_met);
    assert_eq!(view.status, TaskStatus::Exhausted);
}

#[test]
fn finished_overrun_survives_recovery() {
    let clock = ManualClock::new();
    let store = Arc::new(MemoryStore::new());
    let mut manager = TaskManager::with_store(clock.clone(), store.clone()).ok().unwrap();
    manager
        .start_task(StartTaskRequest::new("persisted-overrun", amount(10.0)))
        .unwrap();
    clock.advance_secs(amount(14.0));
    manager
        .finish_task(FinishTaskRequest::new("persisted-overrun"))
        .unwrap();

    let recovered = TaskManager::with_store(clock, store).ok().unwrap();
    let timing = recovered.task_timing("persisted-overrun").unwrap();

    assert!((secs(timing.actual_elapsed_secs) - 14.0).abs() < 1e-9);
    assert!((secs(timing.accounted_elapsed_secs) - 10.0).abs() < 1e-9);
    assert!((secs(timing.overrun_secs) - 4.0).abs() < 1e-9);
    assert!(!timing.deadline_met);
}

struct CountingStore {
    state: std::sync::RwLock<Option<PersistedState>>,
    saves: AtomicUsize,
}

impl CountingStore {
    fn new() -> Self {
        Self {
            state: std::sync::RwLock::new(None),
            saves: AtomicUsize::new(0),
        }
    }
}

impl SnapshotStore for CountingStore {
    fn save(&self, state: &PersistedState) -> Result<(), String> {
        self.saves.fetch_add(1, Ordering::SeqCst);
        *self.state.write().unwrap() = Some(state.clone());
        Ok(())
    }

    fn load(&self) -> Result<Option<PersistedState>, String> {
        Ok(self.state.read().unwrap().clone())
    }
}

#[test]
fn tick_does_not_write_snapshot() {
    let store = Arc::new(CountingStore::new());
    let mut manager = TaskManager::with_store(ManualClock::new(), store.clone()).ok().unwrap();
    manager
        .start_task(StartTaskRequest::new("ticks", amount(30.0)))
        .unwrap();
    assert_eq!(store.saves.load(Ordering::SeqCst), 1);
    for _ in 0..100 {
        manager.tick(TickRequest::new("ticks")).unwrap();
    }
    assert_eq!(store.saves.load(Ordering::SeqCst), 1);
    manager.checkpoint(plan("ticks", 0.0, 20.0)).unwrap();
    assert_eq!(store.saves.load(Ordering::SeqCst), 2);
}
