use std::sync::Arc;
use std::time::{SystemTime, UNIX_EPOCH};
use time_strike::advice::issue_action_lease;
use time_strike::{
    AdjustTaskRequest, Amount, CheckpointRequest, Duration, FinishTaskRequest, ManualClock,
    MemoryStore, Metadata, Mode, Number, PersistedState, SnapshotStore, StartTaskRequest, TaskError,
    TaskManager, TaskStatus, TaskView, TickRequest,
};

fn amount(value: f64) -> Amount {
    Number { bits: value.to_bits() }.amount()
}

fn manager() -> (ManualClock, TaskManager) {
    let clock = ManualClock::new();
    let manager = TaskManager::new(clock.clone());
    (clock, manager)
}

fn plan(task_id: &str) -> CheckpointRequest {
    CheckpointRequest {
        task_id: task_id.into(),
        note: Some("Read the code; change it; run the tests".into()),
        progress: Some(amount(0.25)),
        estimated_remaining_work_secs: Some(amount(5.0)),
        plan_complete: true,
        replan: false,
    }
}

fn start(manager: &mut TaskManager, id: &str, budget: f64, parent: Option<&str>) {
    let mut request = StartTaskRequest::new(id, amount(budget));
    if let Some(parent) = parent {
        request = request.with_parent(parent);
    }
    manager.start_task(request).unwrap();
}

/// Every task that is not finished has reserved the budgets of its children.
fn accounted(manager: &TaskManager) {
    for view in manager.list_tasks() {
        if view.status != TaskStatus::Finished {
            let sum: u128 = view
                .children
                .items
                .iter()
                .map(|child| manager.get_task(child).unwrap().budget_secs.nanos)
                .sum();
            assert_eq!(view.child_reserved_secs.nanos, sum, "{}", view.task_id);
        }
    }
}

/// All tasks but those named.
fn others(manager: &TaskManager, touched: &[&str]) -> Vec<TaskView> {
    manager
        .list_tasks()
        .into_iter()
        .filter(|view| !touched.contains(&view.task_id.as_str()))
        .collect()
}

#[test]
fn reservations_are_the_budgets_of_the_children() {
    let (clock, mut manager) = manager();
    start(&mut manager, "root", 100.0, None);
    start(&mut manager, "a", 20.0, Some("root"));
    start(&mut manager, "b", 30.0, Some("root"));
    start(&mut manager, "b1", 10.0, Some("b"));
    start(&mut manager, "b2", 500.0, Some("b"));
    accounted(&manager);
    clock.advance_secs(amount(3.0));
    manager.tick(TickRequest::new("b")).unwrap();
    manager
        .adjust_task(AdjustTaskRequest::new("a").with_budget(amount(45.0)))
        .unwrap();
    accounted(&manager);
    manager
        .adjust_task(AdjustTaskRequest::new("b2").with_budget(amount(4.0)))
        .unwrap();
    accounted(&manager);
    manager.finish_task(FinishTaskRequest::new("a")).unwrap();
    accounted(&manager);
    let mut forced = FinishTaskRequest::new("b");
    forced.force = true;
    manager.finish_task(forced).unwrap();
    accounted(&manager);
    let root = manager.get_task("root").unwrap();
    assert_eq!(root.child_reserved_secs, Duration::zero());
    // The children of the forced task go on without a parent.
    assert_eq!(manager.get_task("b1").unwrap().parent_id, None);
    manager.finish_task(FinishTaskRequest::new("b1")).unwrap();
    accounted(&manager);
}

#[test]
fn requests_leave_other_tasks_alone() {
    let (clock, mut manager) = manager();
    start(&mut manager, "root", 100.0, None);
    start(&mut manager, "side", 50.0, None);
    let before = others(&manager, &["root", "child"]);
    start(&mut manager, "child", 10.0, Some("root"));
    assert_eq!(others(&manager, &["root", "child"]), before);
    clock.advance_secs(amount(1.0));
    let before = others(&manager, &["child"]);
    manager.tick(TickRequest::new("child")).unwrap();
    manager.checkpoint(plan("child")).unwrap();
    manager
        .adjust_task(AdjustTaskRequest::new("child").with_mode(Mode::Deep))
        .unwrap();
    assert_eq!(others(&manager, &["child"]), before);
    let before = others(&manager, &["root", "child"]);
    manager.finish_task(FinishTaskRequest::new("child")).unwrap();
    assert_eq!(others(&manager, &["root", "child"]), before);
}

#[test]
fn looking_and_noting_cost_no_time() {
    let (clock, mut manager) = manager();
    start(&mut manager, "t", 20.0, None);
    clock.advance_secs(amount(4.0));
    let before = manager.get_task("t").unwrap();
    manager.tick(TickRequest::new("t")).unwrap();
    manager.checkpoint(plan("t")).unwrap();
    manager
        .adjust_task(AdjustTaskRequest::new("t").with_budget(amount(9.0)))
        .unwrap();
    let after = manager.get_task("t").unwrap();
    assert_eq!(after.elapsed_secs, before.elapsed_secs);
    assert_eq!(after.remaining_secs, Duration::from_secs(5));
    assert_eq!((after.ticks, after.checkpoints), (1, 1));
    assert!(after.plan_submitted && !before.plan_submitted);
}

#[test]
fn timings_add_up() {
    let (clock, mut manager) = manager();
    start(&mut manager, "t", 10.0, None);
    for (secs, accounted, overrun, met) in
        [(0.0, 0, 0, true), (10.0, 10, 0, true), (12.0, 10, 2, false)]
    {
        clock.set_secs(amount(secs));
        let timing = manager.task_timing("t").unwrap();
        assert_eq!(timing.accounted_elapsed_secs, Duration::from_secs(accounted));
        assert_eq!(timing.overrun_secs, Duration::from_secs(overrun));
        assert_eq!(
            timing.actual_elapsed_secs,
            timing.accounted_elapsed_secs.saturating_add(timing.overrun_secs)
        );
        assert_eq!(timing.deadline_met, met);
    }
}

fn dated(manager: &TaskManager) -> PersistedState {
    let mut snapshot = manager.snapshot();
    snapshot.saved_at_unix_ms = u64::MAX;
    snapshot
}

fn recovered(snapshot: &PersistedState) -> TaskManager {
    let store = Arc::new(MemoryStore::new());
    store.save(snapshot).unwrap();
    TaskManager::with_store(ManualClock::new(), store).ok().unwrap()
}

#[test]
fn recovered_reservations_are_accounted_for() {
    let (_, mut manager) = manager();
    start(&mut manager, "root", 100.0, None);
    start(&mut manager, "a", 20.0, Some("root"));
    start(&mut manager, "b", 30.0, Some("root"));
    manager.finish_task(FinishTaskRequest::new("a")).unwrap();
    let mut again = recovered(&dated(&manager));
    accounted(&again);
    assert_eq!(again.list_tasks(), manager.list_tasks());
    start(&mut again, "c", 5.0, Some("root"));
    again.finish_task(FinishTaskRequest::new("b")).unwrap();
    accounted(&again);
}

#[test]
fn exhausted_children_get_no_reservation_again() {
    let (clock, mut manager) = manager();
    start(&mut manager, "root", 100.0, None);
    start(&mut manager, "a", 2.0, Some("root"));
    start(&mut manager, "b", 5.0, Some("root"));
    clock.advance_secs(amount(3.0));
    manager.tick(TickRequest::new("a")).unwrap();
    assert_eq!(
        manager.get_task("root").unwrap().child_reserved_secs,
        Duration::from_secs(7)
    );
    let mut again = recovered(&dated(&manager));
    let root = again.get_task("root").unwrap();
    assert_eq!(root.child_reserved_secs, Duration::from_secs(5));
    assert_eq!(root.children.items, vec!["b".to_string()]);
    assert_eq!(again.get_task("a").unwrap().parent_id.as_deref(), Some("root"));
    assert_eq!(again.get_task("a").unwrap().status, TaskStatus::Exhausted);
    accounted(&again);
    // It has none to change or to give back either.
    again
        .adjust_task(AdjustTaskRequest::new("a").with_budget(amount(4.0)))
        .unwrap();
    assert_eq!(again.get_task("a").unwrap().budget_secs, Duration::from_secs(4));
    accounted(&again);
    again.finish_task(FinishTaskRequest::new("a")).unwrap();
    assert_eq!(
        again.get_task("root").unwrap().child_reserved_secs,
        Duration::from_secs(5)
    );
    accounted(&again);
    again.finish_task(FinishTaskRequest::new("b")).unwrap();
    assert_eq!(
        again.get_task("root").unwrap().child_reserved_secs,
        Duration::zero()
    );
    accounted(&again);
}

/// A finished root of 100 s whose child used up its 20 s before.
fn outlived() -> (ManualClock, TaskManager) {
    let (clock, mut manager) = manager();
    start(&mut manager, "root", 100.0, None);
    start(&mut manager, "child", 20.0, Some("root"));
    clock.advance_secs(amount(20.0));
    manager.tick(TickRequest::new("child")).unwrap();
    manager.finish_task(FinishTaskRequest::new("root")).unwrap();
    let root = manager.get_task("root").unwrap();
    assert_eq!(root.status, TaskStatus::Finished);
    assert_eq!(root.child_reserved_secs, Duration::from_secs(20));
    (clock, manager)
}

#[test]
fn a_child_that_outlives_its_parent_gives_its_reservation_back() {
    let (_, mut manager) = outlived();
    manager.finish_task(FinishTaskRequest::new("child")).unwrap();
    let root = manager.get_task("root").unwrap();
    assert_eq!(root.child_reserved_secs, Duration::zero());
}

#[test]
fn a_child_that_outlives_its_parent_moves_its_reservation() {
    let (_, mut manager) = outlived();
    let outcome = manager
        .adjust_task(AdjustTaskRequest::new("child").with_budget(amount(60.0)))
        .unwrap();
    assert_eq!(outcome.effective_budget_secs, Duration::from_secs(60));
    assert!(!outcome.clamped);
    let root = manager.get_task("root").unwrap();
    assert_eq!(root.child_reserved_secs, Duration::from_secs(60));
    // 80 s remain to the root, and of them it holds 12 percent back.
    let outcome = manager
        .adjust_task(AdjustTaskRequest::new("child").with_budget(amount(90.0)))
        .unwrap();
    assert_eq!(outcome.effective_budget_secs, Duration { nanos: 70_400_000_000 });
    assert!(outcome.clamped);
    manager.finish_task(FinishTaskRequest::new("child")).unwrap();
    let root = manager.get_task("root").unwrap();
    assert_eq!(root.child_reserved_secs, Duration::zero());
}

#[test]
fn a_forced_finish_keeps_what_was_reserved_for_those_it_lets_go() {
    let (clock, mut manager) = manager();
    start(&mut manager, "root", 100.0, None);
    start(&mut manager, "slow", 30.0, Some("root"));
    start(&mut manager, "quick", 5.0, Some("root"));
    clock.advance_secs(amount(5.0));
    manager.tick(TickRequest::new("quick")).unwrap();
    let mut forced = FinishTaskRequest::new("root");
    forced.force = true;
    manager.finish_task(forced).unwrap();
    let reserved = |manager: &TaskManager| manager.get_task("root").unwrap().child_reserved_secs;
    assert_eq!(reserved(&manager), Duration::from_secs(35));
    assert_eq!(manager.get_task("slow").unwrap().parent_id, None);
    manager
        .adjust_task(AdjustTaskRequest::new("slow").with_budget(amount(70.0)))
        .unwrap();
    assert_eq!(reserved(&manager), Duration::from_secs(35));
    manager.finish_task(FinishTaskRequest::new("quick")).unwrap();
    assert_eq!(reserved(&manager), Duration::from_secs(30));
    manager.finish_task(FinishTaskRequest::new("slow")).unwrap();
    assert_eq!(reserved(&manager), Duration::from_secs(30));
}

#[test]
fn adjustments_change_only_what_they_are_asked_to() {
    let (clock, mut manager) = manager();
    start(&mut manager, "root", 100.0, None);
    start(&mut manager, "t", 20.0, Some("root"));
    manager.checkpoint(plan("t")).unwrap();
    clock.advance_secs(amount(4.0));
    manager.tick(TickRequest::new("t")).unwrap();
    let before = manager.snapshot();
    manager
        .adjust_task(AdjustTaskRequest::new("t").with_budget(amount(33.0)))
        .unwrap();
    let mut after = manager.snapshot();
    assert_eq!(after.tasks[1].budget_secs, amount(33.0));
    after.tasks[1].budget_secs = amount(20.0);
    assert_eq!(after.tasks, before.tasks);
    let root = manager.get_task("root").unwrap();
    assert_eq!(root.child_reserved_secs, Duration::from_secs(33));
}

#[test]
fn metadata_are_compared_by_what_they_hold() {
    let pair = |name: &str, value: &str| (name.to_string(), value.to_string());
    let mut a = Metadata::new();
    a.insert("b", "old");
    a.insert("c", "3");
    a.insert("a", "1");
    a.insert("b", "2");
    let b = Metadata::from_list(vec![
        pair("c", "0"),
        pair("a", "1"),
        pair("b", "2"),
        pair("c", "3"),
    ]);
    assert_eq!(a, b);
    assert_eq!(a.clone(), b);
    assert_eq!(*a.entries(), vec![pair("a", "1"), pair("b", "2"), pair("c", "3")]);
    assert_eq!(a.get("b").map(String::as_str), Some("2"));
    assert_eq!(a.get("bb"), None);
    assert_ne!(a, Metadata::new());
    a.insert("c", "4");
    assert_ne!(a, b);
}

#[test]
fn refused_forced_finishes_change_nothing() {
    let (_, mut manager) = manager();
    start(&mut manager, "root", 100.0, None);
    start(&mut manager, "a", 20.0, Some("root"));
    let mut snapshot = dated(&manager);
    snapshot.tasks[1].status = TaskStatus::Finished;
    assert_eq!(snapshot.tasks[1].task_id, "root");
    let mut again = recovered(&snapshot);
    let before = again.list_tasks();
    assert_eq!(before[1].children.items, vec!["a".to_string()]);
    let mut forced = FinishTaskRequest::new("root");
    forced.force = true;
    assert_eq!(
        again.finish_task(forced).err(),
        Some(TaskError::NotActive("root".into()))
    );
    assert_eq!(again.list_tasks(), before);
    assert_eq!(again.get_task("a").unwrap().parent_id.as_deref(), Some("root"));
    assert_eq!(
        again.finish_task(FinishTaskRequest::new("root")).err(),
        Some(TaskError::ActiveChildren("root".into()))
    );
}

fn told(task_id: &str, progress: f64) -> CheckpointRequest {
    let mut request = CheckpointRequest::new(task_id);
    request.progress = Some(amount(progress));
    request
}

#[test]
fn progress_does_not_go_back_past_checkpoints_without_any() {
    let (_, mut manager) = manager();
    start(&mut manager, "p", 30.0, None);
    manager.checkpoint(plan("p")).unwrap();
    manager.checkpoint(told("p", 0.5)).unwrap();
    manager.checkpoint(CheckpointRequest::new("p")).unwrap();
    manager.tick(TickRequest::new("p")).unwrap();
    manager
        .adjust_task(AdjustTaskRequest::new("p").with_budget(amount(40.0)))
        .unwrap();
    manager.checkpoint(CheckpointRequest::new("p")).unwrap();
    let refusal = Some(TaskError::Invalid(
        "progress cannot decrease unless replan=true".into(),
    ));
    assert_eq!(manager.checkpoint(told("p", 0.4)).err(), refusal);
    // Nor across a restart, though the last checkpoint told none.
    let mut again = recovered(&dated(&manager));
    assert_eq!(again.snapshot().tasks[0].progress, Some(amount(0.5)));
    assert_eq!(again.get_task("p").unwrap().last_checkpoint.unwrap().progress, None);
    assert_eq!(again.checkpoint(told("p", 0.4)).err(), refusal);
    again.checkpoint(told("p", 0.5)).unwrap();
    let mut replanned = told("p", 0.2);
    replanned.replan = true;
    again.checkpoint(replanned).unwrap();
    assert_eq!(again.checkpoint(told("p", 0.1)).err(), refusal);
    again.checkpoint(told("p", 0.3)).unwrap();
}

#[test]
fn snapshots_without_progress_are_read_by_the_last_checkpoint() {
    let (_, mut manager) = manager();
    start(&mut manager, "p", 30.0, None);
    manager.checkpoint(plan("p")).unwrap();
    let mut snapshot = dated(&manager);
    assert_eq!(snapshot.tasks[0].progress, Some(amount(0.25)));
    snapshot.tasks[0].progress = None;
    let mut again = recovered(&snapshot);
    assert_eq!(
        again.checkpoint(told("p", 0.2)).err(),
        Some(TaskError::Invalid(
            "progress cannot decrease unless replan=true".into()
        ))
    );
    again.checkpoint(told("p", 0.3)).unwrap();
}

#[test]
fn snapshots_are_dated_by_the_wall_clock() {
    let millis = || {
        SystemTime::now()
            .duration_since(UNIX_EPOCH)
            .unwrap()
            .as_millis() as u64
    };
    let store = Arc::new(MemoryStore::new());
    let mut manager = TaskManager::with_store(ManualClock::new(), store.clone())
        .ok()
        .unwrap();
    let before = millis();
    start(&mut manager, "t", 10.0, None);
    let saved = store.state().unwrap().saved_at_unix_ms;
    let shown = manager.snapshot().saved_at_unix_ms;
    let after = millis();
    assert!(before <= saved && saved <= shown && shown <= after);
}

#[test]
fn downtime_exhausts_exactly_those_whose_time_it_uses_up() {
    let (_, mut manager) = manager();
    start(&mut manager, "long", 1e9, None);
    start(&mut manager, "short", 10.0, Some("long"));
    start(&mut manager, "wide", 1e8, Some("long"));
    let mut snapshot = manager.snapshot();
    snapshot.saved_at_unix_ms -= 60_000;
    let again = recovered(&snapshot);
    let short = again.get_task("short").unwrap();
    assert_eq!(short.status, TaskStatus::Exhausted);
    assert_eq!(short.parent_id.as_deref(), Some("long"));
    let wide = again.get_task("wide").unwrap();
    assert_eq!(wide.status, TaskStatus::Active);
    assert!(wide.elapsed_secs.nanos >= 60_000_000_000);
    let long = again.get_task("long").unwrap();
    assert_eq!(long.status, TaskStatus::Active);
    assert_eq!(long.children.items, vec!["wide".to_string()]);
    accounted(&again);
}

#[test]
fn lease_identifiers_tell_task_and_tick() {
    let ceiling = Duration::from_secs(5);
    let one = Some(Number { bits: 1.0_f64.to_bits() });
    let id = |task: &str, tick: u64| {
        issue_action_lease(task, tick, Some("write"), one, ceiling)
            .unwrap()
            .lease_id
    };
    let ids = [id("a", 1), id("a", 11), id("a:1", 1), id("a1", 1), id("a:", 1), id("a:1", 11)];
    for (i, first) in ids.iter().enumerate() {
        for second in &ids[i + 1..] {
            assert_ne!(first, second);
        }
    }
}
