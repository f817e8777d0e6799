use time_strike::advice::{issue_action_lease, validate_action_proposal};
use time_strike::plan::{completed_note, structured_plan, PlanStepInput};
use time_strike::session::{
    budget_used_percent, generated_task_id, is_switched_on, monotonic_host_deadline,
    parse_host_deadline, AdjustInput, CheckpointInput, FinishInput, Session, Settings, StartInput,
    TickInput,
};
use std::sync::atomic::{AtomicUsize, Ordering};
use std::sync::Arc;
use time_strike::{
    Amount, Duration, ManualClock, Number, PersistedState, SnapshotStore, TaskManager,
};

fn number(value: f64) -> Number {
    Number { bits: value.to_bits() }
}

fn value(number: Number) -> f64 {
    f64::from_bits(number.bits)
}

fn span(secs: f64) -> Duration {
    number(secs).amount().to_span()
}

#[test]
fn wall_deadline_is_converted_once_to_a_monotonic_instant() {
    let anchor = Duration::from_secs(5);
    let deadline = monotonic_host_deadline(Some(20_000), 10_000, anchor).unwrap();
    assert_eq!(deadline, Duration::from_secs(15));

    // A subsequent wall-clock rollback is irrelevant: only monotonic time is used after
    // initialization, so remaining time cannot increase.
    let wall_after_rollback = 1_000_u64;
    assert!(wall_after_rollback < 10_000);
    assert_eq!(
        deadline.saturating_sub(Duration::from_secs(6)),
        Duration::from_secs(9)
    );
    assert_eq!(
        deadline.saturating_sub(Duration::from_secs(7)),
        Duration::from_secs(8)
    );
}

#[test]
fn elapsed_wall_deadline_maps_to_the_monotonic_anchor() {
    let anchor = Duration::from_secs(5);
    assert_eq!(
        monotonic_host_deadline(Some(9_999), 10_000, anchor),
        Some(anchor)
    );
}

#[test]
fn structured_plan_is_bounded_and_derives_eta() {
    let steps = vec![
        PlanStepInput {
            action: "Inspect the failing path".into(),
            estimated_seconds: number(4.0),
            done_when: "the invariant is identified".into(),
        },
        PlanStepInput {
            action: "Apply and verify the minimal fix".into(),
            estimated_seconds: number(6.5),
            done_when: "the regression test passes".into(),
        },
    ];
    let plan = structured_plan(&steps, true).unwrap().unwrap();
    assert_eq!(value(plan.estimated_seconds), 10.5);
    assert!(plan.note.contains("1. Inspect the failing path"));
    assert!(plan.note.contains("done: the regression test passes"));
}

#[test]
fn structured_plan_rejects_non_auditable_shapes() {
    let one_step = vec![PlanStepInput {
        action: "Do everything".into(),
        estimated_seconds: number(1.0),
        done_when: "done".into(),
    }];
    assert!(structured_plan(&one_step, true).is_err());

    let invalid_estimate = vec![
        PlanStepInput {
            action: "Inspect".into(),
            estimated_seconds: number(f64::NAN),
            done_when: "cause known".into(),
        },
        PlanStepInput {
            action: "Verify".into(),
            estimated_seconds: number(1.0),
            done_when: "test passes".into(),
        },
    ];
    assert!(structured_plan(&invalid_estimate, true).is_err());
    assert!(structured_plan(&invalid_estimate, false).is_err());
}

#[test]
fn action_leases_are_bounded_and_unique_to_the_tick() {
    let lease =
        issue_action_lease("task", 7, Some("Inspect"), Some(number(4.0)), span(5.0)).unwrap();
    assert_eq!(lease.lease_id, "task:7");
    assert_eq!(lease.task_id, "task");
    assert_eq!(lease.action, "Inspect");
    assert_eq!(value(lease.duration_seconds), 4.0);
    assert_eq!(value(lease.expires_in_seconds), 5.0);
    assert_eq!(lease.expiry_anchor, "tick_request_started");
    assert!(lease.one_shot);
    assert!(issue_action_lease("task", 8, Some("Inspect"), Some(number(6.0)), span(5.0)).is_none());
    assert!(issue_action_lease("task", 8, None, Some(number(1.0)), span(5.0)).is_none());
    assert!(
        issue_action_lease("task", 8, Some("Inspect"), Some(number(1.0)), span(0.0009)).is_none()
    );
}

#[test]
fn invalid_action_proposals_fail_closed() {
    assert!(validate_action_proposal(Some(""), Some(number(1.0))).is_err());
    assert!(validate_action_proposal(Some("Inspect"), Some(number(-1.0))).is_err());
    assert!(validate_action_proposal(Some("Inspect"), Some(number(f64::NAN))).is_err());
    assert!(validate_action_proposal(Some(&"a".repeat(161)), Some(number(1.0))).is_err());
    assert!(validate_action_proposal(Some("Inspect"), Some(number(1.0))).is_ok());
}

fn amount(value: f64) -> Amount {
    number(value).amount()
}

fn settings() -> Settings {
    Settings {
        default_validation_percent: None,
        default_finalization_percent: None,
        default_verbose: false,
        allow_budget_increase: false,
        host_deadline: None,
    }
}

fn session(settings: Settings) -> (ManualClock, Session) {
    let clock = ManualClock::new();
    let session = Session::new(TaskManager::new(clock.clone()), settings);
    (clock, session)
}

fn start(id: Option<&str>, budget: f64) -> StartInput {
    StartInput {
        objective: Some("Fix the parser".into()),
        task_id: id.map(str::to_owned),
        budget_seconds: amount(budget),
        parent_task_id: None,
        validation_reserve_percent: None,
        finalization_reserve_percent: None,
        verbose: false,
    }
}

fn tick(action: Option<&str>, estimate: Option<f64>) -> TickInput {
    TickInput {
        task_id: None,
        progress_percent: None,
        estimated_remaining_work_seconds: None,
        current_action: action.map(str::to_owned),
        current_action_estimated_seconds: estimate.map(number),
        verbose: false,
    }
}

fn steps(seconds: &[f64]) -> Vec<PlanStepInput> {
    seconds
        .iter()
        .map(|seconds| PlanStepInput {
            action: " Change the code ".into(),
            estimated_seconds: number(*seconds),
            done_when: "the test passes".into(),
        })
        .collect()
}

fn checkpoint(steps: Vec<PlanStepInput>) -> CheckpointInput {
    CheckpointInput {
        task_id: None,
        progress_percent: None,
        estimated_remaining_work_seconds: None,
        completed: Vec::new(),
        note: None,
        plan_complete: !steps.is_empty(),
        plan_steps: steps,
        replan: false,
    }
}

fn adjust(add: Option<f64>, remove: Option<f64>, set: Option<f64>) -> AdjustInput {
    AdjustInput {
        task_id: None,
        add_seconds: add.map(amount),
        remove_seconds: remove.map(amount),
        set_total_seconds: set.map(amount),
    }
}

fn finish(force: bool) -> FinishInput {
    FinishInput {
        task_id: None,
        reason: None,
        force,
    }
}

#[test]
fn a_task_goes_from_plan_to_finish() {
    let (clock, mut session) = session(settings());
    let started = session.start_task(start(Some("t"), 100.0)).unwrap();
    assert_eq!(started.task_id, "t");
    assert_eq!(started.mode, "plan");
    assert_eq!(started.directive, "submit_plan");
    assert_eq!(started.deadline_authority, "agent_relative");
    assert_eq!(started.remaining_seconds.count, 100_000);
    assert_eq!(started.planning_budget_seconds.count, 5_000);
    assert_eq!(started.next_check_seconds.count, 5_000);
    assert_eq!(started.max_new_action_seconds.count, 0);
    assert!(!started.clamped);
    assert_eq!(started.reason, None);

    clock.advance_secs(amount(1.0));
    let early = session.tick(tick(Some("Search"), Some(1.0))).unwrap();
    assert!(early.must_plan);
    assert_eq!(early.mode, "plan");
    assert_eq!(early.directive, "submit_plan");
    assert_eq!(early.planning_seconds_remaining.count, 4_000);
    assert_eq!(early.action_fits, Some(false));
    assert_eq!(early.action_lease, None);

    let planned = session.checkpoint(checkpoint(steps(&[4.0, 6.5]))).unwrap();
    assert_eq!(planned.checkpoint_count, 1);
    assert_eq!(planned.plan_step_count, 2);
    assert_eq!(planned.mode, "explore");
    assert_eq!(planned.schedule, "on_track");
    assert_eq!(planned.remaining_seconds.count, 99_000);
    assert_eq!(planned.next_check_seconds.count, 25_000);

    let ticked = session.tick(tick(Some("  Run tests "), Some(10.0))).unwrap();
    assert_eq!(ticked.directive, "execute");
    assert_eq!(ticked.mode, "explore");
    assert_eq!(ticked.reserved_seconds.count, 20_000);
    assert_eq!(ticked.usable_work_seconds.count, 79_000);
    assert_eq!(ticked.max_new_action_seconds.count, 27_650);
    assert_eq!(ticked.action_lease_ceiling_seconds.count, 25_000);
    assert_eq!(ticked.remaining_percent.count, 99_000);
    assert_eq!(ticked.action_fits, Some(true));
    let lease = ticked.action_lease.unwrap();
    assert_eq!(lease.lease_id, "t:2");
    assert_eq!(lease.action, "Run tests");
    assert_eq!(value(lease.expires_in_seconds), 25.0);

    let long = session.tick(tick(Some("Run tests"), Some(26.0))).unwrap();
    assert_eq!(long.directive, "split_action");
    assert_eq!(long.action_lease, None);
    let unnamed = session.tick(tick(None, Some(26.0))).unwrap();
    assert_eq!(unnamed.action_fits, Some(true));
    assert_eq!(unnamed.action_lease, None);

    let adjusted = session.adjust_task(adjust(None, Some(10.0), None)).unwrap();
    assert_eq!(adjusted.total_budget_seconds.count, 90_000);
    assert_eq!(adjusted.remaining_seconds.count, 89_000);
    assert_eq!(adjusted.mode, "explore");
    assert!(!adjusted.clamped);

    clock.set_secs(amount(45.0));
    let finished = session.finish_task(finish(false)).unwrap();
    assert_eq!(finished.elapsed_seconds.count, 45_000);
    assert_eq!(finished.budget_seconds.count, 90_000);
    assert_eq!(finished.unused_seconds.count, 45_000);
    assert_eq!(finished.overrun_seconds.count, 0);
    assert_eq!(finished.budget_used_percent.unwrap().count, 50_000);
    assert_eq!(finished.checkpoints, 1);
    assert!(finished.deadline_met);
    assert_eq!(
        session.tick(tick(None, None)).unwrap_err(),
        "task_id required: no active task"
    );
}

#[test]
fn the_end_of_a_budget_is_told_step_by_step() {
    let (clock, mut session) = session(settings());
    session.start_task(start(Some("t"), 100.0)).unwrap();
    session.checkpoint(checkpoint(steps(&[1.0, 1.0]))).unwrap();
    let mut directive = |secs: f64| {
        clock.set_secs(amount(secs));
        session.tick(tick(None, None)).unwrap().directive
    };
    assert_eq!(directive(10.0), "execute");
    assert_eq!(directive(78.0), "converge_required_only");
    assert_eq!(directive(82.0), "validate");
    assert_eq!(directive(90.5), "finalize");
    assert_eq!(directive(100.0), "stop");
    let last = session.tick(tick(Some("Publish"), Some(0.1))).unwrap();
    assert_eq!(last.directive, "stop");
    assert_eq!(last.action_lease, None);
    clock.set_secs(amount(102.5));
    let late = session.tick(tick(None, None)).unwrap();
    assert_eq!(late.overrun_seconds.count, 2_500);
    assert_eq!(late.actual_elapsed_seconds.count, 102_500);
    assert_eq!(late.elapsed_seconds.count, 100_000);
    assert!(!late.deadline_met);
    let finished = session.finish_task(finish(false)).unwrap();
    assert_eq!(finished.budget_used_percent.unwrap().count, 102_500);
    assert_eq!(finished.unused_seconds.count, 0);
    assert!(!finished.deadline_met);
}

#[test]
fn requests_without_a_name_mean_the_task_started_last() {
    let (_, mut session) = session(settings());
    let none = "task_id required: no active task";
    assert_eq!(session.tick(tick(None, None)).unwrap_err(), none);
    assert_eq!(session.checkpoint(checkpoint(steps(&[1.0, 1.0]))).unwrap_err(), none);
    assert_eq!(session.adjust_task(adjust(None, None, None)).unwrap_err(), none);
    assert_eq!(session.finish_task(finish(false)).unwrap_err(), none);

    let first = session.start_task(start(None, 10.0)).unwrap().task_id;
    let second = session.start_task(start(None, 20.0)).unwrap().task_id;
    assert!(first.starts_with("pt-") && first.ends_with("-1"));
    assert!(second.starts_with("pt-") && second.ends_with("-2"));
    assert_eq!(generated_task_id(1_700_000_000_123, 7), "pt-1700000000123-7");
    assert_eq!(
        session.tick(tick(None, None)).unwrap().remaining_seconds.count,
        20_000
    );
    let named = FinishInput {
        task_id: Some(first),
        ..finish(false)
    };
    assert_eq!(session.finish_task(named).unwrap().budget_seconds.count, 10_000);
    // The task started last is still the active one.
    assert!(session.tick(tick(None, None)).is_ok());
}

#[test]
fn agents_have_no_privileges_of_hosts() {
    let (_, mut session) = session(settings());
    session.start_task(start(Some("t"), 100.0)).unwrap();
    assert_eq!(
        session.finish_task(finish(true)).unwrap_err(),
        "force is a host-only core privilege and cannot be requested over MCP"
    );
    let refused = "budget increase is disabled; only the host may grant more time";
    for input in [
        adjust(Some(1.0), None, None),
        adjust(None, Some(-1.0), None),
        adjust(None, None, Some(100.001)),
        adjust(Some(f64::INFINITY), None, None),
    ] {
        assert_eq!(session.adjust_task(input).unwrap_err(), refused);
    }
    let unclear = "provide exactly one of add_seconds, remove_seconds, set_total_seconds";
    assert_eq!(session.adjust_task(adjust(None, None, None)).unwrap_err(), unclear);
    assert_eq!(
        session.adjust_task(adjust(Some(1.0), Some(1.0), None)).unwrap_err(),
        unclear
    );
    let invalid = "invalid request: budget_secs must be finite and > 0";
    for input in [
        adjust(None, Some(100.0), None),
        adjust(None, Some(f64::INFINITY), None),
        adjust(None, None, Some(f64::NAN)),
    ] {
        assert_eq!(session.adjust_task(input).unwrap_err(), invalid);
    }
    let missing = AdjustInput {
        task_id: Some("x".into()),
        ..adjust(None, Some(1.0), None)
    };
    assert_eq!(session.adjust_task(missing).unwrap_err(), "task not found: x");
    assert_eq!(
        session.tick(tick(None, None)).unwrap().remaining_seconds.count,
        100_000
    );
}

#[test]
fn hosts_may_allow_more_time_but_not_beyond_their_deadline() {
    let (clock, mut session) = session(Settings {
        allow_budget_increase: true,
        host_deadline: Some(Duration::from_secs(50)),
        ..settings()
    });
    let started = session.start_task(start(Some("t"), 20.0)).unwrap();
    assert_eq!(started.deadline_authority, "host_absolute");
    assert!(!started.clamped);
    let adjusted = session.adjust_task(adjust(Some(10.0), None, None)).unwrap();
    assert_eq!(adjusted.total_budget_seconds.count, 30_000);
    clock.set_secs(amount(5.0));
    let adjusted = session.adjust_task(adjust(None, None, Some(500.0))).unwrap();
    assert!(adjusted.clamped);
    assert_eq!(adjusted.total_budget_seconds.count, 50_000);
    let started = session.start_task(start(Some("u"), 100.0)).unwrap();
    assert!(started.clamped);
    assert_eq!(started.remaining_seconds.count, 45_000);
    clock.set_secs(amount(50.0));
    assert_eq!(
        session.start_task(start(Some("v"), 1.0)).unwrap_err(),
        "no budget available for task: v"
    );
}

#[test]
fn reserves_come_from_the_request_or_the_host() {
    let (_, mut session) = session(Settings {
        default_validation_percent: Some(amount(20.0)),
        default_finalization_percent: Some(amount(f64::NEG_INFINITY)),
        default_verbose: true,
        ..settings()
    });
    let started = session.start_task(start(Some("t"), 100.0)).unwrap();
    assert_eq!(started.reason, Some("exploration_window"));
    let ticked = session.tick(tick(None, None)).unwrap();
    assert_eq!(ticked.reserved_seconds.count, 23_000);
    assert_eq!(ticked.reason, Some("exploration_window"));
    session
        .start_task(StartInput {
            validation_reserve_percent: Some(amount(12.5)),
            finalization_reserve_percent: Some(amount(7.25)),
            ..start(Some("u"), 100.0)
        })
        .unwrap();
    let ticked = session.tick(tick(None, None)).unwrap();
    assert_eq!(ticked.reserved_seconds.count, 19_750);
}

#[test]
fn refused_requests_say_why() {
    let (_, mut session) = session(settings());
    session.start_task(start(Some("t"), 100.0)).unwrap();
    assert_eq!(
        session.start_task(start(Some("t"), 1.0)).unwrap_err(),
        "task already exists: t"
    );
    assert_eq!(
        session.checkpoint(checkpoint(Vec::new())).unwrap_err(),
        "invalid request: first checkpoint must submit a compact execution plan"
    );
    assert_eq!(
        session.tick(tick(Some(" "), Some(1.0))).unwrap_err(),
        "current_action must not be empty"
    );
    assert_eq!(
        session.tick(tick(Some(&"a".repeat(161)), None)).unwrap_err(),
        "current_action must be at most 160 characters"
    );
    assert_eq!(
        session.tick(tick(None, Some(0.0))).unwrap_err(),
        "current_action_estimated_seconds must be finite and > 0"
    );
    let progress = CheckpointInput {
        progress_percent: Some(amount(100.5)),
        ..checkpoint(steps(&[1.0, 1.0]))
    };
    assert_eq!(
        session.checkpoint(progress).unwrap_err(),
        "invalid request: checkpoint progress must be between 0 and 1"
    );
}

#[test]
fn plans_are_checked_step_by_step() {
    let fault = |steps: Vec<PlanStepInput>, complete: bool| structured_plan(&steps, complete).unwrap_err();
    assert_eq!(structured_plan(&Vec::new(), false), Ok(None));
    assert_eq!(fault(steps(&[1.0]), false), "plan_steps requires plan_complete=true");
    assert_eq!(fault(steps(&[1.0]), true), "plan_steps must contain between 2 and 8 steps");
    assert_eq!(fault(steps(&[1.0; 9]), true), "plan_steps must contain between 2 and 8 steps");
    assert_eq!(
        fault(steps(&[1.0, 0.0]), true),
        "plan_steps[1].estimated_seconds must be finite and > 0"
    );
    assert_eq!(
        fault(steps(&[f64::MAX, f64::MAX]), true),
        "plan_steps estimated_seconds total is not finite"
    );
    let mut empty = steps(&[1.0, 1.0]);
    empty[0].done_when = "  ".into();
    assert_eq!(fault(empty, true), "plan_steps[0] requires non-empty action and done_when");
    let mut long = steps(&[1.0, 1.0]);
    long[1].action = "a".repeat(161);
    assert_eq!(
        fault(long, true),
        "plan_steps[1] action and done_when must each be at most 160 characters"
    );
    let plan = structured_plan(&steps(&[4.0, 1.2345]), true).unwrap().unwrap();
    assert_eq!(
        plan.note,
        "1. Change the code [4s; done: the test passes] 2. Change the code [1.235s; done: the test passes]"
    );
    assert_eq!(value(plan.estimated_seconds), 4.0 + 1.2345);
}

#[test]
fn completed_items_make_a_short_note() {
    assert_eq!(completed_note(&Vec::new()), None);
    let items: Vec<String> = ["read", &"x".repeat(70), "c", "d", "e"]
        .iter()
        .map(|item| item.to_string())
        .collect();
    assert_eq!(
        completed_note(&items),
        Some(format!("read; {}; c; d", "x".repeat(64)))
    );
}

#[test]
fn settings_are_read_from_texts() {
    for value in ["1", "true", "TRUE", "Yes"] {
        assert!(is_switched_on(value));
    }
    for value in ["", "0", " true", "on", "01"] {
        assert!(!is_switched_on(value));
    }
    let error =
        "TIME_STRIKE_DEADLINE_UNIX_MS must be an unsigned Unix timestamp in milliseconds";
    assert_eq!(parse_host_deadline(None), Ok(None));
    assert_eq!(parse_host_deadline(Some("1700000000000")), Ok(Some(1_700_000_000_000)));
    assert_eq!(parse_host_deadline(Some("+5")), Ok(Some(5)));
    assert_eq!(
        parse_host_deadline(Some("18446744073709551615")),
        Ok(Some(u64::MAX))
    );
    for value in ["", "+", "-1", "1.5", " 1", "18446744073709551616"] {
        assert_eq!(parse_host_deadline(Some(value)), Err(error.to_string()));
    }
    assert_eq!(monotonic_host_deadline(None, 5, Duration::zero()), None);
}

#[test]
fn used_budgets_are_told_in_percent() {
    let secs = Duration::from_secs;
    assert_eq!(budget_used_percent(secs(1), secs(3)).unwrap().count, 33_333);
    assert_eq!(budget_used_percent(secs(2), secs(3)).unwrap().count, 66_667);
    assert_eq!(budget_used_percent(secs(0), secs(3)).unwrap().count, 0);
    assert_eq!(budget_used_percent(secs(1), Duration::zero()), None);
}

/// Counts the snapshots that it is handed, and refuses them once it is full.
struct Tally {
    handed: AtomicUsize,
    room: usize,
}

impl SnapshotStore for Tally {
    fn save(&self, _: &PersistedState) -> Result<(), String> {
        if self.handed.fetch_add(1, Ordering::SeqCst) < self.room {
            Ok(())
        } else {
            Err("full".into())
        }
    }

    fn load(&self) -> Result<Option<PersistedState>, String> {
        Ok(None)
    }
}

#[test]
fn each_change_is_handed_to_the_store_once() {
    let store = Arc::new(Tally {
        handed: AtomicUsize::new(0),
        room: 4,
    });
    let manager = TaskManager::with_store(ManualClock::new(), store.clone())
        .ok()
        .unwrap();
    let mut session = Session::new(manager, settings());
    let count = || store.handed.load(Ordering::SeqCst);
    let checkpoint = CheckpointInput {
        task_id: None,
        progress_percent: None,
        estimated_remaining_work_seconds: None,
        completed: vec![],
        note: None,
        plan_steps: steps(&[4.0, 6.0]),
        plan_complete: true,
        replan: false,
    };
    let shorter = |seconds: f64| AdjustInput {
        task_id: None,
        add_seconds: None,
        remove_seconds: Some(amount(seconds)),
        set_total_seconds: None,
    };
    let finish = |force: bool| FinishInput {
        task_id: None,
        reason: None,
        force,
    };
    assert!(session.checkpoint(checkpoint.clone()).is_err());
    assert!(session.start_task(start(Some("t"), -1.0)).is_err());
    assert_eq!(count(), 0);
    session.start_task(start(Some("t"), 60.0)).unwrap();
    assert_eq!(count(), 1);
    assert!(session.start_task(start(Some("t"), 60.0)).is_err());
    session.tick(tick(None, None)).unwrap();
    assert_eq!(count(), 1);
    session.checkpoint(checkpoint).unwrap();
    assert_eq!(count(), 2);
    session.adjust_task(shorter(5.0)).unwrap();
    assert_eq!(count(), 3);
    assert!(session.adjust_task(shorter(-5.0)).is_err());
    assert!(session.finish_task(finish(true)).is_err());
    assert_eq!(count(), 3);
    session.finish_task(finish(false)).unwrap();
    assert_eq!(count(), 4);
    // A change that the store does not take is handed over once, and taken back.
    assert!(session.start_task(start(Some("u"), 60.0)).is_err());
    assert_eq!(count(), 5);
    assert!(session.tick(tick(None, None)).is_err());
    assert_eq!(count(), 5);
}
