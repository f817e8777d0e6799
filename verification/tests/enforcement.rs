use time_strike::enforcement::{ActionLeaseError, ActionLeaseGrant, ActionLeaseLedger};
use time_strike::{Duration, Number};

fn number(value: f64) -> Number {
    Number { bits: value.to_bits() }
}

fn grant(id: &str, task: &str, action: &str, seconds: f64) -> ActionLeaseGrant {
    ActionLeaseGrant {
        lease_id: id.into(),
        task_id: task.into(),
        action: action.into(),
        duration_seconds: number(seconds),
        expires_in_seconds: number(5.0),
        expiry_anchor: "tick_request_started".into(),
        one_shot: true,
    }
}

#[test]
fn one_shot_lease_rejects_replay() {
    let mut ledger = ActionLeaseLedger::new(Duration::from_secs(20));
    let lease = grant("lease-1", "task-1", "write output", 2.0);
    ledger
        .register(Duration::from_secs(1), "task-1", "write output", number(2.0), &lease)
        .unwrap();
    ledger
        .consume("lease-1", "task-1", "write output", number(2.0), Duration::from_secs(2))
        .unwrap();
    assert_eq!(
        ledger.consume(
            "lease-1",
            "task-1",
            "write output",
            number(2.0),
            Duration::from_secs(2)
        ),
        Err(ActionLeaseError::AlreadyConsumed)
    );
}

#[test]
fn binding_failure_does_not_burn_the_valid_lease() {
    let mut ledger = ActionLeaseLedger::new(Duration::from_secs(20));
    let lease = grant("lease-1", "task-1", "write output", 2.0);
    assert_eq!(
        ledger.register(Duration::zero(), "other-task", "write output", number(2.0), &lease),
        Err(ActionLeaseError::BindingMismatch("task_id"))
    );
    ledger
        .register(Duration::zero(), "task-1", "write output", number(2.0), &lease)
        .unwrap();
    assert_eq!(
        ledger.consume(
            "lease-1",
            "other-task",
            "write output",
            number(2.0),
            Duration::from_secs(1)
        ),
        Err(ActionLeaseError::BindingMismatch("task_id"))
    );
    assert_eq!(
        ledger.consume(
            "lease-1",
            "task-1",
            "search again",
            number(2.0),
            Duration::from_secs(1)
        ),
        Err(ActionLeaseError::BindingMismatch("action"))
    );
    ledger
        .consume("lease-1", "task-1", "write output", number(2.0), Duration::from_secs(1))
        .unwrap();
}

#[test]
fn duplicate_registration_does_not_replace_active_authority() {
    let mut ledger = ActionLeaseLedger::new(Duration::from_secs(20));
    let lease = grant("lease-1", "task-1", "write", 1.0);
    ledger
        .register(Duration::zero(), "task-1", "write", number(1.0), &lease)
        .unwrap();
    assert_eq!(
        ledger.register(Duration::zero(), "task-1", "write", number(1.0), &lease),
        Err(ActionLeaseError::DuplicateLease)
    );
    ledger
        .consume("lease-1", "task-1", "write", number(1.0), Duration::zero())
        .unwrap();
}

#[test]
fn unrepresentable_duration_fails_closed_without_panicking() {
    let mut ledger = ActionLeaseLedger::new(Duration::from_secs(20));
    let mut lease = grant("lease-1", "task-1", "write", 1.0);
    lease.duration_seconds = number(f64::MAX);
    lease.expires_in_seconds = number(f64::MAX);
    assert_eq!(
        ledger.register(Duration::zero(), "task-1", "write", number(f64::MAX), &lease),
        Err(ActionLeaseError::InvalidLease("duration_seconds"))
    );
}

#[test]
fn newer_lease_supersedes_unconsumed_authority() {
    let mut ledger = ActionLeaseLedger::new(Duration::from_secs(20));
    let old = grant("old", "task-1", "inspect", 1.0);
    let new = grant("new", "task-1", "write", 1.0);
    ledger
        .register(Duration::zero(), "task-1", "inspect", number(1.0), &old)
        .unwrap();
    ledger
        .register(Duration::zero(), "task-1", "write", number(1.0), &new)
        .unwrap();
    assert_eq!(
        ledger.consume("old", "task-1", "inspect", number(1.0), Duration::zero()),
        Err(ActionLeaseError::Superseded)
    );
    ledger
        .consume("new", "task-1", "write", number(1.0), Duration::zero())
        .unwrap();
}

#[test]
fn hard_deadline_clamps_relative_expiry() {
    let mut ledger = ActionLeaseLedger::new(Duration::from_secs(4));
    let lease = grant("lease-1", "task-1", "write", 2.0);
    ledger
        .register(Duration::zero(), "task-1", "write", number(2.0), &lease)
        .unwrap();
    assert_eq!(
        ledger.consume(
            "lease-1",
            "task-1",
            "write",
            number(2.0),
            Duration::from_secs(3)
        ),
        Err(ActionLeaseError::WouldExceedDeadline)
    );
    ledger
        .consume(
            "lease-1",
            "task-1",
            "write",
            number(2.0),
            Duration::from_secs(2),
        )
        .unwrap();
}

fn ledger() -> ActionLeaseLedger {
    ActionLeaseLedger::new(Duration::from_secs(20))
}

fn register(ledger: &mut ActionLeaseLedger, lease: &ActionLeaseGrant) -> Result<(), ActionLeaseError> {
    ledger.register(
        Duration::from_secs(1),
        &lease.task_id,
        &lease.action,
        lease.duration_seconds,
        lease,
    )
}

fn consume(ledger: &mut ActionLeaseLedger, id: &str, task: &str) -> Result<(), ActionLeaseError> {
    ledger.consume(id, task, "write", number(1.0), Duration::from_secs(2))
}

#[test]
fn revoked_tasks_get_no_more_authority() {
    let mut ledger = ledger();
    register(&mut ledger, &grant("one", "a", "write", 1.0)).unwrap();
    register(&mut ledger, &grant("other", "b", "write", 1.0)).unwrap();
    ledger.revoke_task("a").unwrap();
    ledger.revoke_task("a").unwrap();
    assert_eq!(consume(&mut ledger, "one", "a"), Err(ActionLeaseError::Revoked));
    assert_eq!(
        register(&mut ledger, &grant("two", "a", "write", 1.0)),
        Err(ActionLeaseError::Revoked)
    );
    // The other task keeps its lease, and can get more.
    consume(&mut ledger, "other", "b").unwrap();
    register(&mut ledger, &grant("more", "b", "write", 1.0)).unwrap();
    assert_eq!(
        ledger.revoke_task("  "),
        Err(ActionLeaseError::BindingMismatch("task_id"))
    );
    assert_eq!(
        ledger.revoke_task(&"x".repeat(257)),
        Err(ActionLeaseError::BindingMismatch("task_id"))
    );
}

#[test]
fn spent_and_superseded_leases_are_told_apart() {
    let mut ledger = ledger();
    assert_eq!(consume(&mut ledger, "one", "a"), Err(ActionLeaseError::UnknownLease));
    register(&mut ledger, &grant("one", "a", "write", 1.0)).unwrap();
    consume(&mut ledger, "one", "a").unwrap();
    register(&mut ledger, &grant("two", "a", "write", 1.0)).unwrap();
    register(&mut ledger, &grant("three", "a", "write", 1.0)).unwrap();
    assert_eq!(consume(&mut ledger, "one", "a"), Err(ActionLeaseError::AlreadyConsumed));
    assert_eq!(consume(&mut ledger, "two", "a"), Err(ActionLeaseError::Superseded));
    assert_eq!(
        register(&mut ledger, &grant("one", "a", "write", 1.0)),
        Err(ActionLeaseError::DuplicateLease)
    );
    consume(&mut ledger, "three", "a").unwrap();
}

#[test]
fn every_field_of_a_grant_is_checked() {
    let sound = || grant("one", "a", "write", 1.0);
    let mut cases: Vec<(ActionLeaseGrant, &'static str)> = Vec::new();
    for id in ["", " ", &"x".repeat(513)] {
        cases.push((ActionLeaseGrant { lease_id: id.into(), ..sound() }, "lease_id"));
    }
    for task in ["", " ", &"x".repeat(257)] {
        cases.push((ActionLeaseGrant { task_id: task.into(), ..sound() }, "task_id"));
    }
    for action in ["", " write", &"x".repeat(161)] {
        cases.push((ActionLeaseGrant { action: action.into(), ..sound() }, "action"));
    }
    for seconds in [0.0, -1.0, f64::NAN, f64::INFINITY, 5.001] {
        cases.push((
            ActionLeaseGrant { duration_seconds: number(seconds), ..sound() },
            "duration_seconds",
        ));
    }
    for seconds in [0.0, f64::NAN, 1e30] {
        cases.push((
            ActionLeaseGrant { expires_in_seconds: number(seconds), ..sound() },
            "expires_in_seconds",
        ));
    }
    cases.push((
        ActionLeaseGrant { expiry_anchor: "tick_response".into(), ..sound() },
        "expiry_anchor",
    ));
    cases.push((ActionLeaseGrant { one_shot: false, ..sound() }, "one_shot"));
    for (lease, field) in cases {
        assert_eq!(
            register(&mut ledger(), &lease),
            Err(ActionLeaseError::InvalidLease(field))
        );
    }
    let late = Duration::from_nanos(u64::MAX).saturating_add(Duration::from_secs(u64::MAX - 20_000_000_000));
    assert_eq!(
        ActionLeaseLedger::new(late).register(late, "a", "write", number(1.0), &sound()),
        Err(ActionLeaseError::Expired)
    );
    register(&mut ledger(), &sound()).unwrap();
}

#[test]
fn grants_must_answer_the_proposal() {
    let lease = grant("one", "a", "write", 1.0);
    let mut ledger = ledger();
    let mut answer = |task: &str, action: &str, eta: f64| {
        ledger.register(Duration::from_secs(1), task, action, number(eta), &lease)
    };
    let mismatch = |field| Err(ActionLeaseError::BindingMismatch(field));
    assert_eq!(answer("a", "  ", 1.0), mismatch("action"));
    assert_eq!(answer("", "write", 1.0), mismatch("task_id"));
    assert_eq!(answer("b", "write", 1.0), mismatch("task_id"));
    assert_eq!(answer("a", "read", 1.0), mismatch("action"));
    assert_eq!(answer("a", "write", 2.0), mismatch("duration_seconds"));
    assert_eq!(answer("a", "write", f64::NAN), mismatch("duration_seconds"));
    assert_eq!(answer("a", " write ", 1.0), Ok(()));
    let mut consume = |action: &str, eta: f64| {
        ledger.consume("one", "a", action, number(eta), Duration::from_secs(2))
    };
    assert_eq!(consume("", 1.0), mismatch("action"));
    assert_eq!(consume("write", 0.0), mismatch("duration_seconds"));
    assert_eq!(consume("write", 1.5), mismatch("duration_seconds"));
    assert_eq!(consume(" write ", 1.0), Ok(()));
}

#[test]
fn leases_end_in_time() {
    let lease = grant("one", "a", "write", 1.0);
    let mut ledger = ActionLeaseLedger::new(Duration::from_secs(20));
    register(&mut ledger, &lease).unwrap();
    // It was requested at one second and holds for five.
    let mut at = |nanos: u64| {
        ledger.consume("one", "a", "write", number(1.0), Duration::from_nanos(nanos))
    };
    assert_eq!(at(6_000_000_000), Err(ActionLeaseError::Expired));
    assert_eq!(at(5_000_000_001), Err(ActionLeaseError::WouldExceedDeadline));
    assert_eq!(at(5_000_000_000), Ok(()));
    assert_eq!(
        ActionLeaseLedger::new(Duration::from_secs(1)).register(
            Duration::from_secs(1),
            "a",
            "write",
            number(1.0),
            &lease
        ),
        Err(ActionLeaseError::Expired)
    );
}

#[test]
fn lease_errors_are_told_in_one_line() {
    let lines = [
        (ActionLeaseError::InvalidLease("action"), "invalid action lease field: action"),
        (ActionLeaseError::DuplicateLease, "action lease identifier already registered"),
        (ActionLeaseError::UnknownLease, "action lease is not registered"),
        (ActionLeaseError::Superseded, "action lease was superseded"),
        (ActionLeaseError::AlreadyConsumed, "action lease was already consumed"),
        (ActionLeaseError::BindingMismatch("task_id"), "action lease binding mismatch: task_id"),
    ];
    for (error, line) in lines {
        assert_eq!(error.message(), line);
    }
}
