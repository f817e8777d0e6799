use time_strike::policy::{
    adaptive_reserve_percents, evaluate_time_policy, PolicyDecision, PolicyInput, ScheduleStatus,
    TimeMode,
};
use time_strike::{Amount, Duration, Number};

fn amount(value: f64) -> Amount {
    Number { bits: value.to_bits() }.amount()
}

fn at(total: f64, elapsed: f64, progress: Option<f64>) -> PolicyDecision {
    evaluate_time_policy(PolicyInput {
        total_secs: amount(total),
        elapsed_secs: amount(elapsed),
        progress_percent: progress.map(amount),
        ..PolicyInput::default()
    })
}

#[test]
fn required_scenarios() {
    let a = at(1800.0, 600.0, Some(45.0));
    assert_eq!(a.mode, TimeMode::Execute);
    assert!(matches!(
        a.schedule,
        ScheduleStatus::Ahead | ScheduleStatus::OnTrack
    ));

    let b = at(1800.0, 1200.0, Some(20.0));
    assert_eq!(b.mode, TimeMode::Converge);
    assert!(matches!(
        b.schedule,
        ScheduleStatus::Behind | ScheduleStatus::Critical
    ));

    assert_eq!(at(1800.0, 1620.0, None).mode, TimeMode::Finalize);
    assert_eq!(at(1800.0, 1780.0, None).mode, TimeMode::Emergency);
    let expired = at(1800.0, 1800.0, None);
    assert_eq!(expired.mode, TimeMode::Expired);
    assert!(expired.must_stop);
}

#[test]
fn transitions_and_edges_are_safe() {
    let total = 1000.0;
    let modes = [
        at(total, 0.0, None).mode,
        at(total, 300.0, None).mode,
        at(total, 760.0, None).mode,
        at(total, 860.0, None).mode,
        at(total, 930.0, None).mode,
        at(total, 985.0, None).mode,
        at(total, 1000.0, None).mode,
    ];
    assert_eq!(modes[0], TimeMode::Explore);
    assert_eq!(modes[1], TimeMode::Execute);
    assert!(modes.contains(&TimeMode::Converge));
    assert!(modes.contains(&TimeMode::Validate));
    assert!(modes.contains(&TimeMode::Finalize));
    assert!(modes.contains(&TimeMode::Emergency));
    assert_eq!(modes[6], TimeMode::Expired);
    for budget in [1.0, 10.0, 300.0, 28_800.0, 259_200.0] {
        let decision = at(budget, budget * 2.0, Some(0.0));
        assert_eq!(decision.remaining_secs.nanos as f64, 0.0);
        assert!(decision.must_stop);
    }
}

fn whole() -> PolicyInput {
    PolicyInput {
        total_secs: amount(1000.0),
        ..PolicyInput::default()
    }
}

fn millis(decision: &PolicyDecision) -> [u128; 6] {
    [
        decision.remaining_secs,
        decision.validation_reserve_secs,
        decision.finalization_reserve_secs,
        decision.reserved_secs,
        decision.max_new_action_secs,
        decision.next_check_secs,
    ]
    .map(|span| span.nanos / 1_000_000)
}

#[test]
fn every_mode_has_its_limits() {
    let cases = [
        (0.0, TimeMode::Explore, 297_500, 120_000, "exploration_window"),
        (300.0, TimeMode::Execute, 165_000, 120_000, "execution_window"),
        (760.0, TimeMode::Converge, 22_500, 22_500, "schedule_pressure"),
        (860.0, TimeMode::Validate, 90_000, 25_000, "validation_reserve"),
        (930.0, TimeMode::Finalize, 15_000, 15_000, "finalization_window"),
        (985.0, TimeMode::Emergency, 5_000, 5_000, "emergency_window"),
        (1000.0, TimeMode::Expired, 0, 0, "hard_deadline_reached"),
    ];
    for (elapsed, mode, action, check, reason) in cases {
        let decision = at(1000.0, elapsed, None);
        assert_eq!(decision.mode, mode);
        assert_eq!(decision.reason, reason);
        let remaining = 1_000_000 - (elapsed as u128) * 1_000;
        assert_eq!(
            millis(&decision),
            [remaining, 100_000, 50_000, 150_000, action, check]
        );
        assert_eq!(decision.remaining_percent, remaining * 100_000);
        assert_eq!(
            decision.usable_work_secs.nanos / 1_000_000,
            remaining.saturating_sub(150_000)
        );
        assert_eq!(decision.must_stop, mode == TimeMode::Expired);
        assert_eq!(decision.must_validate, mode == TimeMode::Validate);
    }
}

#[test]
fn reserves_shrink_with_the_total_and_keep_their_limits() {
    let percents = |secs: f64| {
        let (validation, finalization) = adaptive_reserve_percents(amount(secs));
        (validation / 1_000_000_000, finalization / 1_000_000_000)
    };
    assert_eq!(percents(-1.0), (15, 10));
    assert_eq!(percents(60.0), (15, 10));
    assert_eq!(percents(600.0), (12, 8));
    assert_eq!(percents(14_400.0), (10, 5));
    assert_eq!(percents(28_800.0), (8, 4));
    assert_eq!(percents(28_800.001), (6, 3));
    assert_eq!(percents(f64::NEG_INFINITY), (15, 10));
    assert_eq!(percents(f64::INFINITY), (6, 3));
    assert_eq!(percents(f64::NAN), (6, 3));
    for (asked, validation, finalization) in [
        (-1.0, 50_000, 30_000),
        (10.0, 100_000, 100_000),
        (100.0, 400_000, 250_000),
        (f64::INFINITY, 400_000, 250_000),
        (f64::NEG_INFINITY, 50_000, 30_000),
    ] {
        let decision = evaluate_time_policy(PolicyInput {
            validation_reserve_percent: Some(amount(asked)),
            finalization_reserve_percent: Some(amount(asked)),
            ..whole()
        });
        assert_eq!(decision.validation_reserve_secs.nanos / 1_000_000, validation);
        assert_eq!(decision.finalization_reserve_secs.nanos / 1_000_000, finalization);
    }
}

#[test]
fn reserves_that_are_no_numbers_hold_everything_back() {
    let decision = evaluate_time_policy(PolicyInput {
        validation_reserve_percent: Some(amount(f64::NAN)),
        ..whole()
    });
    assert_eq!(decision.mode, TimeMode::Validate);
    assert_eq!(decision.schedule, ScheduleStatus::Critical);
    assert_eq!(decision.usable_work_secs.nanos, 0);
    assert_eq!(decision.reserved_secs, Duration::from_secs(1000));
    assert_eq!(decision.max_new_action_secs, Duration::from_secs(120));
    let decision = evaluate_time_policy(PolicyInput {
        finalization_reserve_percent: Some(amount(f64::NAN)),
        ..whole()
    });
    assert_eq!(decision.mode, TimeMode::Validate);
    assert_eq!(decision.max_new_action_secs.nanos, 0);
    assert_eq!(decision.next_check_secs.nanos, 250_000_000);
}

#[test]
fn estimates_and_progress_tell_the_schedule() {
    let schedule = |progress: Option<f64>, eta: Option<f64>| {
        evaluate_time_policy(PolicyInput {
            elapsed_secs: amount(425.0),
            progress_percent: progress.map(amount),
            estimated_remaining_work_secs: eta.map(amount),
            ..whole()
        })
        .schedule
    };
    // Half of the 850 seconds of work are used.
    assert_eq!(schedule(Some(62.0), None), ScheduleStatus::Ahead);
    assert_eq!(schedule(Some(61.9), None), ScheduleStatus::OnTrack);
    assert_eq!(schedule(Some(38.0), None), ScheduleStatus::OnTrack);
    assert_eq!(schedule(Some(37.9), None), ScheduleStatus::Behind);
    assert_eq!(schedule(Some(20.0), None), ScheduleStatus::Behind);
    assert_eq!(schedule(Some(19.9), None), ScheduleStatus::Critical);
    assert_eq!(schedule(Some(f64::INFINITY), None), ScheduleStatus::Ahead);
    assert_eq!(schedule(Some(f64::NEG_INFINITY), None), ScheduleStatus::Critical);
    assert_eq!(schedule(Some(f64::NAN), None), ScheduleStatus::OnTrack);
    assert_eq!(schedule(Some(100.0), Some(425.0)), ScheduleStatus::Ahead);
    assert_eq!(schedule(Some(100.0), Some(425.1)), ScheduleStatus::Critical);
    assert_eq!(schedule(Some(100.0), Some(f64::INFINITY)), ScheduleStatus::Critical);
    assert_eq!(schedule(None, Some(f64::NAN)), ScheduleStatus::OnTrack);
    assert_eq!(ScheduleStatus::OnTrack.as_str(), "on_track");
}

#[test]
fn times_that_are_no_numbers_are_safe() {
    assert_eq!(at(f64::NAN, 0.0, None).remaining_secs.nanos, 1_000_000);
    assert_eq!(at(f64::NEG_INFINITY, 0.0, None).remaining_secs.nanos, 1_000_000);
    assert!(at(1000.0, f64::NAN, None).must_stop);
    assert!(at(1000.0, f64::INFINITY, None).must_stop);
    assert_eq!(at(1000.0, f64::NEG_INFINITY, None).mode, TimeMode::Explore);
}

#[test]
fn time_alone_never_takes_pressure_off() {
    let urgency = |mode: TimeMode| {
        [
            TimeMode::Explore,
            TimeMode::Execute,
            TimeMode::Converge,
            TimeMode::Validate,
            TimeMode::Finalize,
            TimeMode::Emergency,
            TimeMode::Expired,
        ]
        .iter()
        .position(|other| *other == mode)
    };
    for total in [1.0, 20.0, 700.0, 50_000.0] {
        let mut last = urgency(TimeMode::Explore);
        for step in 0..=100 {
            let decision = at(total, total * step as f64 / 100.0, None);
            assert!(urgency(decision.mode) >= last);
            assert!(decision.max_new_action_secs <= decision.remaining_secs);
            assert!(decision.next_check_secs <= decision.remaining_secs);
            last = urgency(decision.mode);
        }
        assert_eq!(last, urgency(TimeMode::Expired));
        for (progress, eta) in [(0.0, 1.0), (40.0, total / 3.0), (95.0, total), (60.0, f64::NAN)] {
            let mut last = urgency(TimeMode::Explore);
            for step in 0..=100 {
                let decision = evaluate_time_policy(PolicyInput {
                    elapsed_secs: amount(total * step as f64 / 100.0),
                    total_secs: amount(total),
                    progress_percent: Some(amount(progress)),
                    estimated_remaining_work_secs: Some(amount(eta)),
                    validation_reserve_percent: None,
                    finalization_reserve_percent: None,
                });
                assert!(urgency(decision.mode) >= last);
                last = urgency(decision.mode);
            }
            assert_eq!(last, urgency(TimeMode::Expired));
        }
    }
}
