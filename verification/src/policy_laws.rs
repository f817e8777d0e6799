//! What the temporal policy decides, in numbers of what it is asked.

use crate::duration;
use crate::duration::MAX_NANOS;
use crate::number::Amount;
use crate::policy;
use crate::policy::{PolicyDecision, PolicyInput, ScheduleStatus, TimeMode};
use vstd::arithmetic::div_mod;
use vstd::arithmetic::power;
use vstd::prelude::*;

verus! {

/// A quotient that is rounded down.
pub proof fn lemma_floor(n: int, d: int)
    requires
        d > 0,
    ensures
        d * (n / d) <= n < d * (n / d + 1),
        n >= 0 ==> n / d >= 0,
{
    div_mod::lemma_fundamental_div_mod(n, d);
    let q = n / d;
    assert(d * (q + 1) == d * q + d) by (nonlinear_arith);
    if n >= 0 {
        div_mod::lemma_div_pos_is_pos(n, d);
    }
}

/// Whether a span is no longer than a quotient that is rounded down.
proof fn lemma_within_floor(x: int, n: int, d: int)
    requires
        d > 0,
    ensures
        x <= n / d <==> d * x <= n,
{
    lemma_floor(n, d);
    let q = n / d;
    if x <= q {
        assert(d * x <= d * q) by (nonlinear_arith)
            requires
                x <= q,
                d > 0,
        ;
    } else {
        assert(d * x >= d * (q + 1)) by (nonlinear_arith)
            requires
                x >= q + 1,
                d > 0,
        ;
    }
}

/// The decision depends on nothing but the times, the reserves, the progress and the
/// estimate.
proof fn lemma_same_decision(a: PolicyInput, b: PolicyInput)
    requires
        a.total() == b.total(),
        a.elapsed() == b.elapsed(),
        a.validation_percent() == b.validation_percent(),
        a.finalization_percent() == b.finalization_percent(),
        a.progress_percent == b.progress_percent,
        a.estimated_remaining_work_secs == b.estimated_remaining_work_secs,
    ensures
        a.decision() == b.decision(),
{
    assert(a.remaining() == b.remaining());
    assert(a.validation_reserve() == b.validation_reserve());
    assert(a.finalization_reserve() == b.finalization_reserve());
    assert(a.reserved() == b.reserved());
    assert(a.usable_work() == b.usable_work());
    assert(a.expected_progress() == b.expected_progress());
    assert(a.eta_critical() == b.eta_critical());
    assert(a.schedule() == b.schedule());
    assert(a.emergency_threshold() == b.emergency_threshold());
    assert(a.finalize_trigger() == b.finalize_trigger());
    assert(a.mode() == b.mode());
    assert(a.max_new_action() == b.max_new_action());
    assert(a.next_check() == b.next_check());
}

/// The policy is what is decided: every law about the decision is one about what
/// [`policy::evaluate_time_policy`] returns.
pub proof fn law_what_is_decided_is_returned(input: PolicyInput, r: PolicyDecision)
    requires
        call_ensures(policy::evaluate_time_policy, (input,), r),
    ensures
        r@ == input.decision(),
        r.remaining_secs@ == input.decision().remaining,
        r.remaining_percent == input.decision().remaining_percent,
        r.validation_reserve_secs@ == input.decision().validation_reserve,
        r.finalization_reserve_secs@ == input.decision().finalization_reserve,
        r.reserved_secs@ == input.decision().reserved,
        r.usable_work_secs@ == input.decision().usable_work,
        r.mode == input.decision().mode,
        r.schedule == input.decision().schedule,
        r.max_new_action_secs@ == input.decision().max_new_action,
        r.next_check_secs@ == input.decision().next_check,
        r.must_converge == input.decision().must_converge,
        r.must_validate == input.decision().must_validate,
        r.must_finalize == input.decision().must_finalize,
        r.must_stop == input.decision().must_stop,
        r.reason@ == input.decision().reason,
{
}

/// The usual reserves, as they are returned.
pub proof fn law_usual_reserves_are_returned(total: Amount, r: (u128, u128))
    requires
        call_ensures(policy::adaptive_reserve_percents, (total,), r),
    ensures
        total matches Amount::Billionths(value) ==> {
            &&& value <= 60_000_000_000 ==> r == (15_000_000_000u128, 10_000_000_000u128)
            &&& 60_000_000_000 < value <= 600_000_000_000 ==> r == (
                12_000_000_000u128,
                8_000_000_000u128,
            )
            &&& 600_000_000_000 < value <= 14_400_000_000_000 ==> r == (
                10_000_000_000u128,
                5_000_000_000u128,
            )
            &&& 14_400_000_000_000 < value <= 28_800_000_000_000 ==> r == (
                8_000_000_000u128,
                4_000_000_000u128,
            )
            &&& value > 28_800_000_000_000 ==> r == (6_000_000_000u128, 3_000_000_000u128)
        },
{
}

// ---------------------------------------------------------------------------
// Times

/// Times as they usually are: a total of a millisecond or more, and of it what has been
/// used, both in nanoseconds.
pub open spec fn regular(input: PolicyInput, total: int, elapsed: int) -> bool {
    &&& input.total_secs == Amount::Billionths(total as i128)
    &&& input.elapsed_secs == Amount::Billionths(elapsed as i128)
    &&& 1_000_000 <= total <= MAX_NANOS
    &&& 0 <= elapsed <= total
}

/// Other times count as the nearest usual ones: the decision is the same. What has been
/// used and is not a number counts as the whole total.
pub proof fn law_odd_times_count_as_the_nearest(input: PolicyInput, near: PolicyInput)
    requires
        ({
            let total: int = match input.total_secs {
                Amount::Billionths(value) => if value < 1_000_000 {
                    1_000_000
                } else if value > MAX_NANOS {
                    MAX_NANOS as int
                } else {
                    value as int
                },
                Amount::Infinity => MAX_NANOS as int,
                _ => 1_000_000,
            };
            let elapsed: int = match input.elapsed_secs {
                Amount::Billionths(value) => if value < 0 {
                    0
                } else if value > total {
                    total
                } else {
                    value as int
                },
                Amount::NegativeInfinity => 0,
                _ => total,
            };
            near == (PolicyInput {
                total_secs: Amount::Billionths(total as i128),
                elapsed_secs: Amount::Billionths(elapsed as i128),
                ..input
            })
        }),
    ensures
        input.decision() == near.decision(),
        exists|total: int, elapsed: int| regular(near, total, elapsed),
{
    assert(input.total() == near.total());
    assert(input.elapsed() == near.elapsed());
    assert(regular(near, near.total() as int, near.elapsed() as int));
    lemma_same_decision(input, near);
}

/// What remains is what has not been used, and its share of the total is told in
/// billionths of a percent, rounded down.
pub proof fn law_what_is_not_used_remains(input: PolicyInput, total: int, elapsed: int)
    requires
        regular(input, total, elapsed),
    ensures
        ({
            let d = input.decision();
            &&& d.remaining == total - elapsed
            &&& total * d.remaining_percent <= (total - elapsed) * 100_000_000_000 < total * (
            d.remaining_percent + 1)
        }),
{
    reveal_with_fuel(power::pow, 12);
    assert(power::pow(10, 11) == 100_000_000_000);
    lemma_floor((total - elapsed) * 100_000_000_000, total);
}

// ---------------------------------------------------------------------------
// Reserves

/// The reserves that nobody asks for: the longer the total, the smaller their shares, in
/// billionths of a percent. They count exactly as if they had been asked for.
pub proof fn law_usual_reserves(input: PolicyInput, total: int, elapsed: int)
    requires
        regular(input, total, elapsed),
    ensures
        ({
            let (validation, finalization): (i128, i128) = if total <= 60_000_000_000 {
                (15_000_000_000, 10_000_000_000)
            } else if total <= 600_000_000_000 {
                (12_000_000_000, 8_000_000_000)
            } else if total <= 14_400_000_000_000 {
                (10_000_000_000, 5_000_000_000)
            } else if total <= 28_800_000_000_000 {
                (8_000_000_000, 4_000_000_000)
            } else {
                (6_000_000_000, 3_000_000_000)
            };
            &&& policy::adaptive_percents(input.total_secs) == (
                validation as nat,
                finalization as nat,
            )
            &&& input.validation_reserve_percent is None ==> input.decision() == (PolicyInput {
                validation_reserve_percent: Some(Amount::Billionths(validation)),
                ..input
            }).decision()
            &&& input.finalization_reserve_percent is None ==> input.decision() == (PolicyInput {
                finalization_reserve_percent: Some(Amount::Billionths(finalization)),
                ..input
            }).decision()
        }),
{
    let percents = policy::reserve_percents(total as nat);
    let a = PolicyInput {
        validation_reserve_percent: Some(Amount::Billionths(percents.0 as i128)),
        ..input
    };
    let b = PolicyInput {
        finalization_reserve_percent: Some(Amount::Billionths(percents.1 as i128)),
        ..input
    };
    if input.validation_reserve_percent is None {
        lemma_same_decision(input, a);
    }
    if input.finalization_reserve_percent is None {
        lemma_same_decision(input, b);
    }
}

/// The usual shares of totals that are none: one below zero counts as none at all, and any
/// other as the longest.
pub proof fn law_usual_reserves_of_odd_totals(value: i128)
    ensures
        value < 0 ==> policy::adaptive_percents(Amount::Billionths(value)) == (
            15_000_000_000nat,
            10_000_000_000nat,
        ),
        policy::adaptive_percents(Amount::NegativeInfinity) == (
            15_000_000_000nat,
            10_000_000_000nat,
        ),
        policy::adaptive_percents(Amount::Infinity) == (6_000_000_000nat, 3_000_000_000nat),
        policy::adaptive_percents(Amount::NotANumber) == (6_000_000_000nat, 3_000_000_000nat),
{
}

/// The share that a number of percent is limited to.
pub open spec fn limited(asked: Amount, low: i128, high: i128) -> Amount {
    match asked {
        Amount::Billionths(value) => if value < low {
            Amount::Billionths(low)
        } else if value > high {
            Amount::Billionths(high)
        } else {
            asked
        },
        Amount::Infinity => Amount::Billionths(high),
        Amount::NegativeInfinity => Amount::Billionths(low),
        Amount::NotANumber => asked,
    }
}

/// Validation reserves from 5 to 40 percent, and finalization from 3 to 25: what is asked
/// for beyond counts as the limit.
pub proof fn law_reserves_are_limited(input: PolicyInput, asked: Amount)
    ensures
        (PolicyInput { validation_reserve_percent: Some(asked), ..input }).decision() == (
        PolicyInput {
            validation_reserve_percent: Some(limited(asked, 5_000_000_000, 40_000_000_000)),
            ..input
        }).decision(),
        (PolicyInput { finalization_reserve_percent: Some(asked), ..input }).decision() == (
        PolicyInput {
            finalization_reserve_percent: Some(limited(asked, 3_000_000_000, 25_000_000_000)),
            ..input
        }).decision(),
{
    lemma_same_decision(
        PolicyInput { validation_reserve_percent: Some(asked), ..input },
        PolicyInput {
            validation_reserve_percent: Some(limited(asked, 5_000_000_000, 40_000_000_000)),
            ..input
        },
    );
    lemma_same_decision(
        PolicyInput { finalization_reserve_percent: Some(asked), ..input },
        PolicyInput {
            finalization_reserve_percent: Some(limited(asked, 3_000_000_000, 25_000_000_000)),
            ..input
        },
    );
}

/// Reserves within their limits are those shares of the total, rounded down, and both
/// together are reserved. What remains beyond them is usable for work.
pub proof fn law_reserves_are_shares_of_the_total(
    input: PolicyInput,
    total: int,
    elapsed: int,
    validation: i128,
    finalization: i128,
)
    requires
        regular(input, total, elapsed),
        input.validation_reserve_percent == Some(Amount::Billionths(validation)),
        input.finalization_reserve_percent == Some(Amount::Billionths(finalization)),
        5_000_000_000 <= validation <= 40_000_000_000,
        3_000_000_000 <= finalization <= 25_000_000_000,
    ensures
        ({
            let d = input.decision();
            &&& 100_000_000_000 * d.validation_reserve <= total * validation < 100_000_000_000 * (
            d.validation_reserve + 1)
            &&& 100_000_000_000 * d.finalization_reserve <= total * finalization
                < 100_000_000_000 * (d.finalization_reserve + 1)
            &&& d.reserved == d.validation_reserve + d.finalization_reserve
            &&& total - elapsed >= d.reserved ==> d.usable_work + d.reserved == total - elapsed
            &&& total - elapsed < d.reserved ==> d.usable_work == 0
        }),
{
    lemma_floor(total * validation, 100_000_000_000);
    lemma_floor(total * finalization, 100_000_000_000);
    let d = input.decision();
    assert(total * validation >= 0) by (nonlinear_arith)
        requires
            total >= 0,
            validation >= 0,
    ;
    assert(total * finalization >= 0) by (nonlinear_arith)
        requires
            total >= 0,
            finalization >= 0,
    ;
    assert(total * validation + total * finalization <= total * 65_000_000_000)
        by (nonlinear_arith)
        requires
            total >= 0,
            validation <= 40_000_000_000,
            finalization <= 25_000_000_000,
    ;
}

/// A reserve that is not a number leaves nothing for work.
pub proof fn law_reserves_that_are_no_numbers(input: PolicyInput, total: int, elapsed: int)
    requires
        regular(input, total, elapsed),
        input.validation_reserve_percent == Some(Amount::NotANumber)
            || input.finalization_reserve_percent == Some(Amount::NotANumber),
    ensures
        input.decision().reserved == total,
        input.decision().usable_work == 0,
        input.validation_reserve_percent == Some(Amount::NotANumber)
            ==> input.decision().validation_reserve == total,
        input.finalization_reserve_percent == Some(Amount::NotANumber)
            ==> input.decision().finalization_reserve == total,
{
}

// ---------------------------------------------------------------------------
// Pressure

/// An estimate that is not positive, or not a number, counts as none.
pub proof fn law_estimates_of_nothing_count_as_none(input: PolicyInput, eta: Amount)
    requires
        eta == Amount::NotANumber || eta == Amount::NegativeInfinity || (eta matches
            Amount::Billionths(value) && value <= 0),
    ensures
        (PolicyInput { estimated_remaining_work_secs: Some(eta), ..input }).decision() == (
        PolicyInput { estimated_remaining_work_secs: None, ..input }).decision(),
{
    let a = PolicyInput { estimated_remaining_work_secs: Some(eta), ..input };
    let b = PolicyInput { estimated_remaining_work_secs: None, ..input };
    assert(a.remaining() == b.remaining());
    assert(a.schedule() == b.schedule());
}

/// Progress below none counts as none, and beyond all as all.
pub proof fn law_progress_is_limited(input: PolicyInput, progress: Amount)
    ensures
        (PolicyInput { progress_percent: Some(progress), ..input }).decision() == (PolicyInput {
            progress_percent: Some(limited(progress, 0, 100_000_000_000)),
            ..input
        }).decision(),
{
    let a = PolicyInput { progress_percent: Some(progress), ..input };
    let b = PolicyInput {
        progress_percent: Some(limited(progress, 0, 100_000_000_000)),
        ..input
    };
    assert(a.remaining() == b.remaining());
    assert(a.expected_progress() == b.expected_progress());
    assert(a.schedule() == b.schedule());
}

/// Whether the work still estimated is more than the time that is usable for it, of which
/// there is always a millisecond.
pub open spec fn overloaded(eta: Option<Amount>, usable: nat) -> bool {
    match eta {
        Some(Amount::Billionths(value)) => value > usable && value > 1_000_000,
        Some(Amount::Infinity) => true,
        _ => false,
    }
}

/// The schedule is critical when the time is up or the estimated work does not fit.
/// Otherwise, without progress told, it is critical once what remains is reserved, and
/// else on track. With progress, it is what the progress is worth against the share of
/// the working time that was used: at least 12 percent more is ahead, and more than 12 or
/// 30 percent less is behind or critical.
pub proof fn law_schedule(input: PolicyInput, total: int, elapsed: int)
    requires
        regular(input, total, elapsed),
    ensures
        ({
            let d = input.decision();
            let used_up = elapsed == total || overloaded(
                input.estimated_remaining_work_secs,
                d.usable_work,
            );
            let work: int = if total - d.reserved > 1_000_000 {
                total - d.reserved
            } else {
                1_000_000
            };
            &&& used_up ==> d.schedule == ScheduleStatus::Critical
            &&& !used_up && input.progress_percent is None ==> d.schedule == if total - elapsed
                <= d.reserved {
                ScheduleStatus::Critical
            } else {
                ScheduleStatus::OnTrack
            }
            &&& !used_up && input.progress_percent == Some(Amount::NotANumber) ==> d.schedule
                == ScheduleStatus::OnTrack
            &&& !used_up ==> (input.progress_percent matches Some(Amount::Billionths(reached))
                ==> 0 <= reached <= 100_000_000_000 ==> d.schedule == if reached
                >= 12_000_000_000 && elapsed * 100_000_000_000 < work * (reached
                - 12_000_000_000 + 1) {
                ScheduleStatus::Ahead
            } else if reached + 30_000_000_000 < 100_000_000_000 && elapsed * 100_000_000_000
                >= work * (reached + 30_000_000_000 + 1) {
                ScheduleStatus::Critical
            } else if reached + 12_000_000_000 < 100_000_000_000 && elapsed * 100_000_000_000
                >= work * (reached + 12_000_000_000 + 1) {
                ScheduleStatus::Behind
            } else {
                ScheduleStatus::OnTrack
            })
        }),
{
    let d = input.decision();
    let work = duration::max_nat(
        duration::less(input.total(), input.reserved()),
        policy::SHORTEST as nat,
    ) as int;
    reveal_with_fuel(power::pow, 12);
    assert(power::pow(10, 11) == 100_000_000_000);
    if let Some(Amount::Billionths(reached)) = input.progress_percent {
        let n = elapsed * 100_000_000_000;
        lemma_floor(n, work);
        lemma_within_floor(reached - 12_000_000_000 + 1, n, work);
        lemma_within_floor(reached + 30_000_000_000 + 1, n, work);
        lemma_within_floor(reached + 12_000_000_000 + 1, n, work);
    }
}

// ---------------------------------------------------------------------------
// Modes

/// Whether that much remaining time is an emergency: 2 percent of the total, but at least
/// 10 and at most 30 seconds.
pub open spec fn pressing(total: int, remaining: int) -> bool {
    remaining <= 10_000_000_000 || (remaining <= 30_000_000_000 && 50 * remaining <= total)
}

/// Whether that much remaining time is to be finalized in, apart from what is reserved
/// for it: 10 percent of the total, but at most 5 minutes.
pub open spec fn closing(total: int, remaining: int) -> bool {
    remaining <= 300_000_000_000 && 10 * remaining <= total
}

/// The mode goes by what remains: none of it is the end, then come the emergency, the
/// time to finalize and the rest of the reserves. Beyond them, pressure or the last
/// quarter of the total call for convergence, and after the first quarter exploration is
/// over.
pub proof fn law_modes(input: PolicyInput, total: int, elapsed: int)
    requires
        regular(input, total, elapsed),
    ensures
        ({
            let d = input.decision();
            let remaining = total - elapsed;
            let for_finalization = input.finalization_reserve_percent != Some(Amount::NotANumber)
                && remaining <= d.finalization_reserve;
            let late = pressing(total, remaining) || closing(total, remaining) || for_finalization
                || remaining <= d.reserved;
            let pressed = d.schedule == ScheduleStatus::Behind || d.schedule
                == ScheduleStatus::Critical || 4 * remaining <= total;
            &&& d.mode == TimeMode::Expired <==> remaining == 0
            &&& d.mode == TimeMode::Emergency <==> remaining > 0 && pressing(total, remaining)
            &&& d.mode == TimeMode::Finalize <==> !pressing(total, remaining) && (closing(
                total,
                remaining,
            ) || for_finalization)
            &&& d.mode == TimeMode::Validate <==> remaining <= d.reserved && !pressing(
                total,
                remaining,
            ) && !closing(total, remaining) && !for_finalization
            &&& d.mode == TimeMode::Converge <==> !late && pressed
            &&& d.mode == TimeMode::Execute <==> !late && !pressed && 4 * elapsed >= total
            &&& d.mode == TimeMode::Explore <==> !late && !pressed && 4 * elapsed < total
        }),
{
    let remaining = total - elapsed;
    lemma_within_floor(remaining, total * 2, 100);
    lemma_within_floor(remaining, total * 10, 100);
    lemma_floor(total * 2, 100);
    lemma_floor(total * 10, 100);
}

/// A long task is not finalized while it is in its validation reserve: with more than 5
/// minutes left, and more than the share that is reserved for finalization, the mode is
/// not to finalize.
pub proof fn law_long_tasks_validate_before_they_finalize(
    input: PolicyInput,
    total: int,
    elapsed: int,
    finalization: i128,
)
    requires
        regular(input, total, elapsed),
        total > 3_000_000_000_000,
        total - elapsed > 300_000_000_000,
        3_000_000_000 <= finalization <= 25_000_000_000,
        input.finalization_reserve_percent == Some(Amount::Billionths(finalization)) || (
        input.finalization_reserve_percent is None && finalization == if total
            <= 14_400_000_000_000 {
            5_000_000_000int
        } else if total <= 28_800_000_000_000 {
            4_000_000_000
        } else {
            3_000_000_000
        }),
        (total - elapsed) * 100_000_000_000 > total * finalization,
    ensures
        input.decision().mode != TimeMode::Finalize,
        !input.decision().must_finalize,
{
    law_modes(input, total, elapsed);
    lemma_within_floor(total - elapsed, total * finalization, 100_000_000_000);
    assert((total - elapsed) * 100_000_000_000 == 100_000_000_000 * (total - elapsed));
}

/// What is demanded goes by the mode alone: to stop when the time is up, to finalize in
/// the time for it and in an emergency, to validate in the rest of the reserves, and to
/// converge in all of these and under pressure.
pub proof fn law_demands(input: PolicyInput)
    ensures
        ({
            let d = input.decision();
            &&& d.must_stop <==> d.mode == TimeMode::Expired
            &&& d.must_finalize <==> d.mode == TimeMode::Finalize || d.mode == TimeMode::Emergency
            &&& d.must_validate <==> d.mode == TimeMode::Validate
            &&& !d.must_converge <==> d.mode == TimeMode::Explore || d.mode == TimeMode::Execute
        }),
{
}

/// Each mode has its reason, and each mode and schedule its name.
pub proof fn law_names_and_reasons(input: PolicyInput)
    ensures
        ({
            let d = input.decision();
            match d.mode {
                TimeMode::Explore => d.reason == "exploration_window"@ && d.mode.name()
                    == "explore"@,
                TimeMode::Execute => d.reason == "execution_window"@ && d.mode.name()
                    == "execute"@,
                TimeMode::Converge => d.reason == "schedule_pressure"@ && d.mode.name()
                    == "converge"@,
                TimeMode::Validate => d.reason == "validation_reserve"@ && d.mode.name()
                    == "validate"@,
                TimeMode::Finalize => d.reason == "finalization_window"@ && d.mode.name()
                    == "finalize"@,
                TimeMode::Emergency => d.reason == "emergency_window"@ && d.mode.name()
                    == "emergency"@,
                TimeMode::Expired => d.reason == "hard_deadline_reached"@ && d.mode.name()
                    == "expired"@,
            }
        }),
        match input.decision().schedule {
            ScheduleStatus::Ahead => input.decision().schedule.name() == "ahead"@,
            ScheduleStatus::OnTrack => input.decision().schedule.name() == "on_track"@,
            ScheduleStatus::Behind => input.decision().schedule.name() == "behind"@,
            ScheduleStatus::Critical => input.decision().schedule.name() == "critical"@,
        },
{
}

// ---------------------------------------------------------------------------
// Actions and checks

/// Whether `x` is `percent` percent of `n`, rounded down, or the limit where that is less.
pub open spec fn share_up_to(x: nat, percent: int, n: nat, limit: int) -> bool {
    &&& x <= limit
    &&& 100 * x <= percent * n
    &&& x == limit || percent * n < 100 * (x + 1)
}

/// How long a new action may take: 35, 30 or 25 percent of the usable time while exploring,
/// executing or converging, up to 10, 5 or 2 minutes; up to 2 minutes of what is not
/// reserved for finalization while validating; half of what remains, up to 15 or 5
/// seconds, at the end; and nothing after it.
pub proof fn law_action_limits(input: PolicyInput)
    ensures
        ({
            let d = input.decision();
            match d.mode {
                TimeMode::Explore => share_up_to(
                    d.max_new_action,
                    35,
                    d.usable_work,
                    600_000_000_000,
                ),
                TimeMode::Execute => share_up_to(
                    d.max_new_action,
                    30,
                    d.usable_work,
                    300_000_000_000,
                ),
                TimeMode::Converge => share_up_to(
                    d.max_new_action,
                    25,
                    d.usable_work,
                    120_000_000_000,
                ),
                TimeMode::Validate => {
                    &&& d.max_new_action <= 120_000_000_000
                    &&& d.remaining <= d.finalization_reserve ==> d.max_new_action == 0
                    &&& d.remaining > d.finalization_reserve ==> d.max_new_action
                        + d.finalization_reserve <= d.remaining && (d.max_new_action
                        == 120_000_000_000 || d.max_new_action + d.finalization_reserve
                        == d.remaining)
                },
                TimeMode::Finalize => share_up_to(
                    d.max_new_action,
                    50,
                    d.remaining,
                    15_000_000_000,
                ),
                TimeMode::Emergency => share_up_to(
                    d.max_new_action,
                    50,
                    d.remaining,
                    5_000_000_000,
                ),
                TimeMode::Expired => d.max_new_action == 0,
            }
        }),
{
    let usable = input.usable_work() as int;
    lemma_floor(usable * 35, 100);
    lemma_floor(usable * 30, 100);
    lemma_floor(usable * 25, 100);
}

/// When the next check is due: the sooner the less remains, but never later than the
/// longest new action is over, or a quarter of a second, and never after the end. Once
/// the time is up, no check is due.
pub proof fn law_next_checks(input: PolicyInput)
    ensures
        ({
            let d = input.decision();
            let usual: int = if d.remaining > 7_200_000_000_000 {
                600_000_000_000
            } else if d.remaining > 1_800_000_000_000 {
                180_000_000_000
            } else if d.remaining > 600_000_000_000 {
                120_000_000_000
            } else if d.remaining > 180_000_000_000 {
                60_000_000_000
            } else if d.remaining > 60_000_000_000 {
                25_000_000_000
            } else {
                7_000_000_000
            };
            &&& d.remaining == 0 ==> d.next_check == 0
            &&& d.remaining > 0 ==> {
                &&& d.next_check <= usual
                &&& d.next_check <= d.remaining
                &&& d.next_check <= d.max_new_action || d.next_check <= 250_000_000
                &&& d.next_check == usual || d.next_check == d.remaining || (d.next_check
                    == d.max_new_action && d.max_new_action >= 250_000_000) || (d.next_check
                    == 250_000_000 && d.max_new_action < 250_000_000)
            }
        }),
{
    let d = input.decision();
    assert(input.mode() == TimeMode::Expired <==> input.remaining() == 0);
}

/// No two modes are equally far towards the end: exploration comes first, and then
/// execution, convergence, validation, finalization, the emergency and the end.
pub proof fn law_modes_follow_each_other(a: TimeMode, b: TimeMode)
    ensures
        policy::urgency(a) == policy::urgency(b) <==> a == b,
        policy::urgency(TimeMode::Explore) < policy::urgency(TimeMode::Execute)
            < policy::urgency(TimeMode::Converge) < policy::urgency(TimeMode::Validate)
            < policy::urgency(TimeMode::Finalize) < policy::urgency(TimeMode::Emergency)
            < policy::urgency(TimeMode::Expired),
{
}

} // verus!
