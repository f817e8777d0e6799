//! The temporal policy: what a budget and the time used of it call for.

use crate::duration;
use crate::duration::{Duration, MAX_NANOS};
use crate::number::Amount;
use vstd::arithmetic::div_mod;
use vstd::arithmetic::power;
use vstd::prelude::*;

verus! {

/// One hundred percent, in billionths of a percent.
pub const WHOLE_PERCENT: u128 = 100_000_000_000;

/// The shortest total that the policy reckons with, in nanoseconds.
pub const SHORTEST: u128 = 1_000_000;

#[derive(Clone, Copy, Debug, PartialEq, Eq, Structural)]
pub enum TimeMode {
    Explore,
    Execute,
    Converge,
    Validate,
    Finalize,
    Emergency,
    Expired,
}

impl TimeMode {
    pub open spec fn name(self) -> Seq<char> {
        match self {
            TimeMode::Explore => "explore"@,
            TimeMode::Execute => "execute"@,
            TimeMode::Converge => "converge"@,
            TimeMode::Validate => "validate"@,
            TimeMode::Finalize => "finalize"@,
            TimeMode::Emergency => "emergency"@,
            TimeMode::Expired => "expired"@,
        }
    }

    pub fn as_str(&self) -> (r: &'static str)
        ensures
            r@ == self.name(),
    {
        match self {
            TimeMode::Explore => "explore",
            TimeMode::Execute => "execute",
            TimeMode::Converge => "converge",
            TimeMode::Validate => "validate",
            TimeMode::Finalize => "finalize",
            TimeMode::Emergency => "emergency",
            TimeMode::Expired => "expired",
        }
    }
}

#[derive(Clone, Copy, Debug, PartialEq, Eq, Structural)]
pub enum ScheduleStatus {
    Ahead,
    OnTrack,
    Behind,
    Critical,
}

impl ScheduleStatus {
    pub open spec fn name(self) -> Seq<char> {
        match self {
            ScheduleStatus::Ahead => "ahead"@,
            ScheduleStatus::OnTrack => "on_track"@,
            ScheduleStatus::Behind => "behind"@,
            ScheduleStatus::Critical => "critical"@,
        }
    }

    pub fn as_str(&self) -> (r: &'static str)
        ensures
            r@ == self.name(),
    {
        match self {
            ScheduleStatus::Ahead => "ahead",
            ScheduleStatus::OnTrack => "on_track",
            ScheduleStatus::Behind => "behind",
            ScheduleStatus::Critical => "critical",
        }
    }
}

/// What the policy is asked about. Times are in seconds.
#[derive(Clone, Copy, Debug, PartialEq, Eq, Structural)]
pub struct PolicyInput {
    pub total_secs: Amount,
    pub elapsed_secs: Amount,
    pub progress_percent: Option<Amount>,
    pub estimated_remaining_work_secs: Option<Amount>,
    pub validation_reserve_percent: Option<Amount>,
    pub finalization_reserve_percent: Option<Amount>,
}

impl Default for PolicyInput {
    fn default() -> (r: Self)
        ensures
            r == (PolicyInput {
                total_secs: Amount::Billionths(0),
                elapsed_secs: Amount::Billionths(0),
                progress_percent: None,
                estimated_remaining_work_secs: None,
                validation_reserve_percent: None,
                finalization_reserve_percent: None,
            }),
    {
        PolicyInput {
            total_secs: Amount::Billionths(0),
            elapsed_secs: Amount::Billionths(0),
            progress_percent: None,
            estimated_remaining_work_secs: None,
            validation_reserve_percent: None,
            finalization_reserve_percent: None,
        }
    }
}

#[derive(Clone, Debug, PartialEq, Eq)]
pub struct PolicyDecision {
    pub remaining_secs: Duration,
    /// In billionths of a percent, rounded down.
    pub remaining_percent: u128,
    pub validation_reserve_secs: Duration,
    pub finalization_reserve_secs: Duration,
    pub reserved_secs: Duration,
    pub usable_work_secs: Duration,
    pub mode: TimeMode,
    pub schedule: ScheduleStatus,
    pub max_new_action_secs: Duration,
    pub next_check_secs: Duration,
    pub must_converge: bool,
    pub must_validate: bool,
    pub must_finalize: bool,
    pub must_stop: bool,
    pub reason: &'static str,
}

/// The contents of a [`PolicyDecision`], with times in nanoseconds.
pub struct Decision {
    pub remaining: nat,
    pub remaining_percent: nat,
    pub validation_reserve: nat,
    pub finalization_reserve: nat,
    pub reserved: nat,
    pub usable_work: nat,
    pub mode: TimeMode,
    pub schedule: ScheduleStatus,
    pub max_new_action: nat,
    pub next_check: nat,
    pub must_converge: bool,
    pub must_validate: bool,
    pub must_finalize: bool,
    pub must_stop: bool,
    pub reason: Seq<char>,
}

impl View for PolicyDecision {
    type V = Decision;

    open spec fn view(&self) -> Decision {
        Decision {
            remaining: self.remaining_secs@,
            remaining_percent: self.remaining_percent as nat,
            validation_reserve: self.validation_reserve_secs@,
            finalization_reserve: self.finalization_reserve_secs@,
            reserved: self.reserved_secs@,
            usable_work: self.usable_work_secs@,
            mode: self.mode,
            schedule: self.schedule,
            max_new_action: self.max_new_action_secs@,
            next_check: self.next_check_secs@,
            must_converge: self.must_converge,
            must_validate: self.must_validate,
            must_finalize: self.must_finalize,
            must_stop: self.must_stop,
            reason: self.reason@,
        }
    }
}

/// The percentages of a total that are held back for validation and finalization,
/// in billionths of a percent: the longer the total, the smaller.
pub open spec fn reserve_percents(total: nat) -> (nat, nat) {
    if total <= 60_000_000_000 {
        (15_000_000_000, 10_000_000_000)
    } else if total <= 600_000_000_000 {
        (12_000_000_000, 8_000_000_000)
    } else if total <= 14_400_000_000_000 {
        (10_000_000_000, 5_000_000_000)
    } else if total <= 28_800_000_000_000 {
        (8_000_000_000, 4_000_000_000)
    } else {
        (6_000_000_000, 3_000_000_000)
    }
}

/// The percentages that are held back of a total as callers write it. One that is not
/// a number is none of the shorter ones.
pub open spec fn adaptive_percents(total: Amount) -> (nat, nat) {
    match total {
        Amount::Billionths(value) => reserve_percents(
            if value < 0 {
                0
            } else {
                value as nat
            },
        ),
        Amount::NegativeInfinity => reserve_percents(0),
        Amount::Infinity | Amount::NotANumber => (6_000_000_000, 3_000_000_000),
    }
}

/// The percentages of a total in seconds that are held back for validation and
/// finalization, in billionths of a percent.
pub fn adaptive_reserve_percents(total_secs: Amount) -> (r: (u128, u128))
    ensures
        (r.0 as nat, r.1 as nat) == adaptive_percents(total_secs),
{
    let total: i128 = match total_secs {
        Amount::Billionths(value) => value,
        Amount::NegativeInfinity => 0,
        Amount::Infinity | Amount::NotANumber => i128::MAX,
    };
    if total <= 60_000_000_000 {
        (15_000_000_000, 10_000_000_000)
    } else if total <= 600_000_000_000 {
        (12_000_000_000, 8_000_000_000)
    } else if total <= 14_400_000_000_000 {
        (10_000_000_000, 5_000_000_000)
    } else if total <= 28_800_000_000_000 {
        (8_000_000_000, 4_000_000_000)
    } else {
        (6_000_000_000, 3_000_000_000)
    }
}

pub open spec fn clamp(x: int, low: int, high: int) -> int {
    if x < low {
        low
    } else if x > high {
        high
    } else {
        x
    }
}

/// A percentage in billionths of a percent: the one given, or else the usual one,
/// within its limits. None if what was given is not a number.
pub open spec fn chosen_percent(given: Option<Amount>, usual: nat, low: nat, high: nat) -> Option<
    nat,
> {
    match given {
        None => Some(clamp(usual as int, low as int, high as int) as nat),
        Some(Amount::Billionths(value)) => Some(
            clamp(value as int, low as int, high as int) as nat,
        ),
        Some(Amount::Infinity) => Some(high),
        Some(Amount::NegativeInfinity) => Some(low),
        Some(Amount::NotANumber) => None,
    }
}

/// What a percentage holds back of a total: all of it, where there is no percentage.
pub open spec fn reserve(total: nat, percent: Option<nat>) -> nat {
    match percent {
        Some(percent) => duration::portion_of(total, percent, WHOLE_PERCENT as nat),
        None => total,
    }
}

/// A progress in billionths of a percent, from none to all. None if it is not a number.
pub open spec fn reached(progress: Amount) -> Option<int> {
    match progress {
        Amount::Billionths(value) => Some(clamp(value as int, 0, WHOLE_PERCENT as int)),
        Amount::Infinity => Some(WHOLE_PERCENT as int),
        Amount::NegativeInfinity => Some(0),
        Amount::NotANumber => None,
    }
}

impl PolicyInput {
    pub open spec fn total(self) -> nat {
        duration::max_nat(self.total_secs.span(), SHORTEST as nat)
    }

    /// The time used of the total. One that is not a number counts as all of it.
    pub open spec fn elapsed(self) -> nat {
        if self.elapsed_secs == Amount::NotANumber {
            self.total()
        } else {
            duration::min_nat(self.elapsed_secs.span(), self.total())
        }
    }

    pub open spec fn remaining(self) -> nat {
        duration::less(self.total(), self.elapsed())
    }

    pub open spec fn validation_percent(self) -> Option<nat> {
        chosen_percent(
            self.validation_reserve_percent,
            reserve_percents(self.total()).0,
            5_000_000_000,
            40_000_000_000,
        )
    }

    pub open spec fn finalization_percent(self) -> Option<nat> {
        chosen_percent(
            self.finalization_reserve_percent,
            reserve_percents(self.total()).1,
            3_000_000_000,
            25_000_000_000,
        )
    }

    /// At least 5 and at most 40 percent of the total, or all of it where what was asked
    /// for is not a number.
    pub open spec fn validation_reserve(self) -> nat {
        reserve(self.total(), self.validation_percent())
    }

    /// At least 3 and at most 25 percent of the total, or all of it where what was asked
    /// for is not a number.
    pub open spec fn finalization_reserve(self) -> nat {
        reserve(self.total(), self.finalization_percent())
    }

    pub open spec fn reserved(self) -> nat {
        duration::min_nat(self.validation_reserve() + self.finalization_reserve(), self.total())
    }

    pub open spec fn usable_work(self) -> nat {
        duration::less(self.remaining(), self.reserved())
    }

    /// The progress that the time used would suggest, in billionths of a percent.
    pub open spec fn expected_progress(self) -> nat {
        duration::min_nat(
            duration::decimal_ratio(
                self.elapsed(),
                duration::max_nat(
                    duration::less(self.total(), self.reserved()),
                    SHORTEST as nat,
                ),
                11,
            ),
            WHOLE_PERCENT as nat,
        )
    }

    /// Whether the work still estimated is more than fits.
    pub open spec fn eta_critical(self) -> bool {
        match self.estimated_remaining_work_secs {
            Some(Amount::Billionths(eta)) => eta > duration::max_nat(
                self.usable_work(),
                SHORTEST as nat,
            ),
            Some(Amount::Infinity) => true,
            _ => false,
        }
    }

    /// How far the progress is from what was to be expected: 12 percent ahead, or more
    /// than 12 or 30 percent behind. A progress that is not a number tells nothing.
    pub open spec fn pace(self, progress: Amount) -> ScheduleStatus {
        match reached(progress) {
            None => ScheduleStatus::OnTrack,
            Some(reached) => {
                let delta = reached - self.expected_progress();
                if delta >= 12_000_000_000 {
                    ScheduleStatus::Ahead
                } else if delta < -30_000_000_000 {
                    ScheduleStatus::Critical
                } else if delta < -12_000_000_000 {
                    ScheduleStatus::Behind
                } else {
                    ScheduleStatus::OnTrack
                }
            },
        }
    }

    pub open spec fn schedule(self) -> ScheduleStatus {
        if self.remaining() == 0 || self.eta_critical() {
            ScheduleStatus::Critical
        } else if self.progress_percent is Some {
            self.pace(self.progress_percent->Some_0)
        } else if self.remaining() <= self.reserved() {
            ScheduleStatus::Critical
        } else {
            ScheduleStatus::OnTrack
        }
    }

    /// 2 percent of the total, but at least 10 and at most 30 seconds.
    pub open spec fn emergency_threshold(self) -> nat {
        clamp(
            duration::portion_of(self.total(), 2, 100) as int,
            10_000_000_000,
            30_000_000_000,
        ) as nat
    }

    /// The finalization reserve, or 10 percent of the total up to 5 minutes where that
    /// is more. A reserve that is not a number does not count.
    pub open spec fn finalize_trigger(self) -> nat {
        duration::max_nat(
            if self.finalization_percent() is Some {
                self.finalization_reserve()
            } else {
                0
            },
            duration::min_nat(duration::portion_of(self.total(), 10, 100), 300_000_000_000),
        )
    }

    pub open spec fn mode(self) -> TimeMode {
        if self.remaining() == 0 {
            TimeMode::Expired
        } else if self.remaining() <= self.emergency_threshold() {
            TimeMode::Emergency
        } else if self.remaining() <= self.finalize_trigger() {
            TimeMode::Finalize
        } else if self.remaining() <= self.reserved() {
            TimeMode::Validate
        } else if self.schedule() == ScheduleStatus::Behind || self.schedule()
            == ScheduleStatus::Critical || 4 * self.remaining() <= self.total() {
            TimeMode::Converge
        } else if 4 * self.elapsed() >= self.total() {
            TimeMode::Execute
        } else {
            TimeMode::Explore
        }
    }

    pub open spec fn max_new_action(self) -> nat {
        match self.mode() {
            TimeMode::Explore => duration::min_nat(
                duration::portion_of(self.usable_work(), 35, 100),
                600_000_000_000,
            ),
            TimeMode::Execute => duration::min_nat(
                duration::portion_of(self.usable_work(), 30, 100),
                300_000_000_000,
            ),
            TimeMode::Converge => duration::min_nat(
                duration::portion_of(self.usable_work(), 25, 100),
                120_000_000_000,
            ),
            TimeMode::Validate => duration::min_nat(
                duration::less(self.remaining(), self.finalization_reserve()),
                120_000_000_000,
            ),
            TimeMode::Finalize => duration::portion_of(
                duration::min_nat(self.remaining(), 30_000_000_000),
                1,
                2,
            ),
            TimeMode::Emergency => duration::portion_of(
                duration::min_nat(self.remaining(), 10_000_000_000),
                1,
                2,
            ),
            TimeMode::Expired => 0,
        }
    }

    /// The usual time until the next check.
    pub open spec fn base_check(self) -> nat {
        if self.remaining() > 7_200_000_000_000 {
            600_000_000_000
        } else if self.remaining() > 1_800_000_000_000 {
            180_000_000_000
        } else if self.remaining() > 600_000_000_000 {
            120_000_000_000
        } else if self.remaining() > 180_000_000_000 {
            60_000_000_000
        } else if self.remaining() > 60_000_000_000 {
            25_000_000_000
        } else {
            7_000_000_000
        }
    }

    pub open spec fn next_check(self) -> nat {
        if self.mode() == TimeMode::Expired {
            0
        } else {
            duration::min_nat(
                duration::min_nat(
                    self.base_check(),
                    duration::max_nat(self.max_new_action(), 250_000_000),
                ),
                self.remaining(),
            )
        }
    }

    pub open spec fn decision(self) -> Decision {
        Decision {
            remaining: self.remaining(),
            remaining_percent: duration::decimal_ratio(self.remaining(), self.total(), 11),
            validation_reserve: self.validation_reserve(),
            finalization_reserve: self.finalization_reserve(),
            reserved: self.reserved(),
            usable_work: self.usable_work(),
            mode: self.mode(),
            schedule: self.schedule(),
            max_new_action: self.max_new_action(),
            next_check: self.next_check(),
            must_converge: self.mode() != TimeMode::Explore && self.mode() != TimeMode::Execute,
            must_validate: self.mode() == TimeMode::Validate,
            must_finalize: self.mode() == TimeMode::Finalize || self.mode()
                == TimeMode::Emergency,
            must_stop: self.mode() == TimeMode::Expired,
            reason: reason(self.mode()),
        }
    }
}

/// The reason code of a mode.
pub open spec fn reason(mode: TimeMode) -> Seq<char> {
    match mode {
        TimeMode::Explore => "exploration_window"@,
        TimeMode::Execute => "execution_window"@,
        TimeMode::Converge => "schedule_pressure"@,
        TimeMode::Validate => "validation_reserve"@,
        TimeMode::Finalize => "finalization_window"@,
        TimeMode::Emergency => "emergency_window"@,
        TimeMode::Expired => "hard_deadline_reached"@,
    }
}

/// A part is at most a hundred percent of its whole.
pub proof fn lemma_percent(part: nat, whole: nat)
    requires
        part <= whole,
        whole > 0,
    ensures
        duration::decimal_ratio(part, whole, 11) <= WHOLE_PERCENT,
{
    reveal_with_fuel(power::pow, 12);
    let p = power::pow(10, 11);
    assert(p == 100_000_000_000);
    assert(0 <= part * p / (whole as int) <= p) by (nonlinear_arith)
        requires
            0 <= part <= whole,
            whole > 0,
            p >= 0,
    ;
}

fn choose_percent(given: &Option<Amount>, usual: u128, low: u128, high: u128) -> (r: Option<u128>)
    requires
        low <= high <= WHOLE_PERCENT,
    ensures
        match r {
            Some(percent) => {
                &&& chosen_percent(*given, usual as nat, low as nat, high as nat) == Some(
                    percent as nat,
                )
                &&& percent <= WHOLE_PERCENT
            },
            None => chosen_percent(*given, usual as nat, low as nat, high as nat) is None,
        },
{
    let wanted: u128 = match given {
        None => usual,
        Some(Amount::Billionths(value)) => if *value < 0 {
            0
        } else {
            *value as u128
        },
        Some(Amount::Infinity) => high,
        Some(Amount::NegativeInfinity) => low,
        Some(Amount::NotANumber) => {
            return None;
        },
    };
    Some(
        if wanted < low {
            low
        } else if wanted > high {
            high
        } else {
            wanted
        },
    )
}

fn hold_back(total: Duration, percent: Option<u128>) -> (r: Duration)
    requires
        percent matches Some(percent) ==> percent <= WHOLE_PERCENT,
    ensures
        r@ == match percent {
            Some(percent) => reserve(total@, Some(percent as nat)),
            None => reserve(total@, None),
        },
{
    match percent {
        Some(percent) => total.portion(percent, WHOLE_PERCENT),
        None => total,
    }
}

/// What the policy computes before it looks at progress and estimates.
struct Reckoning {
    total: Duration,
    elapsed: Duration,
    remaining: Duration,
    validation_reserve: Duration,
    finalization_reserve: Duration,
    finalization_known: bool,
    reserved: Duration,
    usable_work: Duration,
}

impl Reckoning {
    spec fn of(self, input: PolicyInput) -> bool {
        &&& self.total@ == input.total()
        &&& self.elapsed@ == input.elapsed()
        &&& self.remaining@ == input.remaining()
        &&& self.validation_reserve@ == input.validation_reserve()
        &&& self.finalization_reserve@ == input.finalization_reserve()
        &&& self.finalization_known == (input.finalization_percent() is Some)
        &&& self.reserved@ == input.reserved()
        &&& self.usable_work@ == input.usable_work()
        &&& SHORTEST <= self.total@ <= MAX_NANOS
        &&& self.elapsed@ <= self.total@
    }

    fn new(input: &PolicyInput) -> (r: Self)
        ensures
            r.of(*input),
    {
        let total = input.total_secs.to_span().longer(Duration { nanos: SHORTEST });
        let elapsed = match input.elapsed_secs {
            Amount::NotANumber => total,
            _ => input.elapsed_secs.to_span().shorter(total),
        };
        let remaining = total.saturating_sub(elapsed);
        let (default_validation, default_finalization) = adaptive_reserve_percents(
            Amount::of(total),
        );
        let validation_percent: Option<u128> = choose_percent(
            &input.validation_reserve_percent,
            default_validation,
            5_000_000_000,
            40_000_000_000,
        );
        let finalization_percent: Option<u128> = choose_percent(
            &input.finalization_reserve_percent,
            default_finalization,
            3_000_000_000,
            25_000_000_000,
        );
        let validation_reserve = hold_back(total, validation_percent);
        let finalization_reserve = hold_back(total, finalization_percent);
        let reserved = validation_reserve.saturating_add(finalization_reserve).shorter(total);
        let usable_work = remaining.saturating_sub(reserved);
        Reckoning {
            total,
            elapsed,
            remaining,
            validation_reserve,
            finalization_reserve,
            finalization_known: finalization_percent.is_some(),
            reserved,
            usable_work,
        }
    }

    fn pace(&self, progress: &Amount, Ghost(input): Ghost<PolicyInput>) -> (r: ScheduleStatus)
        requires
            self.of(input),
        ensures
            r == input.pace(*progress),
    {
        let reached: i128 = match progress {
            Amount::NotANumber => {
                return ScheduleStatus::OnTrack;
            },
            Amount::Infinity => 100_000_000_000,
            Amount::NegativeInfinity => 0,
            Amount::Billionths(value) => if *value < 0 {
                0
            } else if *value > 100_000_000_000 {
                100_000_000_000
            } else {
                *value
            },
        };
        let work = self.total.saturating_sub(self.reserved).longer(Duration { nanos: SHORTEST });
        let (share, _) = duration::ratio(self.elapsed, work, 11);
        let expected: i128 = if share > WHOLE_PERCENT {
            100_000_000_000
        } else {
            share as i128
        };
        let delta: i128 = reached - expected;
        if delta >= 12_000_000_000 {
            ScheduleStatus::Ahead
        } else if delta < -30_000_000_000 {
            ScheduleStatus::Critical
        } else if delta < -12_000_000_000 {
            ScheduleStatus::Behind
        } else {
            ScheduleStatus::OnTrack
        }
    }

    fn schedule(&self, input: &PolicyInput) -> (r: ScheduleStatus)
        requires
            self.of(*input),
        ensures
            r == input.schedule(),
    {
        let eta_critical: bool = match &input.estimated_remaining_work_secs {
            Some(Amount::Billionths(eta)) => *eta > 0 && *eta as u128 > self.usable_work.longer(
                Duration { nanos: SHORTEST },
            ).nanos,
            Some(Amount::Infinity) => true,
            _ => false,
        };
        if self.remaining.nanos == 0 || eta_critical {
            ScheduleStatus::Critical
        } else if let Some(progress) = &input.progress_percent {
            self.pace(progress, Ghost(*input))
        } else if self.remaining.nanos <= self.reserved.nanos {
            ScheduleStatus::Critical
        } else {
            ScheduleStatus::OnTrack
        }
    }

    fn mode(&self, schedule: ScheduleStatus, Ghost(input): Ghost<PolicyInput>) -> (r: (
        TimeMode,
        &'static str,
    ))
        requires
            self.of(input),
            schedule == input.schedule(),
        ensures
            r.0 == input.mode(),
            r.1@ == reason(input.mode()),
    {
        let remaining: u128 = self.remaining.nanos;
        let emergency_threshold = self.total.portion(2, 100).longer(
            Duration { nanos: 10_000_000_000 },
        ).shorter(Duration { nanos: 30_000_000_000 });
        let finalization_reserve = if self.finalization_known {
            self.finalization_reserve
        } else {
            Duration::zero()
        };
        let finalize_trigger = finalization_reserve.longer(
            self.total.portion(10, 100).shorter(Duration { nanos: 300_000_000_000 }),
        );
        if remaining == 0 {
            (TimeMode::Expired, "hard_deadline_reached")
        } else if remaining <= emergency_threshold.nanos {
            (TimeMode::Emergency, "emergency_window")
        } else if remaining <= finalize_trigger.nanos {
            (TimeMode::Finalize, "finalization_window")
        } else if remaining <= self.reserved.nanos {
            (TimeMode::Validate, "validation_reserve")
        } else if matches!(schedule, ScheduleStatus::Behind | ScheduleStatus::Critical) || 4
            * remaining <= self.total.nanos {
            (TimeMode::Converge, "schedule_pressure")
        } else if 4 * self.elapsed.nanos >= self.total.nanos {
            (TimeMode::Execute, "execution_window")
        } else {
            (TimeMode::Explore, "exploration_window")
        }
    }

    fn max_new_action(&self, mode: TimeMode, Ghost(input): Ghost<PolicyInput>) -> (r: Duration)
        requires
            self.of(input),
            mode == input.mode(),
        ensures
            r@ == input.max_new_action(),
    {
        match mode {
            TimeMode::Explore => self.usable_work.portion(35, 100).shorter(
                Duration { nanos: 600_000_000_000 },
            ),
            TimeMode::Execute => self.usable_work.portion(30, 100).shorter(
                Duration { nanos: 300_000_000_000 },
            ),
            TimeMode::Converge => self.usable_work.portion(25, 100).shorter(
                Duration { nanos: 120_000_000_000 },
            ),
            TimeMode::Validate => self.remaining.saturating_sub(
                self.finalization_reserve,
            ).shorter(Duration { nanos: 120_000_000_000 }),
            TimeMode::Finalize => self.remaining.shorter(
                Duration { nanos: 30_000_000_000 },
            ).portion(1, 2),
            TimeMode::Emergency => self.remaining.shorter(
                Duration { nanos: 10_000_000_000 },
            ).portion(1, 2),
            TimeMode::Expired => Duration::zero(),
        }
    }

    fn next_check(&self, mode: TimeMode, max_action: Duration, Ghost(input): Ghost<PolicyInput>) -> (r:
        Duration)
        requires
            self.of(input),
            mode == input.mode(),
            max_action@ == input.max_new_action(),
        ensures
            r@ == input.next_check(),
    {
        if mode == TimeMode::Expired {
            return Duration::zero();
        }
        let remaining: u128 = self.remaining.nanos;
        let base: u128 = if remaining > 7_200_000_000_000 {
            600_000_000_000
        } else if remaining > 1_800_000_000_000 {
            180_000_000_000
        } else if remaining > 600_000_000_000 {
            120_000_000_000
        } else if remaining > 180_000_000_000 {
            60_000_000_000
        } else if remaining > 60_000_000_000 {
            25_000_000_000
        } else {
            7_000_000_000
        };
        Duration { nanos: base }.shorter(
            max_action.longer(Duration { nanos: 250_000_000 }),
        ).shorter(self.remaining)
    }
}

/// Decides how to use what is left of a budget. The decision depends on the input
/// alone.
pub fn evaluate_time_policy(input: PolicyInput) -> (r: PolicyDecision)
    ensures
        r@ == input.decision(),
{
    let reckoning = Reckoning::new(&input);
    let schedule = reckoning.schedule(&input);
    let (mode, reason) = reckoning.mode(schedule, Ghost(input));
    let max_action = reckoning.max_new_action(mode, Ghost(input));
    let next_check = reckoning.next_check(mode, max_action, Ghost(input));
    proof {
        lemma_percent(input.remaining(), input.total());
    }
    let (remaining_percent, _) = duration::ratio(reckoning.remaining, reckoning.total, 11);
    PolicyDecision {
        remaining_secs: reckoning.remaining,
        remaining_percent,
        validation_reserve_secs: reckoning.validation_reserve,
        finalization_reserve_secs: reckoning.finalization_reserve,
        reserved_secs: reckoning.reserved,
        usable_work_secs: reckoning.usable_work,
        mode,
        schedule,
        max_new_action_secs: max_action,
        next_check_secs: next_check,
        must_converge: matches!(
            mode,
            TimeMode::Converge | TimeMode::Validate | TimeMode::Finalize | TimeMode::Emergency
                | TimeMode::Expired
        ),
        must_validate: matches!(mode, TimeMode::Validate),
        must_finalize: matches!(mode, TimeMode::Finalize | TimeMode::Emergency),
        must_stop: matches!(mode, TimeMode::Expired),
        reason,
    }
}

// ---------------------------------------------------------------------------
// Laws

/// A part of a span is no longer than the span, and grows with the numerator.
proof fn lemma_portion(n: nat, a: nat, b: nat, d: nat)
    requires
        a <= b <= d,
        d > 0,
    ensures
        duration::portion_of(n, a, d) <= duration::portion_of(n, b, d) <= n,
{
    assert(0 <= n * a <= n * b) by (nonlinear_arith)
        requires
            0 <= a <= b,
            n >= 0,
    ;
    assert(n * b <= n * d) by (nonlinear_arith)
        requires
            b <= d,
            n >= 0,
    ;
    assert(0 <= (n * a) / d <= (n * b) / d <= n) by (nonlinear_arith)
        requires
            0 <= n * a <= n * b <= n * d,
            d > 0,
    ;
}

/// What was used and what remains make up the total, and nothing that the policy hands
/// out is more than what remains.
pub proof fn law_time_is_accounted_for(input: PolicyInput)
    ensures
        input.elapsed() + input.remaining() == input.total(),
        input.usable_work() <= input.remaining(),
        input.max_new_action() <= input.remaining(),
        input.next_check() <= input.remaining(),
        input.reserved() <= input.total(),
        input.decision().remaining_percent <= WHOLE_PERCENT,
{
    lemma_portion(input.usable_work(), 35, 35, 100);
    lemma_portion(input.usable_work(), 30, 30, 100);
    lemma_portion(input.usable_work(), 25, 25, 100);
    lemma_portion(duration::min_nat(input.remaining(), 30_000_000_000), 1, 1, 2);
    lemma_portion(duration::min_nat(input.remaining(), 10_000_000_000), 1, 1, 2);
    lemma_percent(input.remaining(), input.total());
}

/// Validation keeps at least 5 and at most 40 percent of the total, and finalization at
/// least 3 and at most 25, whatever number was asked for.
pub proof fn law_reserves_have_limits(input: PolicyInput)
    requires
        input.validation_reserve_percent != Some(Amount::NotANumber),
        input.finalization_reserve_percent != Some(Amount::NotANumber),
    ensures
        duration::portion_of(input.total(), 5, 100) <= input.validation_reserve()
            <= duration::portion_of(input.total(), 40, 100),
        duration::portion_of(input.total(), 3, 100) <= input.finalization_reserve()
            <= duration::portion_of(input.total(), 25, 100),
{
    let total = input.total();
    let v = input.validation_percent()->Some_0;
    let f = input.finalization_percent()->Some_0;
    let whole = WHOLE_PERCENT as nat;
    lemma_portion(total, 5_000_000_000, v, whole);
    lemma_portion(total, v, 40_000_000_000, whole);
    lemma_portion(total, 3_000_000_000, f, whole);
    lemma_portion(total, f, 25_000_000_000, whole);
    lemma_whole_percents(total, 5);
    lemma_whole_percents(total, 40);
    lemma_whole_percents(total, 3);
    lemma_whole_percents(total, 25);
}

/// A whole percentage is the same in percents as in billionths of one.
proof fn lemma_whole_percents(n: nat, percent: nat)
    ensures
        duration::portion_of(n, percent, 100) == duration::portion_of(
            n,
            percent * 1_000_000_000,
            WHOLE_PERCENT as nat,
        ),
{
    assert(n * (percent * 1_000_000_000) == (n * percent) * 1_000_000_000) by (nonlinear_arith);
    div_mod::lemma_div_multiples_vanish_quotient(
        1_000_000_000,
        (n * percent) as int,
        100,
    );
    assert(1_000_000_000 * (n * percent) == (n * percent) * 1_000_000_000) by (nonlinear_arith);
}

/// The policy says stop exactly when the time is used up, whatever the progress and the
/// estimates; then no action is granted and nothing is to be waited for.
pub proof fn law_stop_means_out_of_time(input: PolicyInput)
    ensures
        input.decision().must_stop <==> input.remaining() == 0,
        input.decision().must_stop <==> input.elapsed() >= input.total(),
        input.decision().must_stop ==> input.decision().max_new_action == 0
            && input.decision().next_check == 0 && input.decision().schedule
            == ScheduleStatus::Critical,
{
}

/// Of validating, finalizing and stopping at most one is demanded, and each of them
/// includes converging.
pub proof fn law_demands_exclude_each_other(input: PolicyInput)
    ensures
        ({
            let d = input.decision();
            &&& !(d.must_validate && d.must_finalize)
            &&& !(d.must_validate && d.must_stop)
            &&& !(d.must_finalize && d.must_stop)
            &&& d.must_validate || d.must_finalize || d.must_stop ==> d.must_converge
        }),
{
}

/// How far a mode is towards the end.
pub open spec fn urgency(mode: TimeMode) -> int {
    match mode {
        TimeMode::Explore => 0,
        TimeMode::Execute => 1,
        TimeMode::Converge => 2,
        TimeMode::Validate => 3,
        TimeMode::Finalize => 4,
        TimeMode::Emergency => 5,
        TimeMode::Expired => 6,
    }
}

/// With nothing but time passing, and the same progress and estimate told, if any, the mode
/// only ever moves towards the end.
pub proof fn law_time_only_presses(early: PolicyInput, late: PolicyInput)
    requires
        late.total_secs == early.total_secs,
        late.validation_reserve_percent == early.validation_reserve_percent,
        late.finalization_reserve_percent == early.finalization_reserve_percent,
        late.progress_percent == early.progress_percent,
        late.estimated_remaining_work_secs == early.estimated_remaining_work_secs,
        early.elapsed() <= late.elapsed(),
    ensures
        late.remaining() <= early.remaining(),
        late.expected_progress() >= early.expected_progress(),
        urgency(early.mode()) <= urgency(late.mode()),
{
    let work = duration::max_nat(
        duration::less(early.total(), early.reserved()),
        SHORTEST as nat,
    );
    let scale = power::pow(10, 11);
    power::lemma_pow_positive(10, 11);
    assert(early.elapsed() * scale <= late.elapsed() * scale) by (nonlinear_arith)
        requires
            early.elapsed() <= late.elapsed(),
            scale > 0,
    ;
    div_mod::lemma_div_is_ordered(
        early.elapsed() * scale,
        late.elapsed() * scale,
        work as int,
    );
    assert(early.elapsed() * scale >= 0) by (nonlinear_arith)
        requires
            scale > 0,
    ;
    assert(duration::decimal_ratio(early.elapsed(), work, 11) <= duration::decimal_ratio(
        late.elapsed(),
        work,
        11,
    )) by {
        div_mod::lemma_div_pos_is_pos(early.elapsed() * scale, work as int);
    }
}

} // verus!
