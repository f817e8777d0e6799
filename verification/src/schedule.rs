//! Work profiles and the phases of a task's schedule.

use crate::duration::{Duration, BILLION};
use crate::error::{Refusal, TaskError};
use crate::number::Amount;
use crate::text;
use vstd::prelude::*;
use vstd::string::StringExecFns;

verus! {

/// Policy profiles alter reserve size and recommended work chunk size.
#[derive(Clone, Copy, Debug, PartialEq, Eq, Structural)]
pub enum Mode {
    /// General-purpose behavior.
    Balanced,
    /// Frequent small checkpoints and a larger finishing reserve.
    Interactive,
    /// Fewer, larger chunks and a smaller reserve.
    Deep,
    /// Strong finishing reserve and short control-loop intervals.
    Deadline,
}

impl Default for Mode {
    fn default() -> (r: Self)
        ensures
            r == Mode::Balanced,
    {
        Mode::Balanced
    }
}

/// The profile that a name stands for, if any.
pub open spec fn mode_named(name: Seq<char>) -> Option<Mode> {
    if name == "balanced"@ || name == "normal"@ || name == "default"@ {
        Some(Mode::Balanced)
    } else if name == "interactive"@ || name == "fast"@ {
        Some(Mode::Interactive)
    } else if name == "deep"@ || name == "thorough"@ {
        Some(Mode::Deep)
    } else if name == "deadline"@ || name == "urgent"@ {
        Some(Mode::Deadline)
    } else {
        None
    }
}

impl Mode {
    /// The share of the remaining work held back, in billionths.
    pub open spec fn ratio(self) -> nat {
        match self {
            Mode::Balanced => 120_000_000,
            Mode::Interactive => 200_000_000,
            Mode::Deep => 70_000_000,
            Mode::Deadline => 250_000_000,
        }
    }

    /// The usual time between two ticks, in nanoseconds.
    pub open spec fn interval(self) -> nat {
        match self {
            Mode::Balanced => 1_000_000_000,
            Mode::Interactive => 250_000_000,
            Mode::Deep => 2_000_000_000,
            Mode::Deadline => 100_000_000,
        }
    }

    pub open spec fn name(self) -> Seq<char> {
        match self {
            Mode::Balanced => "balanced"@,
            Mode::Interactive => "interactive"@,
            Mode::Deep => "deep"@,
            Mode::Deadline => "deadline"@,
        }
    }

    /// The share of the remaining work that the profile holds back, in billionths.
    pub fn reserve_ratio(&self) -> (r: u128)
        ensures
            r == self.ratio(),
            r <= BILLION,
    {
        match self {
            Mode::Balanced => 120_000_000,
            Mode::Interactive => 200_000_000,
            Mode::Deep => 70_000_000,
            Mode::Deadline => 250_000_000,
        }
    }

    pub fn default_tick_interval_secs(&self) -> (r: Duration)
        ensures
            r@ == self.interval(),
    {
        match self {
            Mode::Balanced => Duration { nanos: 1_000_000_000 },
            Mode::Interactive => Duration { nanos: 250_000_000 },
            Mode::Deep => Duration { nanos: 2_000_000_000 },
            Mode::Deadline => Duration { nanos: 100_000_000 },
        }
    }

    pub fn as_str(&self) -> (r: &'static str)
        ensures
            r@ == self.name(),
    {
        match self {
            Mode::Balanced => "balanced",
            Mode::Interactive => "interactive",
            Mode::Deep => "deep",
            Mode::Deadline => "deadline",
        }
    }

    /// The profile of that name, in any case and with any white space around it.
    pub fn parse(value: &str) -> (r: Result<Self, String>)
        ensures
            match r {
                Ok(mode) => mode_named(text::lowered(text::trimmed(value@))) == Some(mode),
                Err(message) => mode_named(text::lowered(text::trimmed(value@))) is None
                    && message@ == "unknown mode: "@ + text::lowered(text::trimmed(value@)),
            },
    {
        let name = value.trim().to_ascii_lowercase();
        let n = name.as_str();
        if text::same_text(n, "balanced") || text::same_text(n, "normal") || text::same_text(
            n,
            "default",
        ) {
            Ok(Mode::Balanced)
        } else if text::same_text(n, "interactive") || text::same_text(n, "fast") {
            Ok(Mode::Interactive)
        } else if text::same_text(n, "deep") || text::same_text(n, "thorough") {
            Ok(Mode::Deep)
        } else if text::same_text(n, "deadline") || text::same_text(n, "urgent") {
            Ok(Mode::Deadline)
        } else {
            Err("unknown mode: ".to_owned().concat(n))
        }
    }
}

impl std::str::FromStr for Mode {
    type Err = String;

    fn from_str(value: &str) -> (r: Result<Self, Self::Err>)
        ensures
            match r {
                Ok(mode) => mode_named(text::lowered(text::trimmed(value@))) == Some(mode),
                Err(message) => mode_named(text::lowered(text::trimmed(value@))) is None
                    && message@ == "unknown mode: "@ + text::lowered(text::trimmed(value@)),
            },
    {
        Mode::parse(value)
    }
}

/// One schedule phase. `until_secs` is measured from task start and is cumulative;
/// the last phase extends forever, and may say so with an infinite one.
#[derive(Clone, Debug, PartialEq, Eq)]
pub struct SchedulePhase {
    pub name: String,
    pub until_secs: Amount,
    pub mode: Option<Mode>,
    pub reserve_ratio: Option<Amount>,
    pub tick_interval_secs: Option<Amount>,
}

/// The contents of a [`SchedulePhase`].
pub struct Phase {
    pub name: Seq<char>,
    pub until: Amount,
    pub mode: Option<Mode>,
    pub reserve_ratio: Option<Amount>,
    pub tick_interval: Option<Amount>,
}

impl View for SchedulePhase {
    type V = Phase;

    open spec fn view(&self) -> Phase {
        Phase {
            name: self.name@,
            until: self.until_secs,
            mode: self.mode,
            reserve_ratio: self.reserve_ratio,
            tick_interval: self.tick_interval_secs,
        }
    }
}

impl SchedulePhase {
    pub fn new(name: &str, until_secs: Amount) -> (r: Self)
        ensures
            r@ == (Phase {
                name: name@,
                until: until_secs,
                mode: None,
                reserve_ratio: None,
                tick_interval: None,
            }),
    {
        SchedulePhase {
            name: name.to_owned(),
            until_secs,
            mode: None,
            reserve_ratio: None,
            tick_interval_secs: None,
        }
    }

    pub fn with_mode(self, mode: Mode) -> (r: Self)
        ensures
            r@ == (Phase { mode: Some(mode), ..self@ }),
    {
        SchedulePhase { mode: Some(mode), ..self }
    }

    pub fn with_reserve_ratio(self, ratio: Amount) -> (r: Self)
        ensures
            r@ == (Phase { reserve_ratio: Some(ratio), ..self@ }),
    {
        SchedulePhase { reserve_ratio: Some(ratio), ..self }
    }

    pub fn with_tick_interval(self, secs: Amount) -> (r: Self)
        ensures
            r@ == (Phase { tick_interval: Some(secs), ..self@ }),
    {
        SchedulePhase { tick_interval_secs: Some(secs), ..self }
    }

    pub fn duplicate(&self) -> (r: Self)
        ensures
            r@ == self@,
    {
        SchedulePhase {
            name: self.name.clone(),
            until_secs: self.until_secs,
            mode: self.mode,
            reserve_ratio: self.reserve_ratio,
            tick_interval_secs: self.tick_interval_secs,
        }
    }
}

/// Optional relative schedule for a task.
#[derive(Clone, Debug, PartialEq, Eq)]
pub struct Schedule {
    pub tick_interval_secs: Amount,
    pub phases: Vec<SchedulePhase>,
}

/// The contents of a [`Schedule`].
pub struct Timetable {
    pub tick_interval: Amount,
    pub phases: Seq<Phase>,
}

impl View for Schedule {
    type V = Timetable;

    open spec fn view(&self) -> Timetable {
        Timetable {
            tick_interval: self.tick_interval_secs,
            phases: Seq::new(self.phases@.len(), |i: int| self.phases@[i]@),
        }
    }
}

/// Whether a phase ends after `previous` billionths of a second. Only the last one may
/// never end.
pub open spec fn ends_in_turn(phase: Phase, previous: int, last: bool) -> bool {
    match phase.until {
        Amount::Billionths(until) => until > previous,
        Amount::Infinity => last,
        _ => false,
    }
}

/// What is wrong with a phase that follows one ending at `previous` billionths of a
/// second, if anything is.
pub open spec fn phase_fault(phase: Phase, previous: int, last: bool) -> Option<Seq<char>> {
    if text::trimmed(phase.name).len() == 0 {
        Some("schedule phase name cannot be empty"@)
    } else if !ends_in_turn(phase, previous, last) {
        Some("schedule phase until_secs must be finite and strictly increasing"@)
    } else if phase.reserve_ratio matches Some(ratio) && !ratio.within(0, 800_000_000) {
        Some("schedule reserve_ratio must be between 0 and 0.80"@)
    } else if phase.tick_interval matches Some(interval) && !interval.positive() {
        Some("schedule phase tick_interval_secs must be > 0"@)
    } else {
        None
    }
}

/// Where the phase before number `i` ends.
pub open spec fn previous_end(phases: Seq<Phase>, i: int) -> int {
    if i > 0 && phases[i - 1].until is Billionths {
        phases[i - 1].until->Billionths_0 as int
    } else {
        0
    }
}

/// What is wrong with the first phase, from number `i` on, with which something is.
pub open spec fn phases_fault(phases: Seq<Phase>, i: int) -> Option<Seq<char>>
    decreases phases.len() - i,
{
    if i < 0 || i >= phases.len() {
        None
    } else if phase_fault(phases[i], previous_end(phases, i), i + 1 == phases.len()) is Some {
        phase_fault(phases[i], previous_end(phases, i), i + 1 == phases.len())
    } else {
        phases_fault(phases, i + 1)
    }
}

/// Whether a phase ends later than `elapsed` nanoseconds after the start.
pub open spec fn ends_after(phase: Phase, elapsed: nat) -> bool {
    match phase.until {
        Amount::Billionths(until) => elapsed < until,
        Amount::Infinity => true,
        _ => false,
    }
}

/// The phase that covers the time `elapsed` after the start, in nanoseconds: the
/// first that ends later, or else the last of them all.
pub open spec fn phase_at(phases: Seq<Phase>, elapsed: nat) -> Option<Phase>
    decreases phases.len(),
{
    if phases.len() == 0 {
        None
    } else if phases.len() == 1 || ends_after(phases[0], elapsed) {
        Some(phases[0])
    } else {
        phase_at(phases.drop_first(), elapsed)
    }
}

impl Timetable {
    pub open spec fn fault(self) -> Option<Seq<char>> {
        if !self.tick_interval.positive() {
            Some("schedule tick_interval_secs must be > 0"@)
        } else {
            phases_fault(self.phases, 0)
        }
    }
}

impl Default for Schedule {
    fn default() -> (r: Self)
        ensures
            r@ == (Timetable {
                tick_interval: Amount::Billionths(1_000_000_000),
                phases: Seq::<Phase>::empty(),
            }),
    {
        Schedule::new(Amount::Billionths(1_000_000_000))
    }
}

impl Schedule {
    pub fn new(tick_interval_secs: Amount) -> (r: Self)
        ensures
            r@ == (Timetable { tick_interval: tick_interval_secs, phases: Seq::<Phase>::empty() }),
    {
        let r = Schedule { tick_interval_secs, phases: Vec::new() };
        assert(r@.phases =~= Seq::<Phase>::empty());
        r
    }

    pub fn with_phases(self, phases: Vec<SchedulePhase>) -> (r: Self)
        ensures
            r@ == (Timetable {
                phases: Seq::new(phases@.len(), |i: int| phases@[i]@),
                ..self@
            }),
    {
        Schedule { phases, ..self }
    }

    pub fn duplicate(&self) -> (r: Self)
        ensures
            r@ == self@,
    {
        let mut phases: Vec<SchedulePhase> = Vec::new();
        let mut i: usize = 0;
        while i < self.phases.len()
            invariant
                i <= self.phases.len(),
                phases@.len() == i,
                forall|k: int| 0 <= k < i ==> #[trigger] phases@[k]@ == self.phases@[k]@,
            decreases self.phases.len() - i,
        {
            phases.push(self.phases[i].duplicate());
            i = i + 1;
        }
        let r = Schedule { tick_interval_secs: self.tick_interval_secs, phases };
        assert(r@.phases =~= self@.phases);
        r
    }

    pub fn validate(&self) -> (r: Result<(), TaskError>)
        ensures
            match r {
                Ok(()) => self@.fault() is None,
                Err(e) => self@.fault() matches Some(text) && e@ == Refusal::Invalid(text),
            },
    {
        if !self.tick_interval_secs.is_positive() {
            return Err(TaskError::invalid("schedule tick_interval_secs must be > 0"));
        }
        let mut previous: i128 = 0;
        let mut i: usize = 0;
        while i < self.phases.len()
            invariant
                self@.tick_interval.positive(),
                i <= self.phases.len(),
                previous == previous_end(self@.phases, i as int),
                phases_fault(self@.phases, 0) == phases_fault(self@.phases, i as int),
            decreases self.phases.len() - i,
        {
            let phase = &self.phases[i];
            assert(self@.phases[i as int] == phase@);
            if phase.name.trim().is_empty() {
                return Err(TaskError::invalid("schedule phase name cannot be empty"));
            }
            let in_turn: bool = match phase.until_secs {
                Amount::Billionths(until) => until > previous,
                Amount::Infinity => i == self.phases.len() - 1,
                _ => false,
            };
            if !in_turn {
                return Err(
                    TaskError::invalid(
                        "schedule phase until_secs must be finite and strictly increasing",
                    ),
                );
            }
            if let Some(ratio) = &phase.reserve_ratio {
                if !ratio.is_within(0, 800_000_000) {
                    return Err(
                        TaskError::invalid("schedule reserve_ratio must be between 0 and 0.80"),
                    );
                }
            }
            if let Some(interval) = &phase.tick_interval_secs {
                if !interval.is_positive() {
                    return Err(
                        TaskError::invalid("schedule phase tick_interval_secs must be > 0"),
                    );
                }
            }
            previous = match phase.until_secs {
                Amount::Billionths(until) => until,
                _ => 0,
            };
            i = i + 1;
        }
        Ok(())
    }

    /// The phase that covers the time `elapsed` after the start.
    pub fn phase_at(&self, elapsed: Duration) -> (r: Option<&SchedulePhase>)
        ensures
            match r {
                Some(phase) => phase_at(self@.phases, elapsed@) == Some(phase@),
                None => phase_at(self@.phases, elapsed@) is None,
            },
    {
        if self.phases.len() == 0 {
            return None;
        }
        let mut i: usize = 0;
        assert(self@.phases.skip(0) =~= self@.phases);
        while i + 1 < self.phases.len()
            invariant
                i < self.phases.len(),
                phase_at(self@.phases, elapsed@) == phase_at(
                    self@.phases.skip(i as int),
                    elapsed@,
                ),
            decreases self.phases.len() - i,
        {
            let covers: bool = match self.phases[i].until_secs {
                Amount::Billionths(until) => until > 0 && elapsed.nanos < until as u128,
                Amount::Infinity => true,
                _ => false,
            };
            if covers {
                return Some(&self.phases[i]);
            }
            assert(self@.phases.skip(i as int).drop_first() =~= self@.phases.skip(i + 1));
            i = i + 1;
        }
        Some(&self.phases[i])
    }
}

} // verus!
