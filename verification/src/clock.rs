//! Clocks: monotonic readings for the policy, and wall-clock time for snapshots.

use crate::duration;
use crate::duration::{Duration, MAX_NANOS};
use crate::number::Amount;
use std::sync::atomic::AtomicU64;
use std::sync::Arc;
use std::time::{Instant, SystemTime, SystemTimeError};
use vstd::prelude::*;

verus! {

/// A clock used by the policy engine. Values are monotonic spans from an
/// implementation-defined origin, never wall-clock timestamps.
pub trait Clock: Send + Sync {
    /// Whether the clock may show that time, in nanoseconds: any, unless the
    /// implementation says more.
    open spec fn shows(&self, now: nat) -> bool {
        true
    }

    fn now(&self) -> (r: Duration)
        ensures
            self.shows(r@),
    ;
}

impl<C: Clock> Clock for Arc<C> {
    open spec fn shows(&self, now: nat) -> bool {
        (**self).shows(now)
    }

    fn now(&self) -> Duration {
        (**self).now()
    }
}

/// The clock of a manager.
pub struct Timer {
    pub clock: Box<dyn Clock>,
}

impl Timer {
    /// Whether the clock may show that time, in nanoseconds.
    pub open spec fn shows(&self, now: nat) -> bool {
        self.clock.shows(now)
    }

    pub fn now(&self) -> (r: Duration)
        ensures
            self.shows(r@),
    {
        self.clock.now()
    }
}

/// `std::time::Instant`, of which nothing is known.
#[verifier::external_type_specification]
#[verifier::external_body]
pub struct ExInstant(Instant);

/// `std::time::SystemTime`, of which nothing is known.
#[verifier::external_type_specification]
#[verifier::external_body]
pub struct ExSystemTime(SystemTime);

/// `std::time::SystemTimeError`, of which nothing is known.
#[verifier::external_type_specification]
#[verifier::external_body]
pub struct ExSystemTimeError(SystemTimeError);

/// `Instant::now` reads the monotonic clock. Nothing is claimed of the reading.
#[verifier::external_body]
fn this_instant() -> Instant {
    Instant::now()
}

/// `Instant::elapsed` tells the time since the instant. Nothing is claimed of it.
pub assume_specification[ Instant::elapsed ](instant: &Instant) -> std::time::Duration;

/// `SystemTime::now` reads the wall clock. Nothing is claimed of the reading.
#[verifier::external_body]
fn wall_time() -> SystemTime {
    SystemTime::now()
}

/// `SystemTime::duration_since` tells the time since an earlier moment, or fails where
/// the moment is later. Nothing is claimed of the time, nor of when it fails.
pub assume_specification[ SystemTime::duration_since ](
    time: &SystemTime,
    earlier: SystemTime,
) -> Result<std::time::Duration, SystemTimeError>;

/// `std::time::Duration::as_nanos` counts the nanoseconds of a span that is itself not
/// known. Nothing is claimed of the number.
pub assume_specification[ std::time::Duration::as_nanos ](span: &std::time::Duration) -> u128;

/// `std::time::Duration::as_millis` counts the milliseconds of a span that is itself
/// not known. Nothing is claimed of the number.
pub assume_specification[ std::time::Duration::as_millis ](span: &std::time::Duration) -> u128;

/// `SystemTime::UNIX_EPOCH`, the start of 1970 in UTC. Nothing is claimed of it.
#[verifier::external_body]
fn unix_epoch() -> SystemTime {
    SystemTime::UNIX_EPOCH
}

/// Whether a span comes to that many milliseconds. One that cannot be told comes to
/// none.
pub open spec fn comes_to(
    since: Result<std::time::Duration, SystemTimeError>,
    millis: u128,
) -> bool {
    match since {
        Ok(span) => call_ensures(std::time::Duration::as_millis, (&span,), millis),
        Err(_) => millis == 0,
    }
}

/// Whether `since` may be the answer to how long after the epoch the time `time` is.
pub open spec fn lies_after(
    time: SystemTime,
    epoch: SystemTime,
    since: Result<std::time::Duration, SystemTimeError>,
) -> bool {
    call_ensures(SystemTime::duration_since, (&time, epoch), since)
}

/// Whether the wall clock may show that many milliseconds since the Unix epoch.
pub closed spec fn wall_shows(millis: u128) -> bool {
    exists|time: SystemTime, epoch: SystemTime, since: Result<std::time::Duration, SystemTimeError>|
        {
            &&& call_ensures(wall_time, (), time)
            &&& call_ensures(unix_epoch, (), epoch)
            &&& #[trigger] lies_after(time, epoch, since)
            &&& comes_to(since, millis)
        }
}

/// The milliseconds since the Unix epoch by the wall clock, or none where the clock
/// stands before it.
pub fn unix_millis() -> (r: u128)
    ensures
        wall_shows(r),
{
    let time = wall_time();
    let epoch = unix_epoch();
    let since = time.duration_since(epoch);
    assert(lies_after(time, epoch, since));
    match since {
        Ok(span) => span.as_millis(),
        Err(_) => 0,
    }
}

/// Whether the wall clock may be read as that many milliseconds since the Unix epoch: what
/// it shows, or the largest count that fits.
pub open spec fn wall_reads(r: u64) -> bool {
    exists|millis: u128| #[trigger]
        wall_shows(millis) && r == if millis > u64::MAX {
            u64::MAX
        } else {
            millis as u64
        }
}

/// A count of milliseconds, or the largest that fits.
pub fn fitting_millis(millis: u128) -> (r: u64)
    ensures
        r == if millis > u64::MAX {
            u64::MAX
        } else {
            millis as u64
        },
{
    if millis > u64::MAX as u128 {
        u64::MAX
    } else {
        millis as u64
    }
}

/// The wall-clock time in milliseconds, as snapshots hold it: what the clock shows, or
/// the largest count that fits.
pub fn unix_ms() -> (r: u64)
    ensures
        wall_reads(r),
{
    fitting_millis(unix_millis())
}

/// Production clock backed by [`Instant`].
#[derive(Clone, Copy, Debug)]
pub struct MonotonicClock {
    origin: Instant,
}

impl Default for MonotonicClock {
    fn default() -> (r: Self)
        ensures
            r.begins_now(),
    {
        MonotonicClock { origin: this_instant() }
    }
}

impl MonotonicClock {
    /// The clock counts from the instant that the monotonic clock told.
    pub closed spec fn begins_now(&self) -> bool {
        call_ensures(this_instant, (), self.origin)
    }

    /// Whether that many nanoseconds may have passed since the clock's origin. More than
    /// a span holds are told as the longest span.
    pub closed spec fn may_have_run(&self, nanos: nat) -> bool {
        exists|span: std::time::Duration, passed: u128|
            {
                &&& call_ensures(Instant::elapsed, (&self.origin,), span)
                &&& #[trigger] call_ensures(std::time::Duration::as_nanos, (&span,), passed)
                &&& nanos == duration::min_nat(passed as nat, MAX_NANOS as nat)
            }
    }

    pub fn new() -> (r: Self)
        ensures
            r.begins_now(),
    {
        MonotonicClock { origin: this_instant() }
    }
}

/// The span of that many nanoseconds, or the longest.
pub fn fitting_span(nanos: u128) -> (r: Duration)
    ensures
        r@ == duration::min_nat(nanos as nat, MAX_NANOS as nat),
{
    if nanos > MAX_NANOS {
        Duration { nanos: MAX_NANOS }
    } else {
        Duration { nanos }
    }
}

impl Clock for MonotonicClock {
    open spec fn shows(&self, now: nat) -> bool {
        now <= MAX_NANOS && self.may_have_run(now)
    }

    fn now(&self) -> Duration {
        fitting_span(self.origin.elapsed().as_nanos())
    }
}

/// Deterministic, thread-safe clock for tests and offline simulations. Its clones share
/// one reading.
#[derive(Clone, Debug)]
pub struct ManualClock {
    nanos: Arc<AtomicU64>,
}

impl Default for ManualClock {
    fn default() -> (r: Self)
        ensures
            r.begins_at_zero(),
    {
        ManualClock::new()
    }
}

/// Whether an amount of seconds is neither below zero nor above the longest span.
pub open spec fn is_span(secs: Amount) -> bool {
    secs.within(0, MAX_NANOS as int)
}

/// The reading that stands for an amount of seconds, or the largest.
pub open spec fn reading(secs: Amount) -> u64 {
    if secs.span() > u64::MAX {
        u64::MAX
    } else {
        secs.span() as u64
    }
}

/// The reading after `delta` more nanoseconds; it stops at the largest.
pub open spec fn advanced(old: u64, delta: u64) -> u64 {
    if old + delta > u64::MAX {
        u64::MAX
    } else {
        (old + delta) as u64
    }
}

/// The reading that stands for an amount of seconds.
pub fn reading_of(secs: &Amount) -> (r: u64)
    ensures
        r == reading(*secs),
{
    let nanos: u128 = secs.to_span().nanos;
    if nanos > u64::MAX as u128 {
        u64::MAX
    } else {
        nanos as u64
    }
}

/// The reading after `delta` more nanoseconds.
pub fn reading_after(old: u64, delta: u64) -> (r: u64)
    ensures
        r == advanced(old, delta),
{
    old.saturating_add(delta)
}

/// `AtomicU64::fetch_update` puts what the function makes of the cell's value in its
/// place. Nothing is claimed of the cell, which other clocks share.
#[verifier::external_body]
fn advance_shared(cell: &AtomicU64, delta: u64) {
    let order = std::sync::atomic::Ordering::SeqCst;
    let _ = cell.fetch_update(order, order, |old| Some(reading_after(old, delta)));
}

impl ManualClock {
    /// The shared cell was made with a reading of zero.
    pub closed spec fn begins_at_zero(&self) -> bool {
        call_ensures(AtomicU64::new, (0u64,), *self.nanos)
    }

    /// Whether that may be read from the shared cell.
    pub closed spec fn may_read(&self, nanos: u64) -> bool {
        call_ensures(
            AtomicU64::load,
            (&*self.nanos, std::sync::atomic::Ordering::SeqCst),
            nanos,
        )
    }

    /// That reading is put into the shared cell.
    pub closed spec fn puts(&self, nanos: u64) -> bool {
        call_ensures(
            AtomicU64::store,
            (&*self.nanos, nanos, std::sync::atomic::Ordering::SeqCst),
            (),
        )
    }

    /// The reading in the shared cell is moved on by so much.
    pub closed spec fn moves(&self, delta: u64) -> bool {
        call_ensures(advance_shared, (&*self.nanos, delta), ())
    }

    pub fn new() -> (r: Self)
        ensures
            r.begins_at_zero(),
    {
        ManualClock { nanos: Arc::new(AtomicU64::new(0)) }
    }

    /// Sets the reading that all clones share.
    pub fn set_secs(&self, secs: Amount)
        requires
            is_span(secs),
        ensures
            self.puts(reading(secs)),
    {
        self.nanos.store(reading_of(&secs), std::sync::atomic::Ordering::SeqCst);
    }

    /// Moves the reading that all clones share on.
    pub fn advance_secs(&self, secs: Amount)
        requires
            is_span(secs),
        ensures
            self.moves(reading(secs)),
    {
        advance_shared(&self.nanos, reading_of(&secs));
    }

    pub fn elapsed_secs(&self) -> (r: Duration)
        ensures
            self.shows(r@),
    {
        self.now()
    }
}

impl Clock for ManualClock {
    open spec fn shows(&self, now: nat) -> bool {
        now <= u64::MAX && self.may_read(now as u64)
    }

    fn now(&self) -> Duration {
        Duration::from_nanos(self.nanos.load(std::sync::atomic::Ordering::SeqCst))
    }
}

} // verus!
