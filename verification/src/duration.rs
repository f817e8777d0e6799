//! Spans of monotonic time at nanosecond resolution, and the exact integer
//! arithmetic that the budget policy does on them.

use vstd::arithmetic::div_mod;
use vstd::arithmetic::mul;
use vstd::arithmetic::power;
use vstd::prelude::*;

verus! {

/// Nanoseconds in a second; also the number of billionths in one.
pub const BILLION: u128 = 1_000_000_000;

/// Nanoseconds in a millisecond.
pub const MILLION: u128 = 1_000_000;

/// The longest span: one nanosecond short of 2^64 seconds.
pub const MAX_NANOS: u128 = 18_446_744_073_709_551_615_999_999_999;

/// Two times that lie at most this many nanoseconds apart count as equal
/// wherever a boundary is tested.
pub const TOLERANCE: u128 = 1;

/// A span of time, or a reading of a monotonic clock, in nanoseconds.
#[derive(Clone, Copy, Debug, PartialEq, Eq, PartialOrd, Ord, Structural)]
pub struct Duration {
    pub nanos: u128,
}

impl View for Duration {
    type V = nat;

    open spec fn view(&self) -> nat {
        self.nanos as nat
    }
}

/// The span nearest to `x` nanoseconds that a [`Duration`] stands for.
pub open spec fn clip(x: int) -> nat {
    if x < 0 {
        0
    } else if x > MAX_NANOS {
        MAX_NANOS as nat
    } else {
        x as nat
    }
}

pub open spec fn min_nat(a: nat, b: nat) -> nat {
    if a <= b {
        a
    } else {
        b
    }
}

pub open spec fn max_nat(a: nat, b: nat) -> nat {
    if a >= b {
        a
    } else {
        b
    }
}

/// `a` less `b`, or nothing where `b` is larger.
pub open spec fn less(a: nat, b: nat) -> nat {
    if a >= b {
        (a - b) as nat
    } else {
        0
    }
}

/// `numerator / denominator` of `n`, rounded down.
pub open spec fn portion_of(n: nat, numerator: nat, denominator: nat) -> nat {
    ((n * numerator) as int / denominator as int) as nat
}

/// `part / whole` in units of `10^-digits`, rounded down.
pub open spec fn decimal_ratio(part: nat, whole: nat, digits: nat) -> nat {
    ((part * power::pow(10, digits)) as int / whole as int) as nat
}

impl Duration {
    pub fn zero() -> (r: Self)
        ensures
            r@ == 0,
    {
        Duration { nanos: 0 }
    }

    pub fn from_nanos(nanos: u64) -> (r: Self)
        ensures
            r@ == nanos,
    {
        Duration { nanos: nanos as u128 }
    }

    pub fn from_millis(millis: u64) -> (r: Self)
        ensures
            r@ == millis * MILLION,
            r@ <= MAX_NANOS,
    {
        Duration { nanos: millis as u128 * MILLION }
    }

    pub fn from_secs(secs: u64) -> (r: Self)
        ensures
            r@ == secs * BILLION,
            r@ <= MAX_NANOS,
    {
        Duration { nanos: secs as u128 * BILLION }
    }

    /// The sum, or the longest span where the sum is longer.
    pub fn saturating_add(self, other: Self) -> (r: Self)
        ensures
            r@ == clip((self@ + other@) as int),
    {
        if self.nanos > MAX_NANOS || other.nanos > MAX_NANOS - self.nanos {
            Duration { nanos: MAX_NANOS }
        } else {
            Duration { nanos: self.nanos + other.nanos }
        }
    }

    /// The sum, unless it is longer than the longest span.
    pub fn checked_add(self, other: Self) -> (r: Option<Self>)
        ensures
            match r {
                Some(sum) => sum@ == self@ + other@ && sum@ <= MAX_NANOS,
                None => self@ + other@ > MAX_NANOS,
            },
    {
        if self.nanos > MAX_NANOS || other.nanos > MAX_NANOS - self.nanos {
            None
        } else {
            Some(Duration { nanos: self.nanos + other.nanos })
        }
    }

    /// The difference, or nothing where `other` is longer.
    pub fn saturating_sub(self, other: Self) -> (r: Self)
        ensures
            r@ == less(self@, other@),
    {
        if self.nanos >= other.nanos {
            Duration { nanos: self.nanos - other.nanos }
        } else {
            Duration { nanos: 0 }
        }
    }

    /// The shorter of two spans.
    pub fn shorter(self, other: Self) -> (r: Self)
        ensures
            r@ == min_nat(self@, other@),
            r == self || r == other,
    {
        if self.nanos <= other.nanos {
            self
        } else {
            other
        }
    }

    /// The longer of two spans.
    pub fn longer(self, other: Self) -> (r: Self)
        ensures
            r@ == max_nat(self@, other@),
            r == self || r == other,
    {
        if self.nanos >= other.nanos {
            self
        } else {
            other
        }
    }

    /// `numerator / denominator` of the span, rounded down to a nanosecond.
    pub fn portion(self, numerator: u128, denominator: u128) -> (r: Self)
        requires
            numerator <= denominator,
            0 < denominator <= 1_000_000_000_000,
        ensures
            r@ == portion_of(self@, numerator as nat, denominator as nat),
            r@ <= self@,
    {
        let whole: u128 = self.nanos / denominator;
        let rest: u128 = self.nanos % denominator;
        proof {
            div_mod::lemma_fundamental_div_mod(self.nanos as int, denominator as int);
            lemma_portion_split(whole as int, rest as int, numerator as int, denominator as int);
        }
        Duration { nanos: whole * numerator + rest * numerator / denominator }
    }
}

/// A portion of a span is the portion of its whole multiples of the denominator
/// and of what is left over.
proof fn lemma_portion_split(whole: int, rest: int, numerator: int, denominator: int)
    requires
        whole >= 0,
        0 <= rest < denominator,
        0 <= numerator <= denominator <= 1_000_000_000_000,
    ensures
        (denominator * whole + rest) * numerator / denominator == whole * numerator + rest
            * numerator / denominator,
        0 <= whole * numerator <= denominator * whole,
        0 <= rest * numerator <= 1_000_000_000_000 * 1_000_000_000_000,
        0 <= rest * numerator / denominator <= rest,
{
    assert((denominator * whole + rest) * numerator == rest * numerator + whole * numerator
        * denominator) by (nonlinear_arith);
    assert(0 <= rest * numerator <= rest * denominator) by (nonlinear_arith)
        requires
            0 <= rest,
            0 <= numerator <= denominator,
    ;
    assert(rest * denominator <= 1_000_000_000_000 * 1_000_000_000_000) by (nonlinear_arith)
        requires
            0 <= rest < denominator <= 1_000_000_000_000,
    ;
    div_mod::lemma_hoist_over_denominator(rest * numerator, whole * numerator, denominator as nat);
    assert(0 <= whole * numerator <= denominator * whole) by (nonlinear_arith)
        requires
            0 <= whole,
            0 <= numerator <= denominator,
    ;
    assert(0 <= rest * numerator / denominator <= rest) by (nonlinear_arith)
        requires
            0 <= rest * numerator <= rest * denominator,
            denominator > 0,
            0 <= rest,
    ;
}

/// A nonnegative number `quotient + rest / whole`, with a proper fraction.
#[derive(Clone, Copy)]
struct Mixed {
    quotient: u128,
    rest: u128,
}

pub open spec fn capped(x: int) -> int {
    if x > u128::MAX {
        u128::MAX as int
    } else {
        x
    }
}

impl Mixed {
    /// Stands for `n / whole`, up to the largest quotient that fits.
    spec fn holds(self, n: int, whole: int) -> bool {
        &&& 0 <= self.rest < whole
        &&& exists|quotient: int|
            #![trigger whole * quotient]
            quotient >= 0 && n == whole * quotient + self.rest && self.quotient == capped(quotient)
    }

    fn plus(self, other: Self, whole: u128, Ghost(n): Ghost<int>, Ghost(m): Ghost<int>) -> (r: Self)
        requires
            self.holds(n, whole as int),
            other.holds(m, whole as int),
        ensures
            r.holds(n + m, whole as int),
    {
        let ghost a = choose|quotient: int|
            #![trigger whole * quotient]
            quotient >= 0 && n == whole * quotient + self.rest && self.quotient == capped(quotient);
        let ghost b = choose|quotient: int|
            #![trigger whole * quotient]
            quotient >= 0 && m == whole * quotient + other.rest && other.quotient == capped(
                quotient,
            );
        let quotient: u128 = self.quotient.saturating_add(other.quotient);
        if self.rest >= whole - other.rest {
            proof {
                assert(whole * (a + b + 1) == whole * a + whole * b + whole) by (nonlinear_arith);
            }
            Mixed {
                quotient: quotient.saturating_add(1),
                rest: self.rest - (whole - other.rest),
            }
        } else {
            proof {
                assert(whole * (a + b) == whole * a + whole * b) by (nonlinear_arith);
            }
            Mixed { quotient, rest: self.rest + other.rest }
        }
    }
}

/// `part / whole` in units of `10^-digits`: the whole units, and whether the rest
/// makes up half a unit or more.
pub fn ratio(part: Duration, whole: Duration, digits: u8) -> (r: (u128, bool))
    requires
        whole@ > 0,
    ensures
        r.0 == capped(decimal_ratio(part@, whole@, digits as nat) as int),
        r.1 == (2 * ((part@ * power::pow(10, digits as nat)) as int % whole@ as int) >= whole@),
{
    let mut value: Mixed = Mixed {
        quotient: part.nanos / whole.nanos,
        rest: part.nanos % whole.nanos,
    };
    let mut done: u8 = 0;
    proof {
        div_mod::lemma_fundamental_div_mod(part@ as int, whole@ as int);
        power::lemma_pow0(10);
        let quotient = part@ as int / whole@ as int;
        assert(part@ * power::pow(10, 0) == whole@ * quotient + value.rest);
    }
    while done < digits
        invariant
            done <= digits,
            whole@ > 0,
            value.holds(part@ * power::pow(10, done as nat), whole@ as int),
        decreases digits - done,
    {
        let ghost n = part@ * power::pow(10, done as nat);
        let two = value.plus(value, whole.nanos, Ghost(n), Ghost(n));
        let four = two.plus(two, whole.nanos, Ghost(2 * n), Ghost(2 * n));
        let five = four.plus(value, whole.nanos, Ghost(4 * n), Ghost(n));
        value = five.plus(five, whole.nanos, Ghost(5 * n), Ghost(5 * n));
        proof {
            reveal(power::pow);
            let p = power::pow(10, done as nat);
            assert(power::pow(10, (done + 1) as nat) == 10 * p);
            assert(part@ * (10 * p) == 10 * (part@ * p)) by (nonlinear_arith);
        }
        done = done + 1;
    }
    proof {
        let n = part@ * power::pow(10, digits as nat);
        let quotient = choose|quotient: int|
            #![trigger whole@ * quotient]
            quotient >= 0 && n == whole@ * quotient + value.rest && value.quotient == capped(
                quotient,
            );
        mul::lemma_mul_is_commutative(whole@ as int, quotient);
        div_mod::lemma_fundamental_div_mod_converse(n, whole@ as int, quotient, value.rest as int);
    }
    (value.quotient, value.rest >= whole.nanos - value.rest)
}

} // verus!
