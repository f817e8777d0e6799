//! Numbers as callers write them: binary64 bit patterns, and the fixed-point
//! amounts that the policy computes with.

use crate::duration;
use crate::duration::{Duration, BILLION, MAX_NANOS};
use vstd::arithmetic::div_mod;
use vstd::arithmetic::power2;
use vstd::prelude::*;

verus! {

/// The weight of the implicit leading bit of a normal number's mantissa, 2^52.
pub const LEADING_BIT: u64 = 4_503_599_627_370_496;

/// The weight of the sign bit, 2^63.
pub const SIGN_BIT: u64 = 9_223_372_036_854_775_808;

/// The exponent field of infinities and of values that are not a number.
pub const SPECIAL_EXPONENT: u64 = 2047;

/// The largest amount that fits an [`Amount`], in billionths.
pub const LARGEST: u128 = 170_141_183_460_469_231_731_687_303_715_884_105_727;

/// A binary64 floating-point number, held as its bit pattern.
#[derive(Clone, Copy, Debug, PartialEq, Eq, Structural)]
pub struct Number {
    pub bits: u64,
}

/// A number of seconds, percent or the like, to the nearest billionth.
#[derive(Clone, Copy, Debug, PartialEq, Eq, Structural)]
pub enum Amount {
    NotANumber,
    Infinity,
    NegativeInfinity,
    Billionths(i128),
}

impl Amount {
    /// The amount of a span in seconds.
    pub open spec fn spec_of(nanos: nat) -> Amount {
        Amount::Billionths(
            if nanos > LARGEST {
                LARGEST as i128
            } else {
                nanos as i128
            },
        )
    }

    pub fn of(span: Duration) -> (r: Self)
        ensures
            r == Self::spec_of(span@),
    {
        if span.nanos > LARGEST {
            Amount::Billionths(170_141_183_460_469_231_731_687_303_715_884_105_727)
        } else {
            Amount::Billionths(span.nanos as i128)
        }
    }

    /// Finite and greater than zero.
    pub open spec fn positive(self) -> bool {
        self matches Amount::Billionths(value) && value > 0
    }

    /// Finite and from `low` to `high` billionths.
    pub open spec fn within(self, low: int, high: int) -> bool {
        self matches Amount::Billionths(value) && low <= value <= high
    }

    /// The span of that many seconds, which no amount below zero or above the longest
    /// span leaves.
    pub open spec fn span(self) -> nat {
        match self {
            Amount::NotANumber | Amount::NegativeInfinity => 0,
            Amount::Infinity => MAX_NANOS as nat,
            Amount::Billionths(value) => duration::clip(value as int),
        }
    }

    /// A fraction as a percentage. One beyond the largest amount becomes that.
    pub open spec fn percent(self) -> Amount {
        match self {
            Amount::Billionths(value) => if value * 100 > LARGEST {
                Amount::Billionths(LARGEST as i128)
            } else if value * 100 < -(LARGEST as int) {
                Amount::Billionths((-(LARGEST as int)) as i128)
            } else {
                Amount::Billionths((value * 100) as i128)
            },
            _ => self,
        }
    }

    pub fn to_percent(&self) -> (r: Amount)
        ensures
            r == self.percent(),
    {
        match self {
            Amount::Billionths(value) => if *value
                > 1_701_411_834_604_692_317_316_873_037_158_841_057 {
                Amount::Billionths(170_141_183_460_469_231_731_687_303_715_884_105_727)
            } else if *value < -1_701_411_834_604_692_317_316_873_037_158_841_057 {
                Amount::Billionths(-170_141_183_460_469_231_731_687_303_715_884_105_727)
            } else {
                Amount::Billionths(*value * 100)
            },
            _ => *self,
        }
    }

    /// A percentage as a fraction, rounded away from zero: what lies outside a range of
    /// whole percents stays outside.
    pub open spec fn fraction_of_one(self) -> Amount {
        match self {
            Amount::Billionths(value) => if value >= 0 {
                Amount::Billionths(((value + 99) / 100) as i128)
            } else {
                Amount::Billionths((-((-value + 99) / 100)) as i128)
            },
            _ => self,
        }
    }

    pub fn to_fraction(&self) -> (r: Amount)
        ensures
            r == self.fraction_of_one(),
    {
        match self {
            Amount::Billionths(value) => if *value >= 0 {
                let part: i128 = *value / 100;
                Amount::Billionths(
                    if *value % 100 > 0 {
                        part + 1
                    } else {
                        part
                    },
                )
            } else {
                let size: u128 = if *value == i128::MIN {
                    LARGEST + 1
                } else {
                    (-*value) as u128
                };
                let part: i128 = (size / 100) as i128;
                Amount::Billionths(
                    if size % 100 > 0 {
                        -part - 1
                    } else {
                        -part
                    },
                )
            },
            _ => *self,
        }
    }

    pub fn is_positive(&self) -> (r: bool)
        ensures
            r == self.positive(),
    {
        match self {
            Amount::Billionths(value) => *value > 0,
            _ => false,
        }
    }

    pub fn is_within(&self, low: i128, high: i128) -> (r: bool)
        ensures
            r == self.within(low as int, high as int),
    {
        match self {
            Amount::Billionths(value) => low <= *value && *value <= high,
            _ => false,
        }
    }

    pub fn to_span(&self) -> (r: Duration)
        ensures
            r@ == self.span(),
            r@ <= MAX_NANOS,
    {
        match self {
            Amount::NotANumber | Amount::NegativeInfinity => Duration { nanos: 0 },
            Amount::Infinity => Duration { nanos: MAX_NANOS },
            Amount::Billionths(value) => if *value < 0 {
                Duration { nanos: 0 }
            } else {
                let nanos: u128 = *value as u128;
                if nanos > MAX_NANOS {
                    Duration { nanos: MAX_NANOS }
                } else {
                    Duration { nanos }
                }
            },
        }
    }
}

/// The whole number nearest to `n / d`; of two that are equally near, the even one.
pub open spec fn nearest(n: nat, d: nat) -> nat {
    let q = (n as int / d as int) as nat;
    let r = (n as int % d as int) as nat;
    if 2 * r < d || (2 * r == d && q % 2 == 0) {
        q
    } else {
        q + 1
    }
}

impl Number {
    pub open spec fn negative(self) -> bool {
        self.bits >= SIGN_BIT
    }

    pub open spec fn exponent(self) -> nat {
        ((self.bits / LEADING_BIT) % 2048) as nat
    }

    pub open spec fn fraction(self) -> nat {
        (self.bits % LEADING_BIT) as nat
    }

    pub open spec fn finite(self) -> bool {
        self.exponent() != SPECIAL_EXPONENT
    }

    pub open spec fn mantissa(self) -> nat {
        if self.exponent() == 0 {
            self.fraction()
        } else {
            (LEADING_BIT + self.fraction()) as nat
        }
    }

    /// A finite number has the magnitude `mantissa * 2^scale`.
    pub open spec fn scale(self) -> int {
        if self.exponent() == 0 {
            -1074
        } else {
            self.exponent() - 1075
        }
    }

    /// The magnitude of a finite number in billionths, to the nearest one.
    pub open spec fn billionths(self) -> nat {
        let n = self.mantissa() * BILLION as nat;
        if self.scale() >= 0 {
            n * power2::pow2(self.scale() as nat)
        } else {
            nearest(n, power2::pow2((-self.scale()) as nat))
        }
    }

    /// The magnitude of a finite number in units of 2^-1074, which is exact.
    pub open spec fn units(self) -> nat {
        self.mantissa() * power2::pow2((self.scale() + 1074) as nat)
    }

    pub open spec fn spec_amount(self) -> Amount {
        if !self.finite() {
            if self.fraction() > 0 {
                Amount::NotANumber
            } else if self.negative() {
                Amount::NegativeInfinity
            } else {
                Amount::Infinity
            }
        } else {
            let kept = if self.billionths() == 0 && self.mantissa() > 0 {
                1
            } else if self.billionths() > LARGEST {
                LARGEST as int
            } else {
                self.billionths() as int
            };
            Amount::Billionths(
                if self.negative() {
                    (-kept) as i128
                } else {
                    kept as i128
                },
            )
        }
    }

    /// The span of that many seconds, to the nearest nanosecond: none unless the
    /// number is finite, positive and short enough for a span.
    pub open spec fn spec_duration(self) -> Option<nat> {
        if self.finite() && !self.negative() && self.units() > 0 && self.billionths()
            <= MAX_NANOS {
            Some(self.billionths())
        } else {
            None
        }
    }

    fn exponent_field(self) -> (r: u64)
        ensures
            r == self.exponent(),
            r < 2048,
    {
        (self.bits / LEADING_BIT) % 2048
    }

    pub fn is_finite(self) -> (r: bool)
        ensures
            r == self.finite(),
    {
        self.exponent_field() != SPECIAL_EXPONENT
    }

    /// Whether the number is finite and greater than zero.
    pub fn is_positive(self) -> (r: bool)
        ensures
            r == (self.finite() && !self.negative() && self.units() > 0),
    {
        proof {
            lemma_units(self);
        }
        self.is_finite() && self.bits < SIGN_BIT && self.bits != 0
    }

    /// The magnitude in billionths, or one more than the largest amount where it
    /// is larger than that.
    fn magnitude(self) -> (r: u128)
        requires
            self.finite(),
        ensures
            self.billionths() <= LARGEST ==> r == self.billionths(),
            self.billionths() > LARGEST ==> r == LARGEST + 1,
    {
        let exponent: u64 = self.exponent_field();
        let fraction: u64 = self.bits % LEADING_BIT;
        let mantissa: u64 = if exponent == 0 {
            fraction
        } else {
            LEADING_BIT + fraction
        };
        let n: u128 = mantissa as u128 * BILLION;
        if exponent >= 1075 {
            let mut value: u128 = n;
            let mut done: u64 = 0;
            proof {
                power2::lemma2_to64();
                assert(n * power2::pow2(0) == n) by (nonlinear_arith)
                    requires
                        power2::pow2(0) == 1,
                ;
            }
            while done < exponent - 1075
                invariant
                    1075 <= exponent < 2048,
                    done <= exponent - 1075,
                    n * power2::pow2(done as nat) <= LARGEST ==> value == n * power2::pow2(
                        done as nat,
                    ),
                    n * power2::pow2(done as nat) > LARGEST ==> value == LARGEST + 1,
                decreases exponent - done,
            {
                proof {
                    power2::lemma_pow2_unfold((done + 1) as nat);
                    let p = power2::pow2(done as nat);
                    assert(n * (2 * p) == 2 * (n * p)) by (nonlinear_arith);
                }
                value = if value > LARGEST / 2 {
                    LARGEST + 1
                } else {
                    value * 2
                };
                done = done + 1;
            }
            value
        } else {
            let shift: u64 = if exponent == 0 {
                1074
            } else {
                1075 - exponent
            };
            if shift >= 84 {
                proof {
                    power2::lemma2_to64();
                    power2::lemma_pow2_adds(64, 20);
                    if shift > 84 {
                        power2::lemma_pow2_strictly_increases(84, shift as nat);
                    }
                    let d = power2::pow2(shift as nat);
                    assert(2 * n < d);
                    div_mod::lemma_fundamental_div_mod_converse(n as int, d as int, 0, n as int);
                }
                0
            } else {
                let mut d: u128 = 1;
                let mut done: u64 = 0;
                proof {
                    power2::lemma2_to64();
                    power2::lemma_pow2_adds(64, 20);
                }
                while done < shift
                    invariant
                        done <= shift < 84,
                        d == power2::pow2(done as nat),
                        d > 0,
                        d <= power2::pow2(84),
                        power2::pow2(84) == 0x10_0000_0000_0000_0000_0000,
                    decreases shift - done,
                {
                    proof {
                        power2::lemma_pow2_unfold((done + 1) as nat);
                        if done + 1 < 84 {
                            power2::lemma_pow2_strictly_increases((done + 1) as nat, 84);
                        }
                    }
                    d = d * 2;
                    done = done + 1;
                }
                let q: u128 = n / d;
                let r: u128 = n % d;
                proof {
                    div_mod::lemma_fundamental_div_mod(n as int, d as int);
                    assert(q <= n) by (nonlinear_arith)
                        requires
                            q == n as int / d as int,
                            d > 0,
                    ;
                }
                if r < d - r || (r == d - r && q % 2 == 0) {
                    q
                } else {
                    q + 1
                }
            }
        }
    }

    /// The number to the nearest billionth. One that is not zero stays apart from
    /// zero, and one beyond the largest amount becomes that.
    pub fn amount(self) -> (r: Amount)
        ensures
            r == self.spec_amount(),
    {
        if !self.is_finite() {
            return if self.bits % LEADING_BIT > 0 {
                Amount::NotANumber
            } else if self.bits >= SIGN_BIT {
                Amount::NegativeInfinity
            } else {
                Amount::Infinity
            };
        }
        let size: u128 = self.magnitude();
        let kept: u128 = if size > LARGEST {
            LARGEST
        } else if size == 0 && self.bits % SIGN_BIT != 0 {
            1
        } else {
            size
        };
        proof {
            lemma_units(self);
        }
        let value: i128 = kept as i128;
        if self.bits >= SIGN_BIT {
            Amount::Billionths(-value)
        } else {
            Amount::Billionths(value)
        }
    }

    /// Whether this number is greater than `other`, for two that are finite and not
    /// below zero.
    pub fn exceeds(self, other: Self) -> (r: bool)
        requires
            self.finite() && !self.negative(),
            other.finite() && !other.negative(),
        ensures
            r == (self.units() > other.units()),
    {
        proof {
            if other.bits < self.bits {
                lemma_bits_order(other, self);
            } else if self.bits < other.bits {
                lemma_bits_order(self, other);
            }
        }
        self.bits > other.bits
    }

    /// The span of that many seconds, to the nearest nanosecond: none unless the
    /// number is finite, positive and short enough for a span.
    pub fn checked_duration(self) -> (r: Option<Duration>)
        ensures
            match r {
                Some(span) => self.spec_duration() == Some(span@),
                None => self.spec_duration() is None,
            },
    {
        if !self.is_positive() {
            return None;
        }
        let size: u128 = self.magnitude();
        if size > MAX_NANOS {
            None
        } else {
            Some(Duration { nanos: size })
        }
    }
}

/// `n / 1000`, taken times `2^down` and divided by `2^up`, has the leading bit of a
/// mantissa.
pub open spec fn thousandths_binade(n: nat, up: nat, down: nat) -> bool {
    &&& LEADING_BIT * (1000 * power2::pow2(up)) <= n * power2::pow2(down)
    &&& n * power2::pow2(down) < 2 * LEADING_BIT * (1000 * power2::pow2(up))
}

impl Number {
    /// This number is `n / 1000` rounded to a binary64 number as division rounds:
    /// to the nearest, and of two that are equally near to the even one.
    pub open spec fn is_thousandths(self, n: nat) -> bool {
        if n == 0 {
            self.bits == 0
        } else {
            &&& self.finite()
            &&& !self.negative()
            &&& exists|up: nat, down: nat|
                #![trigger thousandths_binade(n, up, down)]
                thousandths_binade(n, up, down) && down <= 1074 && self.units() == nearest(
                    n * power2::pow2(down),
                    1000 * power2::pow2(up),
                ) * power2::pow2((1074 + up - down) as nat)
        }
    }

    /// The number `n / 1000`, rounded as division rounds.
    pub open spec fn thousandths(n: nat) -> Self {
        choose|r: Number| r.is_thousandths(n)
    }

    /// The number `n / 1000`, rounded as division rounds.
    pub fn from_thousandths(n: u128) -> (r: Self)
        ensures
            r == Self::thousandths(n as nat),
            r.is_thousandths(n as nat),
    {
        let r = Self::divide_by_thousand(n);
        proof {
            lemma_thousandths_unique(r, Self::thousandths(n as nat), n as nat);
        }
        r
    }

    fn divide_by_thousand(n: u128) -> (r: Self)
        ensures
            r.is_thousandths(n as nat),
    {
        if n == 0 {
            return Number { bits: 0 };
        }
        let few: bool = n < 0x2_0000_0000_0000_0000;
        let down: u64 = if few {
            63
        } else {
            0
        };
        let numerator: u128 = if few {
            n * 0x8000_0000_0000_0000
        } else {
            n
        };
        let mut denominator: u128 = 1000;
        let mut up: u64 = 0;
        proof {
            power2::lemma2_to64();
            power2::lemma2_to64_rest();
            assert(n * power2::pow2(0) == n) by (nonlinear_arith)
                requires
                    power2::pow2(0) == 1,
            ;
        }
        while numerator / 0x20_0000_0000_0000 >= denominator
            invariant
                denominator == 1000 * power2::pow2(up as nat),
                0x10_0000_0000_0000 * denominator <= numerator,
                1000 <= denominator,
                denominator <= 0x1000_0000_0000_0000_0000,
                up <= 76,
            decreases numerator - denominator,
        {
            proof {
                power2::lemma_pow2_unfold((up + 1) as nat);
                if up >= 66 {
                    power2::lemma2_to64();
                    power2::lemma_pow2_adds(64, 2);
                    if up > 66 {
                        power2::lemma_pow2_strictly_increases(66, up as nat);
                    }
                }
            }
            denominator = denominator * 2;
            up = up + 1;
        }
        let q: u128 = numerator / denominator;
        let r: u128 = numerator % denominator;
        proof {
            assert(LEADING_BIT <= q < 2 * LEADING_BIT) by (nonlinear_arith)
                requires
                    denominator > 0,
                    q == numerator as int / denominator as int,
                    LEADING_BIT * denominator <= numerator < 2 * LEADING_BIT * denominator,
            ;
        }
        let rounded: u128 = if r < denominator - r || (r == denominator - r && q % 2 == 0) {
            q
        } else {
            q + 1
        };
        let exponent: u64 = up + 1075 - down;
        let result = Number { bits: exponent * LEADING_BIT + (rounded as u64 - LEADING_BIT) };
        proof {
            assert(thousandths_binade(n as nat, up as nat, down as nat));
            let p = power2::pow2((1074 + up - down) as nat);
            if rounded == 2 * LEADING_BIT {
                power2::lemma_pow2_unfold((1075 + up - down) as nat);
                assert(LEADING_BIT * (2 * p) == 2 * LEADING_BIT * p) by (nonlinear_arith);
            }
        }
        result
    }
}

impl Number {
    /// The positive infinity.
    pub open spec fn infinite(self) -> bool {
        self.bits == 2047 * LEADING_BIT
    }

    /// This number is `s` units of 2^-1074 rounded to a binary64 number: to the nearest,
    /// of two that are equally near to the even one, and to infinity beyond the largest.
    pub open spec fn is_rounded(self, s: nat) -> bool {
        if s < 2 * LEADING_BIT {
            self.finite() && !self.negative() && self.units() == s
        } else {
            exists|k: nat|
                #![trigger power2::pow2(k)]
                LEADING_BIT * power2::pow2(k) <= s < 2 * LEADING_BIT * power2::pow2(k)
                    && self.is_units_or_infinite(
                    nearest(s, power2::pow2(k)) * power2::pow2(k),
                )
        }
    }

    pub open spec fn is_units_or_infinite(self, v: nat) -> bool {
        if v >= 2 * LEADING_BIT * power2::pow2(2045) {
            self.infinite()
        } else {
            self.finite() && !self.negative() && self.units() == v
        }
    }

    /// The number that `s` units of 2^-1074 are rounded to.
    pub open spec fn rounded(s: nat) -> Self {
        choose|r: Number| r.is_rounded(s)
    }

    /// The sum of two numbers that are finite and not below zero, rounded as addition
    /// rounds.
    pub open spec fn spec_plus(self, other: Self) -> Self {
        Self::rounded(self.units() + other.units())
    }

    /// Whether this number is at most `other`, for one that is finite and not below zero.
    /// What is no number is not.
    pub open spec fn spec_at_most(self, other: Self) -> bool {
        if self.exponent() == SPECIAL_EXPONENT && self.fraction() > 0 {
            false
        } else {
            self.negative() || (self.finite() && self.units() <= other.units())
        }
    }

    pub fn at_most(self, other: Self) -> (r: bool)
        requires
            other.finite() && !other.negative(),
        ensures
            r == self.spec_at_most(other),
    {
        if self.exponent_field() == SPECIAL_EXPONENT && self.bits % LEADING_BIT > 0 {
            false
        } else if self.bits >= SIGN_BIT {
            true
        } else {
            self.is_finite() && !self.exceeds(other)
        }
    }

    fn mantissa_bits(self) -> (r: u64)
        ensures
            r == self.mantissa(),
            r < 2 * LEADING_BIT,
            self.exponent() > 0 ==> r >= LEADING_BIT,
    {
        let fraction: u64 = self.bits % LEADING_BIT;
        if self.exponent_field() == 0 {
            fraction
        } else {
            LEADING_BIT + fraction
        }
    }

    /// The sum of two numbers that are finite and not below zero, rounded as addition
    /// rounds.
    pub fn plus(self, other: Self) -> (r: Self)
        requires
            self.finite() && !self.negative(),
            other.finite() && !other.negative(),
        ensures
            r == self.spec_plus(other),
            r.is_rounded(self.units() + other.units()),
    {
        let r = if self.bits >= other.bits {
            self.plus_smaller(other)
        } else {
            other.plus_smaller(self)
        };
        proof {
            let s = self.units() + other.units();
            lemma_rounded_unique(r, self.spec_plus(other), s);
        }
        r
    }

    fn plus_smaller(self, other: Self) -> (r: Self)
        requires
            self.finite() && !self.negative(),
            other.finite() && !other.negative(),
            other.bits <= self.bits,
        ensures
            r.is_rounded(self.units() + other.units()),
    {
        let high: u64 = if self.exponent_field() == 0 {
            0
        } else {
            self.exponent_field() - 1
        };
        let low: u64 = if other.exponent_field() == 0 {
            0
        } else {
            other.exponent_field() - 1
        };
        assert(low <= high <= 2045) by {
            assert(other.bits / LEADING_BIT <= self.bits / LEADING_BIT);
        }
        let (large, small): (u64, u64) = (self.mantissa_bits(), other.mantissa_bits());
        if high - low > 60 {
            proof {
                lemma_absorbed(
                    large as nat,
                    small as nat,
                    high as nat,
                    low as nat,
                );
                assert(power2::pow2(high as nat) > 0);
                lemma_below_infinity(large as nat, high as nat);
            }
            return self;
        }
        let mut factor: u128 = 1;
        let mut done: u64 = 0;
        proof {
            power2::lemma2_to64();
            power2::lemma2_to64_rest();
        }
        while done < high - low
            invariant
                low <= high,
                done <= high - low <= 60,
                factor == power2::pow2(done as nat),
                1 <= factor,
                factor <= 0x1000_0000_0000_0000,
                power2::pow2(60) == 0x1000_0000_0000_0000,
            decreases high - low - done,
        {
            proof {
                power2::lemma_pow2_unfold((done + 1) as nat);
                if done + 1 < 60 {
                    power2::lemma_pow2_strictly_increases((done + 1) as nat, 60);
                }
            }
            factor = factor * 2;
            done = done + 1;
        }
        assert(large * factor < 0x20_0000_0000_0000 * 0x1000_0000_0000_0000) by (nonlinear_arith)
            requires
                0 <= large < 0x20_0000_0000_0000,
                1 <= factor <= 0x1000_0000_0000_0000,
        ;
        let sum: u128 = large as u128 * factor + small as u128;
        proof {
            lemma_aligned(
                large as nat,
                small as nat,
                high as nat,
                low as nat,
                factor as nat,
            );
        }
        encode(sum, low)
    }
}

/// The number `t * 2^(low - 1074)`, rounded as arithmetic rounds.
fn encode(t: u128, low: u64) -> (r: Number)
    requires
        low <= 2045,
        t < 0x4_0000_0000_0000_0000_0000_0000_0000,
        low > 0 ==> t >= LEADING_BIT,
    ensures
        r.is_rounded(t as nat * power2::pow2(low as nat)),
{
    proof {
        power2::lemma2_to64();
    }
    if t < 0x20_0000_0000_0000 {
        let bits: u64 = if t < 0x10_0000_0000_0000 {
            t as u64
        } else {
            low * LEADING_BIT + t as u64
        };
        let result = Number { bits };
        proof {
            lemma_exact(t as nat, low as nat, result);
        }
        return result;
    }
    let mut p: u128 = 1;
    let mut j: u64 = 0;
    while t / 0x20_0000_0000_0000 >= p
        invariant
            p == power2::pow2(j as nat),
            1 <= p,
            0x10_0000_0000_0000 * p <= t,
            t < 0x4_0000_0000_0000_0000_0000_0000_0000,
            j <= 61,
        decreases t - p,
    {
        proof {
            power2::lemma_pow2_unfold((j + 1) as nat);
            power2::lemma2_to64_rest();
        }
        p = p * 2;
        j = j + 1;
    }
    let q: u128 = t / p;
    let rest: u128 = t % p;
    proof {
        assert(LEADING_BIT <= q < 2 * LEADING_BIT) by (nonlinear_arith)
            requires
                p > 0,
                q == t as int / p as int,
                LEADING_BIT * p <= t < 2 * LEADING_BIT * p,
        ;
    }
    let rounded: u128 = if rest < p - rest || (rest == p - rest && q % 2 == 0) {
        q
    } else {
        q + 1
    };
    let k: u64 = low + j;
    proof {
        power2::lemma_pow2_adds(j as nat, low as nat);
        power2::lemma_pow2_pos(low as nat);
        lemma_nearest_scaled(t as nat, p as nat, power2::pow2(low as nat));
        let pk = power2::pow2(k as nat);
        let c = power2::pow2(low as nat);
        assert(LEADING_BIT * (p * c) <= t * c < 2 * LEADING_BIT * (p * c)) by (nonlinear_arith)
            requires
                LEADING_BIT * p <= t < 2 * LEADING_BIT * p,
                c > 0,
        ;
        assert(pk == p * c);
        assert(nearest((t * c) as nat, pk) == rounded);
        assert(t as nat * c >= 2 * LEADING_BIT) by (nonlinear_arith)
            requires
                t >= 2 * LEADING_BIT,
                c >= 1,
        ;
    }
    if k >= 2046 || (k == 2045 && rounded == 0x20_0000_0000_0000) {
        let result = Number { bits: 2047 * LEADING_BIT };
        proof {
            lemma_beyond(rounded as nat, k as nat);
            assert(result.is_units_or_infinite(rounded as nat * power2::pow2(k as nat)));
        }
        result
    } else {
        let result = Number { bits: (k + 1) * LEADING_BIT + (rounded as u64 - LEADING_BIT) };
        proof {
            lemma_encoded(rounded as nat, k as nat, result);
            assert(result.is_units_or_infinite(rounded as nat * power2::pow2(k as nat)));
        }
        result
    }
}

/// Nonnegative finite numbers are ordered as their bit patterns are.
pub proof fn lemma_bits_order(a: Number, b: Number)
    requires
        a.finite() && !a.negative(),
        b.finite() && !b.negative(),
        a.bits < b.bits,
    ensures
        a.units() < b.units(),
{
    let pa = power2::pow2((a.scale() + 1074) as nat);
    let pb = power2::pow2((b.scale() + 1074) as nat);
    power2::lemma_pow2_pos((a.scale() + 1074) as nat);
    power2::lemma_pow2_pos((b.scale() + 1074) as nat);
    let (ma, mb) = (a.mantissa(), b.mantissa());
    if a.scale() == b.scale() {
        assert(ma < mb);
        assert(ma * pa < mb * pa) by (nonlinear_arith)
            requires
                ma < mb,
                pa > 0,
        ;
    } else {
        assert(a.scale() < b.scale());
        power2::lemma_pow2_unfold((a.scale() + 1075) as nat);
        if a.scale() + 1 < b.scale() {
            power2::lemma_pow2_strictly_increases(
                (a.scale() + 1075) as nat,
                (b.scale() + 1074) as nat,
            );
        }
        assert(2 * pa <= pb);
        assert(ma * pa < mb * pb) by (nonlinear_arith)
            requires
                ma < 2 * LEADING_BIT,
                LEADING_BIT <= mb,
                0 < pa,
                2 * pa <= pb,
        ;
    }
}

/// The bits below the sign are zero exactly where the number is zero.
proof fn lemma_units(x: Number)
    ensures
        x.finite() ==> ((x.units() == 0) == (x.bits % SIGN_BIT == 0)),
        x.finite() ==> ((x.mantissa() == 0) == (x.bits % SIGN_BIT == 0)),
{
    let p = power2::pow2((x.scale() + 1074) as nat);
    power2::lemma_pow2_pos((x.scale() + 1074) as nat);
    assert((x.mantissa() * p == 0) == (x.mantissa() == 0)) by (nonlinear_arith)
        requires
            p > 0,
    ;
}

/// Powers of two keep the order of their exponents.
proof fn lemma_exponents(a: nat, b: nat)
    requires
        power2::pow2(a) < 2 * power2::pow2(b),
    ensures
        a <= b,
{
    if a > b {
        lemma_doubled(b, a);
    }
}

/// The binade of a fraction fixes its scale.
proof fn lemma_binade_scale(n: nat, u1: nat, d1: nat, u2: nat, d2: nat)
    requires
        n > 0,
        thousandths_binade(n, u1, d1),
        thousandths_binade(n, u2, d2),
    ensures
        u1 + d2 <= u2 + d1,
{
    let (pu1, pd1) = (power2::pow2(u1), power2::pow2(d1));
    let (pu2, pd2) = (power2::pow2(u2), power2::pow2(d2));
    power2::lemma_pow2_pos(d1);
    power2::lemma_pow2_pos(d2);
    power2::lemma_pow2_pos(u1);
    power2::lemma_pow2_pos(u2);
    let big = LEADING_BIT * 1000;
    assert(LEADING_BIT * (1000 * pu1) == big * pu1) by (nonlinear_arith)
        requires
            big == LEADING_BIT * 1000,
    ;
    assert(2 * LEADING_BIT * (1000 * pu2) == 2 * big * pu2) by (nonlinear_arith)
        requires
            big == LEADING_BIT * 1000,
    ;
    assert(big * (pu1 * pd2) <= n * pd1 * pd2) by (nonlinear_arith)
        requires
            big * pu1 <= n * pd1,
            pd2 > 0,
    ;
    assert(n * pd2 * pd1 < 2 * big * (pu2 * pd1)) by (nonlinear_arith)
        requires
            n * pd2 < 2 * big * pu2,
            pd1 > 0,
    ;
    assert(n * pd1 * pd2 == n * pd2 * pd1) by (nonlinear_arith);
    assert(big * (pu1 * pd2) < big * (2 * (pu2 * pd1))) by {
        assert(2 * big * (pu2 * pd1) == big * (2 * (pu2 * pd1))) by (nonlinear_arith);
    }
    assert(pu1 * pd2 < 2 * (pu2 * pd1)) by (nonlinear_arith)
        requires
            big * (pu1 * pd2) < big * (2 * (pu2 * pd1)),
            big > 0,
    ;
    power2::lemma_pow2_adds(u1, d2);
    power2::lemma_pow2_adds(u2, d1);
    lemma_exponents(u1 + d2, u2 + d1);
}

/// A fraction of thousandths is rounded in one way only.
pub proof fn lemma_thousandths_unique(a: Number, b: Number, n: nat)
    requires
        a.is_thousandths(n),
        b.is_thousandths(n),
    ensures
        a == b,
{
    if n > 0 {
        let (u1, d1) = choose|up: nat, down: nat|
            #![trigger thousandths_binade(n, up, down)]
            thousandths_binade(n, up, down) && down <= 1074 && a.units() == nearest(
                n * power2::pow2(down),
                1000 * power2::pow2(up),
            ) * power2::pow2((1074 + up - down) as nat);
        let (u2, d2) = choose|up: nat, down: nat|
            #![trigger thousandths_binade(n, up, down)]
            thousandths_binade(n, up, down) && down <= 1074 && b.units() == nearest(
                n * power2::pow2(down),
                1000 * power2::pow2(up),
            ) * power2::pow2((1074 + up - down) as nat);
        lemma_binade_scale(n, u1, d1, u2, d2);
        lemma_binade_scale(n, u2, d2, u1, d1);
        if d1 <= d2 {
            lemma_fraction_scaled(n, u1, d1, (d2 - d1) as nat);
        } else {
            lemma_fraction_scaled(n, u2, d2, (d1 - d2) as nat);
        }
        if a.bits < b.bits {
            lemma_bits_order(a, b);
        } else if b.bits < a.bits {
            lemma_bits_order(b, a);
        }
    }
}

/// Numerator and denominator may be multiplied by the same power of two.
proof fn lemma_fraction_scaled(n: nat, up: nat, down: nat, more: nat)
    ensures
        nearest(n * power2::pow2(down), 1000 * power2::pow2(up)) == nearest(
            n * power2::pow2(down + more),
            1000 * power2::pow2(up + more),
        ),
{
    let c = power2::pow2(more);
    power2::lemma_pow2_pos(more);
    power2::lemma_pow2_pos(up);
    power2::lemma_pow2_adds(down, more);
    power2::lemma_pow2_adds(up, more);
    let (pd, pu) = (power2::pow2(down), power2::pow2(up));
    lemma_nearest_scaled(n * pd, 1000 * pu, c);
    assert(n * (pd * c) == (n * pd) * c) by (nonlinear_arith);
    assert(1000 * (pu * c) == (1000 * pu) * c) by (nonlinear_arith);
}

/// The billionths of a number follow from its exact value.
pub proof fn lemma_billionths(x: Number)
    requires
        x.finite(),
    ensures
        x.billionths() == nearest(x.units() * 1_000_000_000, power2::pow2(1074)),
{
    let m = x.mantissa();
    let n = m * 1_000_000_000;
    let full = power2::pow2(1074);
    if x.scale() >= 0 {
        let k = x.scale() as nat;
        let p = power2::pow2(k);
        power2::lemma_pow2_adds(k, 1074);
        power2::lemma_pow2_pos(1074);
        assert(m * (p * full) * 1_000_000_000 == (m * 1_000_000_000 * p) * full)
            by (nonlinear_arith);
        let whole = n * p;
        assert(x.units() * 1_000_000_000 == whole * full + 0);
        div_mod::lemma_fundamental_div_mod_converse(
            (x.units() * 1_000_000_000) as int,
            full as int,
            whole as int,
            0,
        );
    } else {
        let k = (-x.scale()) as nat;
        let rest = (1074 - k) as nat;
        let c = power2::pow2(rest);
        power2::lemma_pow2_adds(k, rest);
        power2::lemma_pow2_pos(k);
        power2::lemma_pow2_pos(rest);
        lemma_nearest_scaled(n, power2::pow2(k), c);
        assert(m * c * 1_000_000_000 == m * 1_000_000_000 * c) by (nonlinear_arith);
    }
}

/// A smaller number has no more billionths.
pub proof fn lemma_billionths_order(a: Number, b: Number)
    requires
        a.finite(),
        b.finite(),
        a.units() <= b.units(),
    ensures
        a.billionths() <= b.billionths(),
{
    let d = power2::pow2(1074);
    power2::lemma_pow2_pos(1074);
    lemma_billionths(a);
    lemma_billionths(b);
    lemma_nearest_order(a.units() * 1_000_000_000, b.units() * 1_000_000_000, d);
}

/// A larger fraction has no smaller nearest whole number.
proof fn lemma_nearest_order(a: nat, b: nat, d: nat)
    requires
        a <= b,
        d > 0,
    ensures
        nearest(a, d) <= nearest(b, d),
{
    let (qa, ra) = (a as int / d as int, a as int % d as int);
    let (qb, rb) = (b as int / d as int, b as int % d as int);
    div_mod::lemma_fundamental_div_mod(a as int, d as int);
    div_mod::lemma_fundamental_div_mod(b as int, d as int);
    assert(qa <= qb) by (nonlinear_arith)
        requires
            d * qa + ra <= d * qb + rb,
            0 <= ra < d,
            0 <= rb < d,
    ;
    if qa == qb {
        assert(ra <= rb) by (nonlinear_arith)
            requires
                d * qa + ra <= d * qb + rb,
                qa == qb,
        ;
    }
}

/// A whole number is nearest to a fraction that is less than half away.
proof fn lemma_nearest_is(n: nat, d: nat, q: nat)
    requires
        d > 0,
        -(d as int) < 2 * (n - q * d) < d,
    ensures
        nearest(n, d) == q,
{
    let rest = n - q * d;
    if rest >= 0 {
        div_mod::lemma_fundamental_div_mod_converse(n as int, d as int, q as int, rest);
    } else {
        assert(q > 0) by (nonlinear_arith)
            requires
                n - q * d < 0,
                n >= 0,
                q >= 0,
                d > 0,
        ;
        assert((q - 1) * d + (rest + d) == n) by (nonlinear_arith)
            requires
                rest == n - q * d,
        ;
        div_mod::lemma_fundamental_div_mod_converse(n as int, d as int, q - 1, rest + d);
    }
}

/// The nearest whole number is at most half away.
proof fn lemma_nearest_error(n: nat, d: nat)
    requires
        d > 0,
    ensures
        -(d as int) <= 2 * (nearest(n, d) * d - n) <= d,
{
    let q = n as int / d as int;
    let r = n as int % d as int;
    div_mod::lemma_fundamental_div_mod(n as int, d as int);
    assert(q * d == d * q) by (nonlinear_arith);
    assert((q + 1) * d == q * d + d) by (nonlinear_arith);
}

/// No thousandths are zero.
pub proof fn lemma_no_thousandths()
    ensures
        Number::thousandths(0) == (Number { bits: 0 }),
        Number::thousandths(0).units() == 0,
{
    lemma_thousandths_exist(0);
    lemma_units(Number { bits: 0 });
}

/// Up to a million seconds, a number of milliseconds stands for exactly that span.
pub proof fn law_thousandths_are_exact_spans(n: nat)
    requires
        n <= 1_000_000_000,
    ensures
        Number::thousandths(n).finite(),
        !Number::thousandths(n).negative(),
        Number::thousandths(n).billionths() == n * 1_000_000,
        n > 0 ==> Number::thousandths(n).units() > 0,
{
    let x = Number::thousandths(n);
    lemma_thousandths_exist(n);
    if n == 0 {
        assert(x.bits == 0);
        lemma_units(x);
        lemma_billionths(x);
        power2::lemma_pow2_pos(1074);
        lemma_nearest_is(0, power2::pow2(1074), 0);
    } else {
        let (up, down) = choose|up: nat, down: nat|
            #![trigger thousandths_binade(n, up, down)]
            thousandths_binade(n, up, down) && down <= 1074 && x.units() == nearest(
                n * power2::pow2(down),
                1000 * power2::pow2(up),
            ) * power2::pow2((1074 + up - down) as nat);
        let (pu, pd) = (power2::pow2(up), power2::pow2(down));
        power2::lemma_pow2_pos(up);
        power2::lemma_pow2_pos(down);
        let m = nearest(n * pd, 1000 * pu);
        lemma_nearest_error(n * pd, 1000 * pu);
        assert(1_000_000_000 * pu < pd) by (nonlinear_arith)
            requires
                LEADING_BIT * (1000 * pu) <= n * pd,
                0 < n <= 1_000_000_000,
                pu > 0,
                pd > 0,
        ;
        lemma_exponents_strict(up, down);
        let k = (down - up) as nat;
        let p = power2::pow2(k);
        power2::lemma_pow2_adds(k, up);
        assert(pd == p * pu);
        assert(1_000_000_000 < p) by (nonlinear_arith)
            requires
                1_000_000_000 * pu < p * pu,
                pu > 0,
        ;
        assert(-1000 <= 2 * (m * 1000 - n * p) <= 1000) by (nonlinear_arith)
            requires
                -(1000 * pu) <= 2 * (m * (1000 * pu) - n * (p * pu)) <= 1000 * pu,
                pu > 0,
        ;
        assert(n * (p * pu) == n * pd);
        assert(-(p as int) < 2 * (m * 1_000_000_000 - n * 1_000_000 * p) < p) by (nonlinear_arith)
            requires
                -1000 <= 2 * (m * 1000 - n * p) <= 1000,
                1_000_000_000 < p,
        ;
        lemma_nearest_is(m * 1_000_000_000, p, n * 1_000_000);
        let rest = (1074 - k) as nat;
        let c = power2::pow2(rest);
        power2::lemma_pow2_adds(k, rest);
        power2::lemma_pow2_pos(rest);
        lemma_nearest_scaled(m * 1_000_000_000, p, c);
        lemma_billionths(x);
        assert(m * c * 1_000_000_000 == m * 1_000_000_000 * c) by (nonlinear_arith);
        assert(x.units() > 0) by {
            if x.units() == 0 {
                power2::lemma_pow2_pos(1074);
                lemma_nearest_is(0, power2::pow2(1074), 0);
            }
        }
    }
}

/// The power of two by which a number exceeds another one.
proof fn lemma_find_binade(n: nat, d: nat, up: nat) -> (r: nat)
    requires
        d * power2::pow2(up) <= n,
        d > 0,
    ensures
        r >= up,
        d * power2::pow2(r) <= n < 2 * (d * power2::pow2(r)),
    decreases n - d * power2::pow2(up),
{
    let p = power2::pow2(up);
    power2::lemma_pow2_pos(up);
    if n < 2 * (d * p) {
        up
    } else {
        power2::lemma_pow2_unfold(up + 1);
        assert(d * (2 * p) == 2 * (d * p)) by (nonlinear_arith);
        assert(d * p > 0) by (nonlinear_arith)
            requires
                d > 0,
                p > 0,
        ;
        lemma_find_binade(n, d, up + 1)
    }
}

/// There is a number for so many thousandths.
proof fn lemma_thousandths_exist(n: nat)
    requires
        n <= 1_000_000_000,
    ensures
        Number::thousandths(n).is_thousandths(n),
{
    if n == 0 {
        assert((Number { bits: 0 }).is_thousandths(0));
    } else {
        power2::lemma2_to64();
        power2::lemma2_to64_rest();
        let big: nat = (LEADING_BIT * 1000) as nat;
        let a = n * power2::pow2(63);
        let up = lemma_find_binade(a, big, 0);
        let p = power2::pow2(up);
        power2::lemma_pow2_pos(up);
        assert(LEADING_BIT * (1000 * p) == big * p) by (nonlinear_arith)
            requires
                big == LEADING_BIT * 1000,
        ;
        assert(2 * LEADING_BIT * (1000 * p) == 2 * (big * p)) by (nonlinear_arith)
            requires
                big == LEADING_BIT * 1000,
        ;
        assert(thousandths_binade(n, up, 63));
        if up >= 40 {
            if up > 40 {
                power2::lemma_pow2_strictly_increases(40, up);
            }
            assert(big * p >= big * 0x100_0000_0000) by (nonlinear_arith)
                requires
                    p >= 0x100_0000_0000,
                    big >= 0,
            ;
        }
        let d = 1000 * p;
        let m = nearest(a, d);
        let q = a as int / d as int;
        assert(LEADING_BIT <= q < 2 * LEADING_BIT) by (nonlinear_arith)
            requires
                d > 0,
                q == a as int / d as int,
                LEADING_BIT * d <= a < 2 * LEADING_BIT * d,
        ;
        let k = (1074 + up - 63) as nat;
        let x = Number { bits: ((k + 1) * LEADING_BIT + (m - LEADING_BIT)) as u64 };
        lemma_encoded(m, k, x);
        assert(x.is_thousandths(n));
    }
}

proof fn lemma_exponents_strict(a: nat, b: nat)
    requires
        power2::pow2(a) < power2::pow2(b),
    ensures
        a < b,
{
    if a > b {
        power2::lemma_pow2_strictly_increases(b, a);
    }
}

/// A number is rounded in one way only.
pub proof fn lemma_rounded_unique(a: Number, b: Number, s: nat)
    requires
        a.is_rounded(s),
        b.is_rounded(s),
    ensures
        a == b,
{
    if s >= 2 * LEADING_BIT {
        let ka = choose|k: nat|
            #![trigger power2::pow2(k)]
            LEADING_BIT * power2::pow2(k) <= s < 2 * LEADING_BIT * power2::pow2(k)
                && a.is_units_or_infinite(nearest(s, power2::pow2(k)) * power2::pow2(k));
        let kb = choose|k: nat|
            #![trigger power2::pow2(k)]
            LEADING_BIT * power2::pow2(k) <= s < 2 * LEADING_BIT * power2::pow2(k)
                && b.is_units_or_infinite(nearest(s, power2::pow2(k)) * power2::pow2(k));
        if ka < kb {
            lemma_doubled(ka, kb);
        } else if kb < ka {
            lemma_doubled(kb, ka);
        }
    }
    if a.finite() && b.finite() {
        if a.bits < b.bits {
            lemma_bits_order(a, b);
        } else if b.bits < a.bits {
            lemma_bits_order(b, a);
        }
    }
}

proof fn lemma_doubled(small: nat, large: nat)
    requires
        small < large,
    ensures
        2 * power2::pow2(small) <= power2::pow2(large),
{
    power2::lemma_pow2_unfold(small + 1);
    if small + 1 < large {
        power2::lemma_pow2_strictly_increases(small + 1, large);
    }
}

/// Common factors do not matter to rounding.
proof fn lemma_nearest_scaled(t: nat, p: nat, c: nat)
    requires
        p > 0,
        c > 0,
    ensures
        nearest(t * c, p * c) == nearest(t, p),
{
    let q = t as int / p as int;
    let r = t as int % p as int;
    div_mod::lemma_fundamental_div_mod(t as int, p as int);
    assert(t * c == q * (p * c) + r * c) by (nonlinear_arith)
        requires
            t == p * q + r,
    ;
    assert(0 <= r * c < p * c) by (nonlinear_arith)
        requires
            0 <= r < p,
            c > 0,
    ;
    div_mod::lemma_fundamental_div_mod_converse((t * c) as int, (p * c) as int, q, r * c);
    assert((2 * (r * c) < p * c) == (2 * r < p)) by (nonlinear_arith)
        requires
            c > 0,
    ;
    assert((2 * (r * c) == p * c) == (2 * r == p)) by (nonlinear_arith)
        requires
            c > 0,
    ;
}

/// A mantissa of at most 53 bits stays below infinity up to the largest exponent.
proof fn lemma_below_infinity(m: nat, k: nat)
    requires
        m < 2 * LEADING_BIT,
        k <= 2045,
    ensures
        m * power2::pow2(k) < 2 * LEADING_BIT * power2::pow2(2045),
{
    power2::lemma_pow2_pos(k);
    if k < 2045 {
        power2::lemma_pow2_strictly_increases(k, 2045);
    }
    let (a, b) = (power2::pow2(k), power2::pow2(2045));
    assert(m * a < 2 * LEADING_BIT * b) by (nonlinear_arith)
        requires
            m < 2 * LEADING_BIT,
            0 < a <= b,
    ;
}

/// A mantissa beyond the largest exponent is at infinity.
proof fn lemma_beyond(m: nat, k: nat)
    requires
        LEADING_BIT <= m,
        k >= 2046 || (k == 2045 && m >= 2 * LEADING_BIT),
    ensures
        m * power2::pow2(k) >= 2 * LEADING_BIT * power2::pow2(2045),
{
    let (a, b) = (power2::pow2(k), power2::pow2(2045));
    power2::lemma_pow2_pos(2045);
    if k >= 2046 {
        power2::lemma_pow2_unfold(2046);
        if k > 2046 {
            power2::lemma_pow2_strictly_increases(2046, k);
        }
        assert(m * a >= 2 * LEADING_BIT * b) by (nonlinear_arith)
            requires
                LEADING_BIT <= m,
                a >= 2 * b,
                b > 0,
        ;
    } else {
        assert(m * a >= 2 * LEADING_BIT * b) by (nonlinear_arith)
            requires
                2 * LEADING_BIT <= m,
                a == b,
                b > 0,
        ;
    }
}

/// A normal number's bits hold its mantissa and its scale.
proof fn lemma_encoded(m: nat, k: nat, x: Number)
    requires
        LEADING_BIT <= m <= 2 * LEADING_BIT,
        k < 2045 || (k == 2045 && m < 2 * LEADING_BIT),
        x.bits == (k + 1) * LEADING_BIT + (m - LEADING_BIT),
    ensures
        x.finite(),
        !x.negative(),
        x.units() == m * power2::pow2(k),
        m * power2::pow2(k) < 2 * LEADING_BIT * power2::pow2(2045),
{
    if m == 2 * LEADING_BIT {
        let p = power2::pow2(k);
        power2::lemma_pow2_unfold((k + 1) as nat);
        assert(x.bits == (k + 2) * LEADING_BIT);
        assert(x.exponent() == k + 2);
        assert(x.fraction() == 0);
        assert(LEADING_BIT * (2 * p) == 2 * LEADING_BIT * p) by (nonlinear_arith);
        lemma_below_infinity(LEADING_BIT as nat, (k + 1) as nat);
    } else {
        assert(x.exponent() == k + 1);
        assert(x.fraction() == m - LEADING_BIT);
        lemma_below_infinity(m, k);
    }
}

/// A mantissa that fits is held exactly.
proof fn lemma_exact(t: nat, low: nat, x: Number)
    requires
        t < 2 * LEADING_BIT,
        low <= 2045,
        low > 0 ==> t >= LEADING_BIT,
        x.bits == if t < LEADING_BIT {
            t as int
        } else {
            low * LEADING_BIT + t
        },
    ensures
        x.is_rounded(t * power2::pow2(low)),
{
    let c = power2::pow2(low);
    power2::lemma_pow2_pos(low);
    power2::lemma2_to64();
    if t < LEADING_BIT {
        assert(x.exponent() == 0);
        assert(x.fraction() == t);
        assert(t * c == t) by (nonlinear_arith)
            requires
                c == 1,
        ;
    } else {
        assert(x.bits == (low + 1) * LEADING_BIT + (t - LEADING_BIT));
        lemma_encoded(t, low, x);
        if t * c >= 2 * LEADING_BIT {
            let s = t * c;
            assert(LEADING_BIT * c <= s < 2 * LEADING_BIT * c) by (nonlinear_arith)
                requires
                    s == t * c,
                    LEADING_BIT <= t < 2 * LEADING_BIT,
                    c > 0,
            ;
            assert(s == t * c + 0);
            div_mod::lemma_fundamental_div_mod_converse(s as int, c as int, t as int, 0);
            assert(nearest(s, c) == t);
        }
    }
}

/// Two numbers taken in units of the smaller one's last place.
proof fn lemma_aligned(large: nat, small: nat, high: nat, low: nat, factor: nat)
    requires
        low <= high,
        factor == power2::pow2((high - low) as nat),
    ensures
        large * power2::pow2(high) + small * power2::pow2(low) == (large * factor + small)
            * power2::pow2(low),
{
    power2::lemma_pow2_adds((high - low) as nat, low);
    let c = power2::pow2(low);
    assert(large * (factor * c) + small * c == (large * factor + small) * c) by (nonlinear_arith);
}

/// A number far below the last place of a larger one does not change it.
proof fn lemma_absorbed(large: nat, small: nat, high: nat, low: nat)
    requires
        LEADING_BIT <= large < 2 * LEADING_BIT,
        small < 2 * LEADING_BIT,
        low + 60 < high,
    ensures
        ({
            let s = large * power2::pow2(high) + small * power2::pow2(low);
            &&& LEADING_BIT * power2::pow2(high) <= s < 2 * LEADING_BIT * power2::pow2(high)
            &&& nearest(s, power2::pow2(high)) == large
            &&& s >= 2 * LEADING_BIT
            &&& power2::pow2(high) > 0
        }),
{
    let (a, b) = (power2::pow2(high), power2::pow2(low));
    power2::lemma_pow2_pos(low);
    power2::lemma2_to64_rest();
    power2::lemma_pow2_adds(60, low);
    power2::lemma_pow2_strictly_increases(60 + low, high);
    assert(a >= 0x1000_0000_0000_0000 * b);
    assert(2 * (small * b) < a) by (nonlinear_arith)
        requires
            small < 0x20_0000_0000_0000,
            a >= 0x1000_0000_0000_0000 * b,
            b > 0,
    ;
    let s = large * a + small * b;
    assert(LEADING_BIT * a <= s < 2 * LEADING_BIT * a) by (nonlinear_arith)
        requires
            s == large * a + small * b,
            LEADING_BIT <= large,
            large + 1 <= 2 * LEADING_BIT,
            0 <= small * b < a,
    ;
    assert(0 <= small * b) by (nonlinear_arith);
    div_mod::lemma_fundamental_div_mod_converse(
        s as int,
        a as int,
        large as int,
        (small * b) as int,
    );
    assert(LEADING_BIT * a >= 2 * LEADING_BIT) by (nonlinear_arith)
        requires
            a >= 2,
    ;
}

} // verus!
