//! How numbers, times and texts are read and written.

use crate::clock;
use crate::decimal;
use crate::decimal::Thousandths;
use crate::duration::{Duration, MAX_NANOS};
use crate::number;
use crate::number::{Amount, Number, LARGEST};
use crate::policy_laws;
use crate::session;
use crate::task::{TaskStatus, TaskTiming};
use crate::text;
use vstd::arithmetic::div_mod;
use vstd::arithmetic::power;
use vstd::prelude::*;

verus! {

// ---------------------------------------------------------------------------
// The host's deadline

/// A host's deadline falls as long after the reading of the monotonic clock as it lies after
/// the reading of the wall clock, and on the former where it has passed.
pub proof fn law_host_deadlines(
    deadline: Option<u64>,
    now_ms: u64,
    anchor: Duration,
    r: Option<Duration>,
)
    requires
        call_ensures(session::monotonic_host_deadline, (deadline, now_ms, anchor), r),
    ensures
        deadline is None <==> r is None,
        deadline matches Some(end) ==> {
            let falls: int = anchor@ + if end > now_ms {
                1_000_000 * (end - now_ms)
            } else {
                0
            };
            &&& falls <= MAX_NANOS ==> r->Some_0@ == falls
            &&& falls > MAX_NANOS ==> r->Some_0@ == MAX_NANOS
        },
{
}

/// A host states its deadline as a whole number of milliseconds, or not at all.
pub proof fn law_host_deadlines_are_read(value: Option<&str>, r: Result<Option<u64>, String>)
    requires
        call_ensures(session::parse_host_deadline, (value,), r),
    ensures
        value is None ==> r is Ok && r->Ok_0 is None,
        value matches Some(value) ==> (r is Ok <==> (text::whole_number(value@) matches Some(n) && n
            <= u64::MAX)),
        value matches Some(value) ==> r is Ok ==> r->Ok_0 is Some && text::whole_number(value@)
            == Some(r->Ok_0->Some_0 as nat),
        r is Err ==> r->Err_0@
            == "TIME_STRIKE_DEADLINE_UNIX_MS must be an unsigned Unix timestamp in milliseconds"@,
{
}

/// Whether a setting is on, as it is read.
pub proof fn law_switches_are_read(value: &str, r: bool)
    requires
        call_ensures(session::is_switched_on, (value,), r),
    ensures
        r <==> value@ == "1"@ || text::lowered(value@) == "true"@ || text::lowered(value@)
            == "yes"@,
{
}

/// A generated name tells the time and the number, as it is made.
pub proof fn law_names_are_generated(millis: u128, n: u64, r: String)
    requires
        call_ensures(session::generated_task_id, (millis, n), r),
    ensures
        r@ == "pt-"@ + text::decimal(millis as nat) + "-"@ + text::decimal(n as nat),
{
}

// ---------------------------------------------------------------------------
// Whole numbers

/// A whole number is written in digits without zeros before them, and reads back, with or
/// without a plus before it.
pub proof fn law_whole_numbers_read_back(n: nat)
    ensures
        text::all_digits(text::decimal(n)),
        text::digits_value(text::decimal(n)) == n,
        n > 0 ==> text::decimal(n)[0] != '0',
        n < 10 ==> text::decimal(n).len() == 1,
        text::whole_number(text::decimal(n)) == Some(n),
        text::whole_number(seq!['+'] + text::decimal(n)) == Some(n),
{
    decimal::lemma_decimal(n);
    lemma_first_digit(n);
    let s = text::decimal(n);
    let signed = seq!['+'] + s;
    assert(signed.skip(1) =~= s);
    assert(text::is_digit(s[0]));
}

proof fn lemma_first_digit(n: nat)
    ensures
        text::decimal(n).len() > 0,
        n > 0 ==> text::decimal(n)[0] != '0',
    decreases n,
{
    if n >= 10 {
        lemma_first_digit((n as int / 10) as nat);
    } else {
        assert(text::decimal(n)[0] == text::digit(n as int));
        assert(n > 0 ==> text::digit(n as int) != '0');
    }
}

/// What is not all digits, after a plus or not, is no whole number.
pub proof fn law_other_texts_are_no_whole_numbers(s: Seq<char>, i: int)
    requires
        0 <= i < s.len(),
        !('0' <= s[i] <= '9'),
        i > 0 || s[0] != '+',
    ensures
        text::whole_number(s) is None,
        text::whole_number(Seq::<char>::empty()) is None,
{
    if s[0] == '+' {
        assert(s.skip(1)[i - 1] == s[i]);
    }
}

/// The ten digits, and what they stand for.
pub proof fn law_digits(c: char)
    ensures
        text::is_digit(c) <==> (c == '0' || c == '1' || c == '2' || c == '3' || c == '4' || c
            == '5' || c == '6' || c == '7' || c == '8' || c == '9'),
        text::digit_value('0') == 0 && text::digit(0) == '0',
        text::digit_value('1') == 1 && text::digit(1) == '1',
        text::digit_value('2') == 2 && text::digit(2) == '2',
        text::digit_value('3') == 3 && text::digit(3) == '3',
        text::digit_value('4') == 4 && text::digit(4) == '4',
        text::digit_value('5') == 5 && text::digit(5) == '5',
        text::digit_value('6') == 6 && text::digit(6) == '6',
        text::digit_value('7') == 7 && text::digit(7) == '7',
        text::digit_value('8') == 8 && text::digit(8) == '8',
        text::digit_value('9') == 9 && text::digit(9) == '9',
{
}

// ---------------------------------------------------------------------------
// Decimal numbers

/// The power of ten at the end of a number: a small or a large `e`, a sign or none, and a
/// whole number. Nothing is no power, and without digits there is none.
pub proof fn law_powers_of_ten(n: nat)
    ensures
        decimal::exponent(Seq::<char>::empty()) == Some(0int),
        decimal::exponent(seq!['e'] + text::decimal(n)) == Some(n as int),
        decimal::exponent(seq!['E'] + text::decimal(n)) == Some(n as int),
        decimal::exponent(seq!['e', '+'] + text::decimal(n)) == Some(n as int),
        decimal::exponent(seq!['e', '-'] + text::decimal(n)) == Some(-(n as int)),
        decimal::exponent(seq!['E', '-'] + text::decimal(n)) == Some(-(n as int)),
        decimal::exponent(seq!['e']) is None,
        decimal::exponent(seq!['e', '-']) is None,
{
    let s = text::decimal(n);
    decimal::lemma_decimal(n);
    decimal::lemma_leading(s, Seq::empty());
    assert(s + Seq::<char>::empty() =~= s);
    assert(text::is_digit(s[0]));
    assert((seq!['e'] + s).drop_first() =~= s);
    assert((seq!['E'] + s).drop_first() =~= s);
    assert((seq!['e', '+'] + s).drop_first().drop_first() =~= s);
    assert((seq!['e', '-'] + s).drop_first().drop_first() =~= s);
    assert((seq!['E', '-'] + s).drop_first().drop_first() =~= s);
    assert(seq!['e'].drop_first() =~= Seq::empty());
    assert(seq!['e', '-'].drop_first().drop_first() =~= Seq::empty());
}

/// A number is its digits, shifted by the power of ten at its end and back over the places
/// behind its point. It may do without a point, and without digits before or after it, but
/// not without any.
pub proof fn law_numbers_are_read(
    whole: Seq<char>,
    after: Seq<char>,
    end: Seq<char>,
    power: int,
    negative: bool,
)
    requires
        text::all_digits(whole),
        text::all_digits(after),
        decimal::exponent(end) == Some(power),
    ensures
        whole.len() > 0 ==> decimal::unsigned_amount(whole + end, negative) == Some(
            decimal::kept_amount(whole, 9 + power, negative),
        ),
        whole.len() + after.len() > 0 ==> decimal::unsigned_amount(
            whole + (seq!['.'] + (after + end)),
            negative,
        ) == Some(decimal::kept_amount(whole + after, 9 + power - after.len(), negative)),
        decimal::unsigned_amount(end, negative) is None,
        decimal::unsigned_amount(seq!['.'] + end, negative) is None,
{
    let rest = seq!['.'] + (after + end);
    decimal::lemma_leading(whole, end);
    decimal::lemma_leading(whole, rest);
    decimal::lemma_leading(after, end);
    decimal::lemma_leading(Seq::empty(), end);
    decimal::lemma_leading(Seq::empty(), seq!['.'] + end);
    assert((whole + end).take(whole.len() as int) =~= whole);
    assert((whole + end).skip(whole.len() as int) =~= end);
    assert(whole + end.take(0) =~= whole);
    assert(end.skip(0) =~= end);
    assert((whole + rest).take(whole.len() as int) =~= whole);
    assert((whole + rest).skip(whole.len() as int) =~= rest);
    assert(rest.drop_first() =~= after + end);
    assert((after + end).take(after.len() as int) =~= after);
    assert((after + end).skip(after.len() as int) =~= end);
    assert(Seq::<char>::empty() + end =~= end);
    assert(Seq::<char>::empty() + (seq!['.'] + end) =~= seq!['.'] + end);
    assert((seq!['.'] + end).skip(0) =~= seq!['.'] + end);
    assert((seq!['.'] + end).drop_first() =~= end);
    assert(end.take(0) + end.take(0) =~= Seq::empty());
}

/// The first digits of a number stand for what they stand for, as often as the others let
/// them.
proof fn lemma_first_digits(s: Seq<char>, k: int)
    requires
        0 <= k <= s.len(),
        text::all_digits(s),
    ensures
        text::digits_value(s) == text::digits_value(s.take(k)) * power::pow(
            10,
            (s.len() - k) as nat,
        ) + text::digits_value(s.skip(k)),
        text::digits_value(s.skip(k)) < power::pow(10, (s.len() - k) as nat),
    decreases s.len(),
{
    reveal(power::pow);
    if k == s.len() {
        assert(s.take(k) =~= s);
        assert(s.skip(k) =~= Seq::empty());
    } else {
        let t = s.drop_last();
        lemma_first_digits(t, k);
        assert(s.take(k) =~= t.take(k));
        assert(s.skip(k).drop_last() =~= t.skip(k));
        assert(s.skip(k).last() == s.last());
        assert(text::is_digit(s.last()));
        let p = power::pow(10, (t.len() - k) as nat);
        let v = text::digits_value(t.take(k));
        assert(power::pow(10, (s.len() - k) as nat) == 10 * p);
        assert(v * (10 * p) == 10 * (v * p)) by (nonlinear_arith);
    }
}

/// The digits of a number, shifted to the right, are rounded to the nearest whole number,
/// with half of one rounded up.
proof fn lemma_shifted_right(digits: Seq<char>, places: nat)
    requires
        text::all_digits(digits),
        places > 0,
    ensures
        ({
            let v = text::digits_value(digits);
            let r = decimal::shifted(digits, -(places as int));
            let p = power::pow(10, places);
            &&& p > 0
            &&& p * (2 * r - 1) <= 2 * v < p * (2 * r + 1)
        }),
{
    let v = text::digits_value(digits);
    let p = power::pow(10, places);
    let q = power::pow(10, (places - 1) as nat);
    let r = decimal::shifted(digits, -(places as int)) as int;
    let kept = digits.len() - places;
    power::lemma_pow_positive(10, places);
    power::lemma_pow_positive(10, (places - 1) as nat);
    assert(p == 10 * q) by {
        reveal(power::pow);
    }
    if kept >= 0 {
        let tail = digits.skip(kept);
        let high = text::digits_value(digits.take(kept)) as int;
        lemma_first_digits(digits, kept);
        lemma_first_digits(tail, 1);
        let d = text::digit_value(digits[kept]) as int;
        assert(tail.take(1).drop_last() =~= Seq::empty());
        assert(tail.take(1).last() == digits[kept]);
        assert(text::digits_value(tail.take(1)) == d) by {
            assert(text::digits_value(tail.take(1).drop_last()) == 0);
        }
        let rest = text::digits_value(tail.skip(1)) as int;
        assert(v == high * p + d * q + rest);
        assert(text::is_digit(digits[kept]));
        assert(2 * v == 2 * (high * p) + 2 * (d * q) + 2 * rest);
        if d >= 5 {
            assert(r == high + 1);
            assert(d * q >= 5 * q && d * q <= 9 * q) by (nonlinear_arith)
                requires
                    5 <= d <= 9,
                    q > 0,
            ;
            assert(p * (2 * (high + 1) - 1) == 2 * (high * p) + p) by (nonlinear_arith);
            assert(p * (2 * (high + 1) + 1) == 2 * (high * p) + 3 * p) by (nonlinear_arith);
        } else {
            assert(r == high);
            assert(d * q >= 0 && d * q <= 4 * q) by (nonlinear_arith)
                requires
                    0 <= d <= 4,
                    q > 0,
            ;
            assert(p * (2 * high - 1) == 2 * (high * p) - p) by (nonlinear_arith);
            assert(p * (2 * high + 1) == 2 * (high * p) + p) by (nonlinear_arith);
        }
    } else {
        lemma_first_digits(digits, 0);
        assert(digits.skip(0) =~= digits);
        power::lemma_pow_increases(10, digits.len(), (places - 1) as nat);
        assert(p * (2 * r - 1) == -p && p * (2 * r + 1) == p) by (nonlinear_arith)
            requires
                r == 0,
        ;
    }
}

/// What is kept of a number is the nearest billionth, with half of one rounded up. But what
/// is more than nothing does not become nothing, and what is beyond the largest amount
/// becomes that. Below zero it is the same with the sign turned.
pub proof fn law_numbers_are_kept(digits: Seq<char>, shift: int)
    requires
        text::all_digits(digits),
    ensures
        ({
            let v = text::digits_value(digits);
            let up = decimal::kept_amount(digits, shift, false);
            let down = decimal::kept_amount(digits, shift, true);
            let kept = up->Billionths_0 as int;
            &&& up is Billionths && down is Billionths
            &&& down->Billionths_0 == -kept
            &&& 0 <= kept <= LARGEST
            &&& kept == 0 <==> v == 0
            &&& shift >= 0 ==> kept == if v * power::pow(10, shift as nat) <= LARGEST {
                v * power::pow(10, shift as nat)
            } else {
                LARGEST as int
            }
            &&& shift < 0 && 1 < kept < LARGEST ==> power::pow(10, (-shift) as nat) * (2 * kept
                - 1) <= 2 * v < power::pow(10, (-shift) as nat) * (2 * kept + 1)
            &&& shift < 0 && kept == 1 ==> 2 * v < 3 * power::pow(10, (-shift) as nat)
            &&& shift < 0 && kept == LARGEST ==> 2 * v >= power::pow(10, (-shift) as nat) * (2
                * LARGEST - 1)
        }),
{
    let v = text::digits_value(digits) as int;
    if shift < 0 {
        let p = power::pow(10, (-shift) as nat);
        let r = decimal::shifted(digits, shift) as int;
        lemma_shifted_right(digits, (-shift) as nat);
        if v == 0 && r > 0 {
            assert(p * (2 * r - 1) > 0) by (nonlinear_arith)
                requires
                    p > 0,
                    r > 0,
            ;
        }
        if r == 0 {
            assert(p * (2 * r + 1) == p) by (nonlinear_arith)
                requires
                    r == 0,
            ;
        }
        if r == 1 {
            assert(p * (2 * r + 1) == 3 * p) by (nonlinear_arith)
                requires
                    r == 1,
            ;
        }
        if r > LARGEST {
            assert(p * (2 * r - 1) >= p * (2 * LARGEST - 1)) by (nonlinear_arith)
                requires
                    p > 0,
                    r > LARGEST,
            ;
        }
    } else {
        let p = power::pow(10, shift as nat);
        power::lemma_pow_positive(10, shift as nat);
        assert(v * p == 0 <==> v == 0) by (nonlinear_arith)
            requires
                p > 0,
                v >= 0,
        ;
        assert(v * p >= 0) by (nonlinear_arith)
            requires
                p > 0,
                v >= 0,
        ;
    }
}

// ---------------------------------------------------------------------------
// Numbers

/// A quotient to the nearest whole number is off by no more than half of one.
pub proof fn law_nearest(n: nat, d: nat)
    requires
        d > 0,
    ensures
        2 * n - d <= 2 * (d * number::nearest(n, d)) <= 2 * n + d,
        n % d == 0 ==> d * number::nearest(n, d) == n,
{
    div_mod::lemma_fundamental_div_mod(n as int, d as int);
    let q = n as int / d as int;
    assert(d * (q + 1) == d * q + d) by (nonlinear_arith);
}

/// A finite number counts as the nearest billionth, away from zero if it is not zero, and
/// with its sign; beyond the largest amount it counts as that. The others keep their kind.
pub proof fn law_numbers_as_amounts(x: Number)
    ensures
        x.finite() ==> (x.spec_amount() matches Amount::Billionths(value) && {
            let size: int = if value < 0 {
                -value
            } else {
                value as int
            };
            &&& x.negative() ==> value <= 0
            &&& !x.negative() ==> value >= 0
            &&& value == 0 <==> x.mantissa() == 0 || (x.billionths() == 0 && x.mantissa() == 0)
            &&& x.mantissa() > 0 && 0 < x.billionths() <= LARGEST ==> size == x.billionths()
            &&& x.mantissa() > 0 && x.billionths() == 0 ==> size == 1
            &&& x.billionths() > LARGEST ==> size == LARGEST
        }),
        !x.finite() && x.fraction() > 0 ==> x.spec_amount() == Amount::NotANumber,
        !x.finite() && x.fraction() == 0 && !x.negative() ==> x.spec_amount() == Amount::Infinity,
        !x.finite() && x.fraction() == 0 && x.negative() ==> x.spec_amount()
            == Amount::NegativeInfinity,
{
    if x.finite() && x.mantissa() == 0 {
        number::lemma_billionths(x);
        lemma_nothing(x);
    }
}

/// The smallest numbers lie as far apart as each other, on both sides of where the leading
/// bit of the mantissa sets in.
pub proof fn law_smallest_numbers(x: Number)
    requires
        x.bits < 2 * number::LEADING_BIT,
    ensures
        x.units() == x.bits,
        x.finite() && !x.negative(),
{
    vstd::arithmetic::power2::lemma2_to64();
    assert(x.bits / number::LEADING_BIT == 0 || x.bits / number::LEADING_BIT == 1);
    assert(x.scale() == -1074);
    assert(x.mantissa() * 1 == x.bits);
}

proof fn lemma_nothing(x: Number)
    requires
        x.mantissa() == 0,
    ensures
        x.billionths() == 0,
{
    if x.scale() >= 0 {
        assert(0 * vstd::arithmetic::power2::pow2(x.scale() as nat) == 0);
    } else {
        let d = vstd::arithmetic::power2::pow2((-x.scale()) as nat);
        vstd::arithmetic::power2::lemma_pow2_pos((-x.scale()) as nat);
        div_mod::lemma_div_basics(d as int);
        div_mod::lemma_fundamental_div_mod(0, d as int);
    }
}

/// A percentage of a share is a hundred times it, and reads back as the share.
pub proof fn law_percentages_of_shares(share: i128)
    requires
        0 <= share <= 1_000_000_000,
    ensures
        Amount::Billionths(share).percent() == Amount::Billionths((100 * share) as i128),
        Amount::Billionths(share).percent().fraction_of_one() == Amount::Billionths(share),
{
}

/// A share of a percentage is the hundredth part of it, away from zero if that is no whole
/// number of billionths.
pub proof fn law_shares_of_percentages(percent: i128)
    requires
        -LARGEST <= percent,
    ensures
        Amount::Billionths(percent).fraction_of_one() matches Amount::Billionths(share) && {
            &&& percent >= 0 ==> 100 * share >= percent && 100 * share < percent + 100
            &&& percent < 0 ==> 100 * share <= percent && 100 * share > percent - 100
        },
{
}

/// A sign before a number counts: a plus changes nothing, and a minus turns it round.
pub proof fn law_signs(s: Seq<char>)
    requires
        s.len() == 0 || (s[0] != '-' && s[0] != '+'),
    ensures
        decimal::parsed(seq!['+'] + s) == decimal::parsed(s),
        match decimal::parsed(s) {
            Some(Amount::Billionths(value)) => decimal::parsed(seq!['-'] + s) == Some(
                Amount::Billionths((-value) as i128),
            ),
            Some(Amount::Infinity) => decimal::parsed(seq!['-'] + s) == Some(
                Amount::NegativeInfinity,
            ),
            other => decimal::parsed(seq!['-'] + s) == other,
        },
{
    assert((seq!['+'] + s).drop_first() =~= s);
    assert((seq!['-'] + s).drop_first() =~= s);
}

/// A number of billionths in thousandths is the nearest.
pub proof fn law_thousandths(billionths: u128, r: Thousandths)
    requires
        call_ensures(decimal::round3, (billionths,), r),
    ensures
        1_000_000 * r.count <= billionths + 500_000 < 1_000_000 * (r.count + 1),
{
    policy_laws::lemma_floor(billionths + 500_000, 1_000_000);
}

/// Thousandths are written without zeros at the end, and without a point before nothing.
pub proof fn law_whole_seconds_are_written_whole(n: nat)
    ensures
        decimal::fixed(1000 * n, 3) == text::decimal(n),
        n % 10 != 0 ==> decimal::fixed(n, 3).len() > 4 && decimal::fixed(n, 3).last()
            == text::digit(n as int % 10),
{
    reveal_with_fuel(decimal::fixed, 4);
    reveal_with_fuel(decimal::pointed, 4);
    decimal::lemma_decimal((n as int / 10 / 10 / 10) as nat);
}

/// A span as an amount of seconds is the same number of billionths.
pub proof fn law_spans_as_amounts(span: Duration, r: Amount)
    requires
        call_ensures(Amount::of, (span,), r),
        span@ <= MAX_NANOS,
    ensures
        r == Amount::Billionths(span@ as i128),
        r.span() == span@,
{
}

// ---------------------------------------------------------------------------
// Spans

/// Spans are added and taken from each other, within none and the longest.
pub proof fn law_sums_of_spans(a: Duration, b: Duration, sum: Duration, rest: Duration)
    requires
        call_ensures(Duration::saturating_add, (a, b), sum),
        call_ensures(Duration::saturating_sub, (a, b), rest),
    ensures
        a@ + b@ <= MAX_NANOS ==> sum@ == a@ + b@,
        a@ + b@ > MAX_NANOS ==> sum@ == MAX_NANOS,
        a@ >= b@ ==> rest@ + b@ == a@,
        a@ < b@ ==> rest@ == 0,
{
}

/// Of two spans one is the shorter and the other the longer.
pub proof fn law_shorter_and_longer(a: Duration, b: Duration, low: Duration, high: Duration)
    requires
        call_ensures(Duration::shorter, (a, b), low),
        call_ensures(Duration::longer, (a, b), high),
    ensures
        low@ <= high@,
        low@ == a@ && high@ == b@ || low@ == b@ && high@ == a@,
{
}

/// Spans of whole units.
pub proof fn law_units_of_spans(n: u64, nanos: Duration, millis: Duration, secs: Duration)
    requires
        call_ensures(Duration::from_nanos, (n,), nanos),
        call_ensures(Duration::from_millis, (n,), millis),
        call_ensures(Duration::from_secs, (n,), secs),
    ensures
        nanos@ == n,
        millis@ == 1_000_000 * n,
        secs@ == 1_000_000_000 * n,
{
}

/// The accounting of a runtime, as it is made.
pub proof fn law_timings_are_made(actual: Duration, budget: Duration, r: TaskTiming)
    requires
        call_ensures(TaskTiming::new, (actual, budget), r),
    ensures
        r.actual_elapsed_secs@ == actual@,
        r.accounted_elapsed_secs@ + r.overrun_secs@ == actual@,
        r.accounted_elapsed_secs@ <= budget@,
        r.overrun_secs@ > 0 ==> r.accounted_elapsed_secs@ == budget@,
        r.deadline_met <==> actual@ <= budget@ + 1,
{
}

/// The statuses and their names.
pub proof fn law_statuses()
    ensures
        TaskStatus::Active.name() == "active"@,
        TaskStatus::Exhausted.name() == "exhausted"@,
        TaskStatus::Finished.name() == "finished"@,
{
}

// ---------------------------------------------------------------------------
// Clocks

/// A reading that is set is that many nanoseconds, up to the largest, and one that is moved
/// on is later by so many, up to the largest.
pub proof fn law_readings(secs: Amount, before: u64, delta: u64)
    ensures
        secs matches Amount::Billionths(value) ==> {
            &&& 0 <= value <= u64::MAX ==> clock::reading(secs) == value
            &&& value > u64::MAX ==> clock::reading(secs) == u64::MAX
        },
        before + delta <= u64::MAX ==> clock::advanced(before, delta) == before + delta,
        before + delta > u64::MAX ==> clock::advanced(before, delta) == u64::MAX,
{
}

/// A time that the wall clock is read as is what it shows, up to the largest.
pub proof fn law_wall_clock_readings(r: u64)
    requires
        call_ensures(clock::unix_ms, (), r),
    ensures
        exists|millis: u128| #[trigger] clock::wall_shows(millis) && (r == millis || r == u64::MAX
            && millis > u64::MAX),
{
}

// ---------------------------------------------------------------------------
// Texts

/// A text is cut to so many characters from its start.
pub proof fn law_texts_are_cut(s: Seq<char>, count: nat)
    ensures
        s.len() <= count ==> text::shortened(s, count) == s,
        s.len() > count ==> text::shortened(s, count).len() == count && forall|i: int|
            0 <= i < count ==> #[trigger] text::shortened(s, count)[i] == s[i],
{
}

/// Texts are ordered by the first character in which they differ; one that goes on is later.
pub proof fn law_order_of_texts(start: Seq<char>, a: Seq<char>, b: Seq<char>, c: char, d: char)
    ensures
        text::before(start, start + seq![c] + a),
        !text::before(start + seq![c] + a, start),
        c < d ==> text::before(start + seq![c] + a, start + seq![d] + b),
        c > d ==> !text::before(start + seq![c] + a, start + seq![d] + b),
    decreases start.len(),
{
    let x = start + seq![c] + a;
    let y = start + seq![d] + b;
    if start.len() > 0 {
        let rest = start.drop_first();
        law_order_of_texts(rest, a, b, c, d);
        assert(x.drop_first() =~= rest + seq![c] + a);
        assert(y.drop_first() =~= rest + seq![d] + b);
    }
}

/// White space is taken off both ends of a text, and nothing else.
pub proof fn law_texts_are_trimmed(s: Seq<char>) -> (r: (int, int))
    ensures
        0 <= r.0 <= r.1 <= s.len(),
        text::trimmed(s) == s.subrange(r.0, r.1),
        forall|i: int| 0 <= i < r.0 ==> text::is_space(#[trigger] s[i]),
        forall|i: int| r.1 <= i < s.len() ==> text::is_space(#[trigger] s[i]),
        r.0 < r.1 ==> !text::is_space(s[r.0]) && !text::is_space(s[r.1 - 1]),
{
    let start = lemma_leading(s);
    let rest = text::without_leading_space(s);
    let kept = lemma_trailing(rest);
    let end = start + kept;
    assert(rest.subrange(0, kept) =~= s.subrange(start, end));
    assert forall|i: int| end <= i < s.len() implies text::is_space(#[trigger] s[i]) by {
        assert(rest[i - start] == s[i]);
    }
    if start < end {
        assert(rest[0] == s[start]);
        assert(rest[kept - 1] == s[end - 1]);
    }
    (start, end)
}

proof fn lemma_leading(s: Seq<char>) -> (n: int)
    ensures
        0 <= n <= s.len(),
        text::without_leading_space(s) == s.subrange(n, s.len() as int),
        forall|i: int| 0 <= i < n ==> text::is_space(#[trigger] s[i]),
        n < s.len() ==> !text::is_space(s[n]),
    decreases s.len(),
{
    if s.len() > 0 && text::is_space(s[0]) {
        let rest = s.drop_first();
        let n = lemma_leading(rest);
        assert(rest.subrange(n, rest.len() as int) =~= s.subrange(n + 1, s.len() as int));
        assert forall|i: int| 0 <= i < n + 1 implies text::is_space(#[trigger] s[i]) by {
            if i > 0 {
                assert(rest[i - 1] == s[i]);
            }
        }
        n + 1
    } else {
        assert(s.subrange(0, s.len() as int) =~= s);
        0
    }
}

proof fn lemma_trailing(s: Seq<char>) -> (n: int)
    ensures
        0 <= n <= s.len(),
        text::without_trailing_space(s) == s.subrange(0, n),
        forall|i: int| n <= i < s.len() ==> text::is_space(#[trigger] s[i]),
        n > 0 ==> !text::is_space(s[n - 1]),
    decreases s.len(),
{
    if s.len() > 0 && text::is_space(s.last()) {
        let rest = s.drop_last();
        let n = lemma_trailing(rest);
        assert(rest.subrange(0, n) =~= s.subrange(0, n));
        assert forall|i: int| n <= i < s.len() implies text::is_space(#[trigger] s[i]) by {
            if i < rest.len() {
                assert(rest[i] == s[i]);
            }
        }
        n
    } else {
        assert(s.subrange(0, s.len() as int) =~= s);
        s.len() as int
    }
}

} // verus!
