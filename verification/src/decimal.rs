//! Decimal notation: amounts as text, text as amounts, and rounding to thousandths.

use crate::duration;
use crate::number::{Amount, LARGEST};
use crate::text;
use vstd::arithmetic::power;
use vstd::prelude::*;
use vstd::string::StringExecFns;

verus! {

/// A number from zero up, rounded to three decimals.
#[derive(Clone, Copy, Debug, PartialEq, Eq, PartialOrd, Ord, Structural)]
pub struct Thousandths {
    pub count: u128,
}

/// A number of billionths in thousandths, to the nearest one, with half of one rounded
/// up.
pub open spec fn thousandths(billionths: nat) -> nat {
    (billionths + 500_000) / 1_000_000
}

/// Rounds a number of billionths to three decimals.
pub fn round3(billionths: u128) -> (r: Thousandths)
    ensures
        r.count == thousandths(billionths as nat),
{
    let whole: u128 = billionths / 1_000_000;
    if billionths % 1_000_000 >= 500_000 {
        Thousandths { count: whole + 1 }
    } else {
        Thousandths { count: whole }
    }
}

/// `n / 10^places` with all its places after the point.
pub open spec fn pointed(n: nat, places: nat) -> Seq<char>
    decreases places,
{
    if places == 0 {
        text::decimal(n).push('.')
    } else {
        pointed((n as int / 10) as nat, (places - 1) as nat).push(text::digit(n as int % 10))
    }
}

/// `n / 10^places` without zeros at the end of the fraction, nor a point before none.
pub open spec fn fixed(n: nat, places: nat) -> Seq<char>
    decreases places,
{
    if places == 0 {
        text::decimal(n)
    } else if n % 10 == 0 {
        fixed((n as int / 10) as nat, (places - 1) as nat)
    } else {
        pointed(n, places)
    }
}

fn pointed_text(n: u128, places: u8) -> (r: String)
    ensures
        r@ == pointed(n as nat, places as nat),
    decreases places,
{
    if places == 0 {
        let mut r = text::decimal_text(n);
        r.append(".");
        proof {
            reveal_strlit(".");
            assert(text::decimal(n as nat) + "."@ =~= text::decimal(n as nat).push('.'));
        }
        r
    } else {
        let mut r = pointed_text(n / 10, places - 1);
        let ghost start = r@;
        r.append(text::decimal_text(n % 10).as_str());
        assert(r@ =~= start.push(text::digit(n as int % 10)));
        r
    }
}

/// `n / 10^places` in decimal notation.
pub fn fixed_text(n: u128, places: u8) -> (r: String)
    ensures
        r@ == fixed(n as nat, places as nat),
    decreases places,
{
    if places == 0 {
        text::decimal_text(n)
    } else if n % 10 == 0 {
        fixed_text(n / 10, places - 1)
    } else {
        pointed_text(n, places)
    }
}

impl Thousandths {
    /// The number in decimal notation.
    pub fn to_text(&self) -> (r: String)
        ensures
            r@ == fixed(self.count as nat, 3),
    {
        fixed_text(self.count, 3)
    }
}

/// An amount in decimal notation.
pub open spec fn amount_text(amount: Amount) -> Seq<char> {
    match amount {
        Amount::NotANumber => "NaN"@,
        Amount::Infinity => "inf"@,
        Amount::NegativeInfinity => "-inf"@,
        Amount::Billionths(value) => if value < 0 {
            "-"@ + fixed((-value) as nat, 9)
        } else {
            fixed(value as nat, 9)
        },
    }
}

impl Amount {
    /// The amount in decimal notation.
    pub fn to_text(&self) -> (r: String)
        ensures
            r@ == amount_text(*self),
    {
        match self {
            Amount::NotANumber => "NaN".to_owned(),
            Amount::Infinity => "inf".to_owned(),
            Amount::NegativeInfinity => "-inf".to_owned(),
            Amount::Billionths(value) => if *value < 0 {
                let size: u128 = if *value == i128::MIN {
                    LARGEST + 1
                } else {
                    (-*value) as u128
                };
                "-".to_owned().concat(fixed_text(size, 9).as_str())
            } else {
                fixed_text(*value as u128, 9)
            },
        }
    }
}

// ---------------------------------------------------------------------------
// Reading

/// How many digits a text starts with.
pub open spec fn leading_digits(s: Seq<char>) -> nat
    decreases s.len(),
{
    if s.len() > 0 && text::is_digit(s[0]) {
        1 + leading_digits(s.drop_first())
    } else {
        0
    }
}

/// Whether a number starts with a minus, and the number without its sign.
pub open spec fn signed(s: Seq<char>) -> (bool, Seq<char>) {
    if s.len() > 0 && (s[0] == '-' || s[0] == '+') {
        (s[0] == '-', s.drop_first())
    } else {
        (false, s)
    }
}

/// The power of ten that a number ends with: `e` or `E` and a whole number, or nothing.
pub open spec fn exponent(s: Seq<char>) -> Option<int> {
    if s.len() == 0 {
        Some(0)
    } else if s[0] != 'e' && s[0] != 'E' {
        None
    } else {
        let (negative, digits) = signed(s.drop_first());
        if digits.len() == 0 || leading_digits(digits) < digits.len() {
            None
        } else if negative {
            Some(-(text::digits_value(digits) as int))
        } else {
            Some(text::digits_value(digits) as int)
        }
    }
}

/// `digits * 10^shift`, to the nearest whole number, with half of one rounded up.
pub open spec fn shifted(digits: Seq<char>, shift: int) -> nat {
    let kept = digits.len() + shift;
    if shift >= 0 {
        text::digits_value(digits) * power::pow(10, shift as nat) as nat
    } else if kept >= 0 {
        text::digits_value(digits.take(kept)) + if text::digit_value(digits[kept]) >= 5 {
            1nat
        } else {
            0nat
        }
    } else {
        0
    }
}

/// The amount of `digits * 10^shift` billionths: none but zero becomes zero, and one
/// beyond the largest becomes that.
pub open spec fn kept_amount(digits: Seq<char>, shift: int, negative: bool) -> Amount {
    let size = shifted(digits, shift);
    let kept = if size == 0 && text::digits_value(digits) > 0 {
        1
    } else if size > LARGEST {
        LARGEST as int
    } else {
        size as int
    };
    Amount::Billionths(
        if negative {
            (-kept) as i128
        } else {
            kept as i128
        },
    )
}

/// A number without its sign: digits with an optional point among or around them, and
/// an optional power of ten.
pub open spec fn unsigned_amount(s: Seq<char>, negative: bool) -> Option<Amount> {
    let whole = s.take(leading_digits(s) as int);
    let rest = s.skip(leading_digits(s) as int);
    let point = rest.len() > 0 && rest[0] == '.';
    let after = if point {
        rest.drop_first()
    } else {
        rest
    };
    let places = if point {
        leading_digits(after)
    } else {
        0
    };
    let digits = whole + after.take(places as int);
    match exponent(after.skip(places as int)) {
        Some(exponent) if digits.len() > 0 => Some(
            kept_amount(digits, 9 + exponent - places, negative),
        ),
        _ => None,
    }
}

/// The amount that a text stands for: a decimal number with an optional sign, point and
/// power of ten, or `inf`, `infinity` or `nan` in any case.
pub open spec fn parsed(s: Seq<char>) -> Option<Amount> {
    let (negative, body) = signed(s);
    let word = text::lowered(body);
    if word == "inf"@ || word == "infinity"@ {
        Some(
            if negative {
                Amount::NegativeInfinity
            } else {
                Amount::Infinity
            },
        )
    } else if word == "nan"@ {
        Some(Amount::NotANumber)
    } else {
        unsigned_amount(body, negative)
    }
}

/// Counts the digits from an index on.
fn count_digits(chars: &Vec<char>, from: usize) -> (r: usize)
    requires
        from <= chars@.len(),
    ensures
        r == leading_digits(chars@.skip(from as int)),
        from + r <= chars@.len(),
{
    let mut i: usize = from;
    while i < chars.len() && '0' <= chars[i] && chars[i] <= '9'
        invariant
            from <= i <= chars.len(),
            leading_digits(chars@.skip(from as int)) == i - from + leading_digits(
                chars@.skip(i as int),
            ),
        decreases chars.len() - i,
    {
        assert(chars@.skip(i as int).drop_first() =~= chars@.skip(i + 1));
        i = i + 1;
    }
    i - from
}

/// The characters from one index up to another.
fn slice(chars: &Vec<char>, from: usize, to: usize) -> (r: Vec<char>)
    requires
        from <= to <= chars@.len(),
    ensures
        r@ == chars@.subrange(from as int, to as int),
{
    let mut r: Vec<char> = Vec::new();
    let mut i: usize = from;
    while i < to
        invariant
            from <= i <= to <= chars.len(),
            r@ == chars@.subrange(from as int, i as int),
        decreases to - i,
    {
        r.push(chars[i]);
        i = i + 1;
    }
    r
}

/// The first of the digits that a text starts with are digits.
proof fn lemma_leading_digits(s: Seq<char>, i: int)
    requires
        0 <= i < leading_digits(s),
    ensures
        leading_digits(s) <= s.len(),
        text::is_digit(s[i]),
    decreases s.len(),
{
    if i > 0 {
        lemma_leading_digits(s.drop_first(), i - 1);
    } else if leading_digits(s) > 1 {
        lemma_leading_digits(s.drop_first(), 0);
    }
}

/// The number that the first digits stand for, or the largest that fits.
fn prefix_value(digits: &Vec<char>, count: usize) -> (r: u128)
    requires
        count <= digits@.len(),
        forall|i: int| 0 <= i < digits@.len() ==> text::is_digit(#[trigger] digits@[i]),
    ensures
        r == duration::capped(text::digits_value(digits@.take(count as int)) as int),
{
    let mut value: u128 = 0;
    let mut i: usize = 0;
    while i < count
        invariant
            i <= count <= digits.len(),
            forall|i: int| 0 <= i < digits@.len() ==> text::is_digit(#[trigger] digits@[i]),
            value == duration::capped(text::digits_value(digits@.take(i as int)) as int),
        decreases count - i,
    {
        assert(digits@.take(i + 1).drop_last() =~= digits@.take(i as int));
        let d: u128 = digits[i] as u128 - 48;
        value = if value > (u128::MAX - d) / 10 {
            u128::MAX
        } else {
            value * 10 + d
        };
        i = i + 1;
    }
    value
}

/// `digits * 10^shift` in whole units, or the largest number that fits.
fn shift_digits(digits: &Vec<char>, shift: i128) -> (r: u128)
    requires
        forall|i: int| 0 <= i < digits@.len() ==> text::is_digit(#[trigger] digits@[i]),
    ensures
        r == duration::capped(shifted(digits@, shift as int) as int),
{
    let n: usize = digits.len();
    if shift >= 0 {
        let mut value: u128 = prefix_value(digits, n);
        let mut k: i128 = 0;
        proof {
            assert(digits@.take(n as int) =~= digits@);
            power::lemma_pow0(10);
            assert(text::digits_value(digits@) * power::pow(10, 0) == text::digits_value(digits@));
        }
        while k < shift
            invariant
                0 <= k <= shift,
                value == duration::capped(text::digits_value(digits@) * power::pow(10, k as nat)),
            decreases shift - k,
        {
            let ghost v = text::digits_value(digits@);
            let ghost p = power::pow(10, k as nat);
            proof {
                power::lemma_pow_positive(10, k as nat);
                reveal(power::pow);
                assert(power::pow(10, (k + 1) as nat) == 10 * p);
                assert(v * (10 * p) == 10 * (v * p)) by (nonlinear_arith);
                assert(0 <= v * p) by (nonlinear_arith)
                    requires
                        0 <= v,
                        0 < p,
                ;
            }
            if value == 0 || value == u128::MAX {
                proof {
                    lemma_settled(v, k as nat, shift as nat);
                }
                return value;
            }
            value = if value > u128::MAX / 10 {
                u128::MAX
            } else {
                value * 10
            };
            k = k + 1;
        }
        proof {
            power::lemma_pow_positive(10, shift as nat);
        }
        value
    } else if shift < -(n as i128) {
        0
    } else {
        let kept: usize = (n as i128 + shift) as usize;
        let whole: u128 = prefix_value(digits, kept);
        if digits[kept] as u128 - 48 >= 5 {
            whole.saturating_add(1)
        } else {
            whole
        }
    }
}

/// Nothing stays nothing, and too much stays too much, however often it is multiplied.
proof fn lemma_settled(v: nat, k: nat, shift: nat)
    requires
        k <= shift,
        v * power::pow(10, k) == 0 || v * power::pow(10, k) >= u128::MAX,
    ensures
        duration::capped(v * power::pow(10, shift)) == duration::capped(v * power::pow(10, k)),
        power::pow(10, shift) > 0,
{
    let (a, b) = (power::pow(10, k), power::pow(10, shift));
    power::lemma_pow_positive(10, k);
    power::lemma_pow_increases(10, k, shift);
    assert(v * a <= v * b) by (nonlinear_arith)
        requires
            0 <= v,
            0 < a <= b,
    ;
    if v * a == 0 {
        assert(v == 0) by (nonlinear_arith)
            requires
                v * a == 0,
                a > 0,
                v >= 0,
        ;
        assert(v * b == 0) by (nonlinear_arith)
            requires
                v == 0,
        ;
    }
}

/// An exponent as far as it matters.
pub open spec fn bounded(exponent: int) -> int {
    if exponent > 0x1_0000_0000_0000_0000_0000 {
        0x1_0000_0000_0000_0000_0000
    } else if exponent < -0x1_0000_0000_0000_0000_0000 {
        -0x1_0000_0000_0000_0000_0000
    } else {
        exponent
    }
}

/// Reads the power of ten from an index on.
fn read_exponent(chars: &Vec<char>, from: usize) -> (r: Option<i128>)
    requires
        from <= chars@.len(),
    ensures
        match r {
            Some(e) => exponent(chars@.skip(from as int)) matches Some(exact) && e == bounded(exact),
            None => exponent(chars@.skip(from as int)) is None,
        },
{
    let ghost s = chars@.skip(from as int);
    if from == chars.len() {
        return Some(0);
    }
    if chars[from] != 'e' && chars[from] != 'E' {
        return None;
    }
    let mut start: usize = from + 1;
    let mut negative: bool = false;
    assert(s.drop_first() =~= chars@.skip(start as int));
    if start < chars.len() && (chars[start] == '-' || chars[start] == '+') {
        negative = chars[start] == '-';
        assert(s.drop_first().drop_first() =~= chars@.skip(start + 1));
        start = start + 1;
    }
    assert(signed(s.drop_first()) == (negative, chars@.skip(start as int)));
    let count: usize = count_digits(chars, start);
    if count == 0 || start + count < chars.len() {
        return None;
    }
    let ghost tail = chars@.skip(start as int);
    let digits = slice(chars, start, chars.len());
    proof {
        assert(digits@ =~= tail);
        assert forall|k: int| 0 <= k < digits@.len() implies text::is_digit(#[trigger] digits@[k]) by {
            lemma_leading_digits(tail, k);
        }
        assert(digits@.take(count as int) =~= digits@);
    }
    let size: u128 = prefix_value(&digits, digits.len());
    let e: i128 = if size > 0x1_0000_0000_0000_0000_0000 {
        0x1_0000_0000_0000_0000_0000
    } else {
        size as i128
    };
    if negative {
        Some(-e)
    } else {
        Some(e)
    }
}

/// An exponent beyond the bounds does what the bound does.
proof fn lemma_bounded(digits: Seq<char>, exponent: int, places: int, negative: bool)
    requires
        0 <= places <= digits.len() <= usize::MAX,
    ensures
        kept_amount(digits, 9 + exponent - places, negative) == kept_amount(
            digits,
            9 + bounded(exponent) - places,
            negative,
        ),
{
    let exact = 9 + exponent - places;
    let near = 9 + bounded(exponent) - places;
    if exponent > 0x1_0000_0000_0000_0000_0000 {
        lemma_far(digits, exact);
        lemma_far(digits, near);
    }
}

/// A shift by many places leaves nothing or more than the largest amount.
proof fn lemma_far(digits: Seq<char>, shift: int)
    requires
        shift >= 39,
    ensures
        text::digits_value(digits) == 0 ==> shifted(digits, shift) == 0,
        text::digits_value(digits) > 0 ==> shifted(digits, shift) > LARGEST,
{
    let v = text::digits_value(digits);
    let p = power::pow(10, shift as nat);
    power::lemma_pow_increases(10, 39, shift as nat);
    reveal_with_fuel(power::pow, 40);
    assert(power::pow(10, 39) == 1_000_000_000_000_000_000_000_000_000_000_000_000_000);
    if v == 0 {
        assert(v * p == 0) by (nonlinear_arith)
            requires
                v == 0,
        ;
    } else {
        assert(v * p >= p) by (nonlinear_arith)
            requires
                v >= 1,
                p >= 0,
        ;
    }
}

/// A number without its sign consists of these digits, so many of them after the point,
/// and of what follows them.
spec fn splits(s: Seq<char>, digits: Seq<char>, places: nat, end: Seq<char>) -> bool {
    let whole = leading_digits(s) as int;
    let rest = s.skip(whole);
    if rest.len() > 0 && rest[0] == '.' {
        &&& places == leading_digits(rest.drop_first())
        &&& digits == s.take(whole) + rest.drop_first().take(places as int)
        &&& end == rest.drop_first().skip(places as int)
    } else {
        &&& places == 0
        &&& digits == s.take(whole)
        &&& end == rest
    }
}

proof fn lemma_splits(s: Seq<char>, digits: Seq<char>, places: nat, end: Seq<char>, negative: bool)
    requires
        splits(s, digits, places, end),
    ensures
        unsigned_amount(s, negative) == match exponent(end) {
            Some(exponent) if digits.len() > 0 => Some(
                kept_amount(digits, 9 + exponent - places, negative),
            ),
            _ => None,
        },
{
    let rest = s.skip(leading_digits(s) as int);
    if !(rest.len() > 0 && rest[0] == '.') {
        assert(digits + rest.take(0) =~= digits);
        assert(rest.skip(0) =~= rest);
    }
}

/// Takes a number without its sign apart: its digits, how many of them stand after the
/// point, and where they end.
fn split_number(chars: &Vec<char>, from: usize) -> (r: (Vec<char>, usize, usize))
    requires
        from <= chars@.len(),
    ensures
        r.2 <= chars@.len(),
        r.1 <= r.0@.len(),
        forall|i: int| 0 <= i < r.0@.len() ==> text::is_digit(#[trigger] r.0@[i]),
        splits(chars@.skip(from as int), r.0@, r.1 as nat, chars@.skip(r.2 as int)),
{
    let ghost s = chars@.skip(from as int);
    let n: usize = chars.len();
    let whole: usize = count_digits(chars, from);
    let mut digits = slice(chars, from, from + whole);
    let ghost rest = s.skip(whole as int);
    proof {
        assert(rest =~= chars@.skip(from + whole));
        assert(digits@ =~= s.take(whole as int));
        assert forall|k: int| 0 <= k < digits@.len() implies text::is_digit(#[trigger] digits@[k]) by {
            lemma_leading_digits(s, k);
        }
    }
    if from + whole >= n || chars[from + whole] != '.' {
        return (digits, 0, from + whole);
    }
    let next: usize = from + whole + 1;
    let places: usize = count_digits(chars, next);
    let mut fraction = slice(chars, next, next + places);
    let ghost after = chars@.skip(next as int);
    proof {
        assert(after =~= rest.drop_first());
        assert(fraction@ =~= after.take(places as int));
        assert forall|k: int| 0 <= k < fraction@.len() implies text::is_digit(
            #[trigger] fraction@[k],
        ) by {
            lemma_leading_digits(after, k);
        }
        assert(after.skip(places as int) =~= chars@.skip(next + places));
    }
    digits.append(&mut fraction);
    (digits, places, next + places)
}

/// Reads a number without its sign from an index on.
fn read_unsigned(chars: &Vec<char>, from: usize, negative: bool) -> (r: Option<Amount>)
    requires
        from <= chars@.len(),
    ensures
        r == unsigned_amount(chars@.skip(from as int), negative),
{
    let (digits, places, end): (Vec<char>, usize, usize) = split_number(chars, from);
    let ghost tail = chars@.skip(end as int);
    proof {
        lemma_splits(chars@.skip(from as int), digits@, places as nat, tail, negative);
    }
    match read_exponent(chars, end) {
        Some(e) => {
            if digits.len() == 0 {
                return None;
            }
            proof {
                lemma_bounded(digits@, exponent(tail)->Some_0, places as int, negative);
            }
            Some(keep_amount(&digits, 9 + e - places as i128, negative))
        },
        None => None,
    }
}

fn keep_amount(digits: &Vec<char>, shift: i128, negative: bool) -> (r: Amount)
    requires
        forall|i: int| 0 <= i < digits@.len() ==> text::is_digit(#[trigger] digits@[i]),
    ensures
        r == kept_amount(digits@, shift as int, negative),
{
    let size: u128 = shift_digits(digits, shift);
    assert(digits@.take(digits@.len() as int) =~= digits@);
    let kept: u128 = if size == 0 && prefix_value(digits, digits.len()) > 0 {
        1
    } else if size > LARGEST {
        LARGEST
    } else {
        size
    };
    if negative {
        Amount::Billionths(-(kept as i128))
    } else {
        Amount::Billionths(kept as i128)
    }
}

impl Amount {
    /// The amount that a text stands for.
    pub fn parse(value: &str) -> (r: Option<Self>)
        ensures
            r == parsed(value@),
    {
        let chars: Vec<char> = text::chars_of(value);
        let mut from: usize = 0;
        let mut negative: bool = false;
        if chars.len() > 0 && (chars[0] == '-' || chars[0] == '+') {
            negative = chars[0] == '-';
            from = 1;
        }
        proof {
            assert(value@.drop_first() =~= value@.skip(1));
            assert(value@ =~= value@.skip(0));
            assert(signed(value@) == (negative, value@.skip(from as int)));
        }
        let word = value.substring_char(from, chars.len()).to_ascii_lowercase();
        assert(value@.subrange(from as int, chars@.len() as int) =~= value@.skip(from as int));
        if text::same_text(word.as_str(), "inf") || text::same_text(word.as_str(), "infinity") {
            return Some(
                if negative {
                    Amount::NegativeInfinity
                } else {
                    Amount::Infinity
                },
            );
        }
        if text::same_text(word.as_str(), "nan") {
            return Some(Amount::NotANumber);
        }
        read_unsigned(&chars, from, negative)
    }
}

// ---------------------------------------------------------------------------
// What is written reads back

proof fn lemma_digit(n: int)
    requires
        0 <= n < 10,
    ensures
        text::is_digit(text::digit(n)),
        text::digit_value(text::digit(n)) == n,
{
}

/// Every whole number is written in digits that read back.
pub proof fn lemma_decimal(n: nat)
    ensures
        text::all_digits(text::decimal(n)),
        text::decimal(n).len() > 0,
        text::digits_value(text::decimal(n)) == n,
    decreases n,
{
    if n < 10 {
        lemma_digit(n as int);
        let s = text::decimal(n);
        assert(s.drop_last() =~= Seq::<char>::empty());
        assert(text::digits_value(s.drop_last()) == 0);
    } else {
        let start = text::decimal((n as int / 10) as nat);
        lemma_decimal((n as int / 10) as nat);
        lemma_digit(n as int % 10);
        assert(text::decimal(n).drop_last() =~= start);
    }
}

/// Digits are counted up to what is none.
pub proof fn lemma_leading(a: Seq<char>, rest: Seq<char>)
    requires
        text::all_digits(a),
        rest.len() == 0 || !text::is_digit(rest[0]),
    ensures
        leading_digits(a + rest) == a.len(),
    decreases a.len(),
{
    if a.len() == 0 {
        assert(a + rest =~= rest);
    } else {
        assert((a + rest).drop_first() =~= a.drop_first() + rest);
        lemma_leading(a.drop_first(), rest);
    }
}

/// The parts of a number with a point.
proof fn lemma_pointed(n: nat, places: nat) -> (r: (Seq<char>, Seq<char>))
    ensures
        pointed(n, places) == r.0 + seq!['.'] + r.1,
        r.0.len() > 0,
        r.1.len() == places,
        text::all_digits(r.0),
        text::all_digits(r.1),
        text::digits_value(r.0 + r.1) == n,
    decreases places,
{
    if places == 0 {
        let a = text::decimal(n);
        lemma_decimal(n);
        let none = Seq::<char>::empty();
        assert(a.push('.') =~= a + seq!['.'] + none);
        assert(a + none =~= a);
        (a, none)
    } else {
        let d = text::digit(n as int % 10);
        let (a, b) = lemma_pointed((n as int / 10) as nat, (places - 1) as nat);
        lemma_digit(n as int % 10);
        assert((a + seq!['.'] + b).push(d) =~= a + seq!['.'] + b.push(d));
        assert((a + b.push(d)).drop_last() =~= a + b);
        (a, b.push(d))
    }
}

/// The parts of a number without zeros at the end of its fraction.
proof fn lemma_fixed(n: nat, places: nat) -> (r: (Seq<char>, Seq<char>))
    ensures
        fixed(n, places) == if r.1.len() == 0 {
            r.0
        } else {
            r.0 + seq!['.'] + r.1
        },
        r.0.len() > 0,
        r.1.len() <= places,
        text::all_digits(r.0),
        text::all_digits(r.1),
        text::digits_value(r.0 + r.1) * power::pow(10, (places - r.1.len()) as nat) == n,
    decreases places,
{
    if places == 0 {
        lemma_decimal(n);
        let none = Seq::<char>::empty();
        let a = text::decimal(n);
        assert(a + none =~= a);
        power::lemma_pow0(10);
        (a, none)
    } else if n % 10 == 0 {
        let (a, b) = lemma_fixed((n as int / 10) as nat, (places - 1) as nat);
        let v = text::digits_value(a + b);
        let k = (places - 1 - b.len()) as nat;
        let p = power::pow(10, k);
        reveal(power::pow);
        assert(power::pow(10, k + 1) == 10 * p);
        assert(v * (10 * p) == 10 * (v * p)) by (nonlinear_arith);
        (a, b)
    } else {
        let (a, b) = lemma_pointed(n, places);
        power::lemma_pow0(10);
        (a, b)
    }
}

/// A number of billionths reads back as it was written.
proof fn lemma_fixed_reads_back(n: nat, negative: bool)
    requires
        n <= LARGEST,
    ensures
        fixed(n, 9).len() > 0,
        text::is_digit(fixed(n, 9)[0]),
        unsigned_amount(fixed(n, 9), negative) == Some(
            Amount::Billionths(
                if negative {
                    (-n) as i128
                } else {
                    n as i128
                },
            ),
        ),
{
    let s = fixed(n, 9);
    let (a, b) = lemma_fixed(n, 9);
    let none = Seq::<char>::empty();
    let rest = if b.len() == 0 {
        none
    } else {
        seq!['.'] + b
    };
    assert(s =~= a + rest);
    assert(s[0] == a[0]);
    lemma_leading(a, rest);
    assert(s.take(a.len() as int) =~= a);
    assert(s.skip(a.len() as int) =~= rest);
    if b.len() > 0 {
        assert(rest.drop_first() =~= b);
        assert(b + none =~= b);
        lemma_leading(b, none);
        assert(b.take(b.len() as int) =~= b);
        assert(b.skip(b.len() as int) =~= none);
        assert(splits(s, a + b, b.len(), none));
    } else {
        assert(a + b =~= a);
        assert(splits(s, a + b, b.len(), none));
    }
    lemma_splits(s, a + b, b.len(), none, negative);
    let shift = (9 - b.len()) as nat;
    let v = text::digits_value(a + b);
    power::lemma_pow_positive(10, shift);
    let p = power::pow(10, shift);
    assert(shifted(a + b, shift as int) == n);
    if n == 0 {
        assert(v == 0) by (nonlinear_arith)
            requires
                v * p == 0,
                p > 0,
                v >= 0,
        ;
    }
}

/// An amount that is written down reads back as the same amount.
pub proof fn law_amounts_read_back(amount: Amount)
    requires
        amount != Amount::Billionths(i128::MIN),
    ensures
        parsed(amount_text(amount)) == Some(amount),
{
    reveal_strlit("NaN");
    reveal_strlit("nan");
    reveal_strlit("inf");
    reveal_strlit("infinity");
    reveal_strlit("-inf");
    reveal_strlit("-");
    match amount {
        Amount::NotANumber => {
            let s = "NaN"@;
            assert(signed(s) == (false, s));
            assert(text::lowered(s) =~= "nan"@);
            assert(text::lowered(s)[0] == 'n');
        },
        Amount::Infinity => {
            assert(text::lowered("inf"@) =~= "inf"@);
        },
        Amount::NegativeInfinity => {
            assert("-inf"@.drop_first() =~= "inf"@);
            assert(text::lowered("inf"@) =~= "inf"@);
        },
        Amount::Billionths(value) => {
            let negative = value < 0;
            let size: nat = if negative {
                (-value) as nat
            } else {
                value as nat
            };
            let body = fixed(size, 9);
            lemma_fixed_reads_back(size, negative);
            if negative {
                assert(("-"@ + body).drop_first() =~= body);
            }
            assert(signed(amount_text(amount)) == (negative, body));
            assert(text::lowered(body)[0] == body[0]);
        },
    }
}

} // verus!
