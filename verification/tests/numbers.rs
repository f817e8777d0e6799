use time_strike::decimal::{fixed_text, round3};
use time_strike::duration::{ratio, MAX_NANOS};
use time_strike::text::{parse_u64, shorten, text_before};
use time_strike::{Amount, Duration, Number};

fn number(value: f64) -> Number {
    Number { bits: value.to_bits() }
}

fn value(number: Number) -> f64 {
    f64::from_bits(number.bits)
}

/// A fixed sequence of bit patterns, spread over all exponents.
fn patterns(count: usize) -> Vec<u64> {
    let mut state = 0x9e37_79b9_7f4a_7c15_u64;
    let mut patterns = Vec::new();
    for _ in 0..count {
        state ^= state << 13;
        state ^= state >> 7;
        state ^= state << 17;
        patterns.push(state);
    }
    patterns
}

#[test]
fn amounts_are_the_nearest_billionths() {
    assert_eq!(number(10.0).amount(), Amount::Billionths(10_000_000_000));
    assert_eq!(number(0.1).amount(), Amount::Billionths(100_000_000));
    assert_eq!(number(-2.5).amount(), Amount::Billionths(-2_500_000_000));
    assert_eq!(number(0.25e-9).amount(), Amount::Billionths(1));
    assert_eq!(number(-1e-300).amount(), Amount::Billionths(-1));
    assert_eq!(number(0.0).amount(), Amount::Billionths(0));
    assert_eq!(number(1e300).amount(), Amount::Billionths(i128::MAX));
    assert_eq!(number(f64::NAN).amount(), Amount::NotANumber);
    assert_eq!(number(f64::INFINITY).amount(), Amount::Infinity);
    assert_eq!(number(f64::NEG_INFINITY).amount(), Amount::NegativeInfinity);
}

#[test]
fn spans_agree_with_the_standard_conversion() {
    for bits in patterns(20_000) {
        let secs = f64::from_bits(bits & 0x43ff_ffff_ffff_ffff);
        if !(secs.is_finite() && secs > 0.0) {
            continue;
        }
        let expected = std::time::Duration::try_from_secs_f64(secs)
            .ok()
            .map(|span| span.as_nanos());
        let actual = number(secs).checked_duration().map(|span| span.nanos);
        assert_eq!(actual, expected, "{secs}");
    }
    assert_eq!(number(0.0).checked_duration(), None);
    assert_eq!(number(-1.0).checked_duration(), None);
    assert_eq!(number(f64::NAN).checked_duration(), None);
    assert_eq!(number(f64::MAX).checked_duration(), None);
}

#[test]
fn sums_agree_with_floating_point_addition() {
    let list = patterns(40_000);
    for pair in list.chunks(2) {
        let a = f64::from_bits(pair[0] & 0x7fff_ffff_ffff_ffff);
        let b = f64::from_bits(pair[1] & 0x7fff_ffff_ffff_ffff);
        if !(a.is_finite() && b.is_finite()) {
            continue;
        }
        // One sum of unrelated numbers, and one of numbers of about the same size.
        let near = f64::from_bits((pair[0] & 0x7ff0_0000_0000_0000) | (pair[1] >> 12));
        assert_eq!(value(number(a).plus(number(b))).to_bits(), (a + b).to_bits());
        assert_eq!(value(number(a).plus(number(near))).to_bits(), (a + near).to_bits());
    }
    assert_eq!(value(number(f64::MAX).plus(number(f64::MAX))), f64::INFINITY);
    assert_eq!(value(number(4.0).plus(number(6.5))), 10.5);
    assert_eq!(value(number(5e-324).plus(number(5e-324))), 1e-323);
}

#[test]
fn thousandths_agree_with_floating_point_division() {
    for n in 0..5_000_u128 {
        assert_eq!(value(Number::from_thousandths(n)), n as f64 / 1000.0);
    }
    for bits in patterns(5_000) {
        let n = (bits >> 11) as u128;
        assert_eq!(value(Number::from_thousandths(n)), n as f64 / 1000.0);
    }
    assert_eq!(value(Number::from_thousandths(600_000)), 600.0);
}

#[test]
fn comparisons_agree_with_floating_point_ones() {
    let list = patterns(4_000);
    for pair in list.chunks(2) {
        let a = f64::from_bits(pair[0]);
        let b = f64::from_bits(pair[1] & 0x7fff_ffff_ffff_ffff);
        if !b.is_finite() {
            continue;
        }
        assert_eq!(number(a).at_most(number(b)), a <= b);
        if a.is_finite() && a >= 0.0 && a.is_sign_positive() {
            assert_eq!(number(a).exceeds(number(b)), a > b);
        }
    }
    assert!(!number(f64::NAN).at_most(number(1.0)));
    assert!(number(f64::NEG_INFINITY).at_most(number(0.0)));
}

#[test]
fn amounts_read_back_as_written() {
    for bits in patterns(5_000) {
        let amount = Amount::Billionths((bits as i64) as i128 * 1_000);
        assert_eq!(Amount::parse(&amount.to_text()), Some(amount));
    }
    for value in [0, 1, -1, 12_500_000_000, i128::MAX] {
        let amount = Amount::Billionths(value);
        assert_eq!(Amount::parse(&amount.to_text()), Some(amount));
    }
    for amount in [Amount::NotANumber, Amount::Infinity, Amount::NegativeInfinity] {
        assert_eq!(Amount::parse(&amount.to_text()), Some(amount));
    }
    assert_eq!(Amount::NegativeInfinity.to_text(), "-inf");
    assert_eq!(number(12.5).amount().to_text(), "12.5");
    assert_eq!(number(10.0).amount().to_text(), "10");
    assert_eq!(number(-0.125).amount().to_text(), "-0.125");
}

#[test]
fn numbers_are_read_in_every_notation() {
    assert_eq!(Amount::parse("12.5"), Some(Amount::Billionths(12_500_000_000)));
    assert_eq!(Amount::parse("+1e1"), Some(Amount::Billionths(10_000_000_000)));
    assert_eq!(Amount::parse("-2.5E-1"), Some(Amount::Billionths(-250_000_000)));
    assert_eq!(Amount::parse(".5"), Some(Amount::Billionths(500_000_000)));
    assert_eq!(Amount::parse("5."), Some(Amount::Billionths(5_000_000_000)));
    assert_eq!(Amount::parse("0.0000000015"), Some(Amount::Billionths(2)));
    assert_eq!(Amount::parse("1e-400"), Some(Amount::Billionths(1)));
    assert_eq!(Amount::parse("1e400"), Some(Amount::Billionths(i128::MAX)));
    assert_eq!(Amount::parse("inf"), Some(Amount::Infinity));
    assert_eq!(Amount::parse("-Infinity"), Some(Amount::NegativeInfinity));
    assert_eq!(Amount::parse("NaN"), Some(Amount::NotANumber));
    for text in ["", "+", ".", "e5", "1e", "1e+", "1.2.3", "12a", " 1", "0x10"] {
        assert_eq!(Amount::parse(text), None, "{text}");
    }
}

#[test]
fn rounding_to_thousandths_goes_up_from_half() {
    assert_eq!(round3(1_499_999).count, 1);
    assert_eq!(round3(1_500_000).count, 2);
    assert_eq!(round3(0).count, 0);
    assert_eq!(round3(1_234_567_890).to_text(), "1.235");
    assert_eq!(round3(4_000_000_000).to_text(), "4");
    assert_eq!(fixed_text(1_050, 3), "1.05");
    assert_eq!(fixed_text(7, 3), "0.007");
}

#[test]
fn percentages_keep_to_their_range() {
    assert_eq!(number(45.0).amount().to_fraction(), Amount::Billionths(450_000_000));
    assert_eq!(number(100.0).amount().to_fraction(), Amount::Billionths(1_000_000_000));
    assert_eq!(
        Amount::Billionths(100_000_000_001).to_fraction(),
        Amount::Billionths(1_000_000_001)
    );
    assert_eq!(Amount::Billionths(-1).to_fraction(), Amount::Billionths(-1));
    assert_eq!(Amount::Billionths(i128::MIN).to_fraction().is_positive(), false);
    assert_eq!(Amount::NotANumber.to_fraction(), Amount::NotANumber);
    assert_eq!(Amount::Billionths(250_000_000).to_percent(), Amount::Billionths(25_000_000_000));
    assert_eq!(Amount::Billionths(i128::MAX).to_percent(), Amount::Billionths(i128::MAX));
    assert_eq!(Amount::Billionths(i128::MIN).to_percent(), Amount::Billionths(-i128::MAX));
}

#[test]
fn spans_saturate_and_take_portions() {
    let longest = Duration { nanos: MAX_NANOS };
    assert_eq!(longest.saturating_add(Duration::from_nanos(1)), longest);
    assert_eq!(longest.checked_add(Duration::from_nanos(1)), None);
    assert_eq!(
        Duration::from_secs(1).checked_add(Duration::from_millis(5)),
        Some(Duration::from_nanos(1_005_000_000))
    );
    assert_eq!(
        Duration::from_secs(1).saturating_sub(Duration::from_secs(2)),
        Duration::zero()
    );
    assert_eq!(Duration::from_nanos(10).portion(1, 3), Duration::from_nanos(3));
    assert_eq!(longest.portion(1, 1), longest);
    assert_eq!(Amount::Billionths(i128::MAX).to_span(), longest);
    assert_eq!(Amount::Billionths(-5).to_span(), Duration::zero());
    assert_eq!(ratio(Duration::from_nanos(2), Duration::from_nanos(3), 4), (6666, true));
    assert_eq!(ratio(Duration::from_nanos(1), Duration::from_nanos(3), 4), (3333, false));
}

#[test]
fn texts_are_ordered_and_shortened_by_characters() {
    assert!(text_before("a", "b"));
    assert!(text_before("a", "ab"));
    assert!(!text_before("ab", "ab"));
    assert!(text_before("z", "\u{e9}"));
    assert!(text_before("\u{ffff}", "\u{10000}"));
    assert_eq!(shorten("\u{e9}t\u{e9}", 2), "\u{e9}t");
    assert_eq!(shorten("ab", 5), "ab");
    assert_eq!(parse_u64("18446744073709551615"), Some(u64::MAX));
    assert_eq!(parse_u64("+7"), Some(7));
    for text in ["18446744073709551616", "-1", "", "+", "1 ", "1.0"] {
        assert_eq!(parse_u64(text), None, "{text}");
    }
}
