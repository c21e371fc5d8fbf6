//! Numbers as a double holds them, and as reports write them.

use biei::config::StandbyRatioError;
use biei::double::{
    count_double, divide, hundredfold_of, millionths_double, quotient_of, rounded_quotient,
    seconds_double, times_rounded, Double,
};
use biei::figures::{one_place_text, three_places_text, two_places_text, whole_text};

fn value(x: Double) -> f64 {
    x.units as f64 * 2f64.powi(x.exponent)
}

#[test]
fn counts_divide_as_doubles_do() {
    for n in 0..400u64 {
        for of in 1..400u64 {
            let part = quotient_of(count_double(n), count_double(of));
            let expected = n as f64 / of as f64;
            assert_eq!(value(part), expected);
            assert_eq!(two_places_text(part), format!("{expected:.2}"));
            assert_eq!(three_places_text(part), format!("{expected:.3}"));
            let percent = hundredfold_of(part);
            let expected = expected * 100.0;
            assert_eq!(value(percent), expected);
            assert_eq!(one_place_text(percent), format!("{expected:.1}"));
            assert_eq!(two_places_text(percent), format!("{expected:.2}"));
        }
    }
}

#[test]
fn halves_are_decided_by_the_bits() {
    let ratio = quotient_of(count_double(303), count_double(200));
    assert_eq!(two_places_text(ratio), "1.51");
    let share = hundredfold_of(quotient_of(count_double(1), count_double(20_000)));
    assert_eq!(two_places_text(share), "0.01");
    let eighth = quotient_of(count_double(1), count_double(8));
    assert_eq!(two_places_text(eighth), "0.12", "an exact half goes to the even digit");
    let error = StandbyRatioError { slots: 303, permits: 200 };
    assert!(error.message().contains("ratio is 1.51x"));
}

#[test]
fn large_numbers_lose_their_last_bits() {
    for n in [0u64, 1, (1 << 53) - 1, (1 << 53) + 1, (1 << 53) + 3, u64::MAX - 1_024, u64::MAX] {
        assert_eq!(value(count_double(n)), n as f64);
        assert_eq!(times_rounded(count_double(n), 1), n as f64 as u128);
    }
    let most = 18_446_744_073_709_551_615_999_999_999u128;
    assert_eq!(value(seconds_double(most)), 18_446_744_073_709_551_616.0);
    assert_eq!(value(seconds_double(1)), 1e-9);
    let widest = quotient_of(seconds_double(most), seconds_double(1));
    assert_eq!(value(widest), 18_446_744_073_709_551_616.0 / 1e-9);
    assert_eq!(two_places_text(widest), format!("{:.2}", 18_446_744_073_709_551_616.0 / 1e-9));
    let finest = quotient_of(seconds_double(1), count_double(u64::MAX));
    assert_eq!(two_places_text(finest), "0.00");
}

#[test]
fn spans_and_millionths_are_the_nearest_doubles() {
    for ns in [1u64, 3, 999, 123_456_789, 1_000_000_001, 86_400_000_000_007] {
        let text = format!("{ns}e-9");
        assert_eq!(value(seconds_double(ns as u128)), text.parse::<f64>().expect("a number"));
        let text = format!("{ns}e-6");
        assert_eq!(value(millionths_double(ns)), text.parse::<f64>().expect("a number"));
    }
    for n in [0u64, 499_999, 500_000, 1_500_000, 2_500_000, 2_500_001] {
        let exact = format!("{n}e-6").parse::<f64>().expect("a number");
        assert_eq!(whole_text(n), format!("{exact:.0}"));
    }
    let rate = format!("{:.2}", "1.005".parse::<f64>().expect("a number"));
    assert_eq!(two_places_text(divide(1_005, 1_000)), rate);
}

#[test]
fn quotients_round_to_the_nearest_integer() {
    assert_eq!(rounded_quotient(5, 2), 2);
    assert_eq!(rounded_quotient(7, 2), 4);
    assert_eq!(rounded_quotient(u128::MAX, 1), u128::MAX);
}
