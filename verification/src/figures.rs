//! Numbers as reports write them.

use vstd::prelude::*;
use crate::double::{
    law_whole_numbers_are_exact, law_whole_seconds_are_whole, millionths_double, of_millionths,
    rounded_times, times_rounded, Double, DoubleView,
};
use crate::text::{digit_char, numeral, numeral_text};

verus! {

/// The last `k` digits of a number, with zeros in front.
pub open spec fn padded(n: nat, k: nat) -> Seq<char>
    decreases k,
{
    if k == 0 {
        Seq::empty()
    } else {
        padded(n / 10, (k - 1) as nat).push(digit_char(n % 10))
    }
}

/// Writes the last digits of a number.
pub fn padded_text(n: u128, k: u32) -> (r: String)
    ensures
        r@ == padded(n as nat, k as nat),
    decreases k,
{
    if k == 0 {
        String::new()
    } else {
        let mut out = padded_text(n / 10, k - 1);
        out.push((48 + (n % 10) as u8) as char);
        out
    }
}

/// Ten to the power of `k`.
pub open spec fn ten(k: nat) -> nat
    decreases k,
{
    if k == 0 {
        1
    } else {
        10 * ten((k - 1) as nat)
    }
}

/// A number of `10^-k` units, with a point before the last `k` digits.
pub open spec fn pointed(n: nat, k: nat) -> Seq<char> {
    numeral(n / ten(k)) + "."@ + padded(n % ten(k), k)
}

/// A double to `k` places.
pub open spec fn places(x: DoubleView, k: nat) -> Seq<char> {
    pointed(rounded_times(x, ten(k)), k)
}

/// Writes a double to three places.
pub fn three_places_text(x: Double) -> (r: String)
    requires
        x.within(-10_000, 10_000),
        x.at_most(60),
    ensures
        r@ == places(x@, 3),
{
    proof {
        reveal_with_fuel(ten, 4);
    }
    let n: u128 = times_rounded(x, 1_000);
    let mut out = numeral_text(n / 1_000);
    out.push_str(".");
    out.push_str(padded_text(n % 1_000, 3).as_str());
    assert(out@ =~= places(x@, 3));
    out
}

/// Writes a double to two places.
pub fn two_places_text(x: Double) -> (r: String)
    requires
        x.within(-10_000, 10_000),
        x.at_most(60),
    ensures
        r@ == places(x@, 2),
{
    proof {
        reveal_with_fuel(ten, 3);
    }
    let n: u128 = times_rounded(x, 100);
    let mut out = numeral_text(n / 100);
    out.push_str(".");
    out.push_str(padded_text(n % 100, 2).as_str());
    assert(out@ =~= places(x@, 2));
    out
}

/// Writes a double to one place.
pub fn one_place_text(x: Double) -> (r: String)
    requires
        x.within(-10_000, 10_000),
        x.at_most(60),
    ensures
        r@ == places(x@, 1),
{
    proof {
        reveal_with_fuel(ten, 2);
    }
    let n: u128 = times_rounded(x, 10);
    let mut out = numeral_text(n / 10);
    out.push_str(".");
    out.push_str(padded_text(n % 10, 1).as_str());
    assert(out@ =~= places(x@, 1));
    out
}

/// `k` digits behind the point, without zeros at the end.
pub open spec fn fraction(n: nat, k: nat) -> Seq<char>
    decreases k,
{
    if k > 1 && n % 10 == 0 {
        fraction(n / 10, (k - 1) as nat)
    } else {
        padded(n, k)
    }
}

pub fn fraction_text(n: u128, k: u32) -> (r: String)
    ensures
        r@ == fraction(n as nat, k as nat),
    decreases k,
{
    if k > 1 && n % 10 == 0 {
        fraction_text(n / 10, k - 1)
    } else {
        padded_text(n, k)
    }
}

/// A number of millionths, as short as it can be written.
pub open spec fn millionths(n: nat) -> Seq<char> {
    if n % 1_000_000 == 0 {
        numeral(n / 1_000_000)
    } else {
        numeral(n / 1_000_000) + "."@ + fraction(n % 1_000_000, 6)
    }
}

/// Writes a number of millionths.
pub fn millionths_text(n: u64) -> (r: String)
    ensures
        r@ == millionths(n as nat),
{
    let mut out = numeral_text((n / 1_000_000) as u128);
    if n % 1_000_000 != 0 {
        out.push_str(".");
        out.push_str(fraction_text((n % 1_000_000) as u128, 6).as_str());
        assert(out@ =~= millionths(n as nat));
    }
    out
}

/// A number of millionths, rounded to the nearest integer.
pub open spec fn whole(n: nat) -> Seq<char> {
    numeral(rounded_times(of_millionths(n), 1))
}

/// Writes a number of millionths as an integer.
pub fn whole_text(n: u64) -> (r: String)
    ensures
        r@ == whole(n as nat),
{
    numeral_text(times_rounded(millionths_double(n), 1))
}

/// Padding writes as many digits as it is told to: one more digit of a number behind those
/// of the rest.
pub proof fn law_padding_keeps_the_digits(n: nat, k: nat, d: nat)
    requires
        d < 10,
    ensures
        padded(n, k).len() == k,
        padded(10 * n + d, k + 1) == padded(n, k).push((48 + d) as char),
        padded(0, 1) == seq!['0'],
    decreases k,
{
    assert((10 * n + d) / 10 == n);
    assert((10 * n + d) % 10 == d);
    assert(padded(0, 0) =~= Seq::<char>::empty());
    assert(padded(0, 1) =~= seq!['0']);
    if k > 0 {
        law_padding_keeps_the_digits(n / 10, (k - 1) as nat, d);
    }
}

/// A number of so many places is written with the point in front of them.
pub proof fn law_the_point_stands_before_the_places(whole: nat, part: nat, k: nat)
    requires
        part < ten(k),
    ensures
        pointed(ten(k) * whole + part, k) == numeral(whole) + "."@ + padded(part, k),
        ten(0) == 1,
        ten(k + 1) == 10 * ten(k),
{
    let all = ten(k) * whole + part;
    assert(all == whole * ten(k) + part) by (nonlinear_arith)
        requires
            all == ten(k) * whole + part,
    ;
    vstd::arithmetic::div_mod::lemma_fundamental_div_mod_converse(
        all as int,
        ten(k) as int,
        whole as int,
        part as int,
    );
}

/// Millionths are written as a whole number, with a fraction behind the point if there is
/// one.
pub proof fn law_millionths_are_written_with_a_point(whole: nat, part: nat)
    requires
        part < 1_000_000,
    ensures
        part > 0 ==> millionths(1_000_000 * whole + part) == numeral(whole) + "."@ + fraction(
            part,
            6,
        ),
        millionths(1_000_000 * whole) == numeral(whole),
{
    assert((1_000_000 * whole + part) / 1_000_000 == whole);
    assert((1_000_000 * whole + part) % 1_000_000 == part);
    assert((1_000_000 * whole) / 1_000_000 == whole);
    assert((1_000_000 * whole) % 1_000_000 == 0);
}

/// A fraction is written without the zeros at its end, but with at least one digit.
pub proof fn law_fractions_end_without_zeros(n: nat, k: nat)
    ensures
        k > 0 ==> fraction(10 * n, k + 1) == fraction(n, k),
        n % 10 != 0 ==> fraction(n, k) == padded(n, k),
{
    assert((10 * n) % 10 == 0);
    assert((10 * n) / 10 == n);
}

/// A whole number of a million millionths each is written as that number.
pub proof fn law_whole_figures_are_written_whole(n: nat)
    requires
        0 < n < 9_007_199_254_740_992,
    ensures
        whole(1_000_000 * n) == numeral(n),
{
    law_whole_seconds_are_whole(n);
    law_whole_numbers_are_exact(n, 1);
}

} // verus!
