//! Numbers that a double holds, and the arithmetic on them.
//!
//! A double has 53 bits, and what does not fit is rounded to the nearest, to the
//! even one of two. Exponents stay far from the ends of their range here.

use vstd::arithmetic::power2::{
    lemma2_to64, lemma_pow2_adds, lemma_pow2_pos, lemma_pow2_strictly_increases, lemma_pow2_unfold,
    pow2,
};
use vstd::prelude::*;
use crate::time::MAX_NANOS;

verus! {

/// Two to the power of 52.
pub const TWO_52: u128 = 0x10_0000_0000_0000;

/// Two to the power of 53.
pub const TWO_53: u128 = 0x20_0000_0000_0000;

/// The largest number that is divided.
pub const MAX_DIVIDEND: u128 = 0x10_0000_0000_0000_0000_0000_0000;

/// The largest number that is divided by.
pub const MAX_DIVISOR: u128 = 0x7fff_ffff_ffff_ffff_ffff_ffff_ffff_ffff;

/// The quotient, rounded to the nearest integer, and to the even one from the
/// middle.
pub open spec fn half_even(a: nat, b: nat) -> nat {
    let q = a / b;
    let r = a % b;
    if 2 * r < b || 2 * r == b && q % 2 == 0 {
        q
    } else {
        q + 1
    }
}

/// A number: so many units of two to the power of `exponent`.
pub struct DoubleView {
    pub units: nat,
    pub exponent: int,
}

impl DoubleView {
    /// The number times two to the power of `k`.
    pub open spec fn shifted(self, k: int) -> DoubleView {
        DoubleView { units: self.units, exponent: self.exponent + k }
    }
}

/// The double nearest to a quotient.
pub open spec fn nearest(a: nat, b: nat) -> DoubleView
    decreases
            if a < b * TWO_52 {
                b * TWO_52 - a
            } else if a >= b * TWO_53 {
                a - b * TWO_53 + 1
            } else {
                0
            },
{
    if a == 0 || b == 0 {
        DoubleView { units: 0, exponent: 0 }
    } else if a < b * TWO_52 {
        nearest(2 * a, b).shifted(-1)
    } else if a >= b * TWO_53 {
        nearest(a, 2 * b).shifted(1)
    } else {
        DoubleView { units: half_even(a, b), exponent: 0 }
    }
}

/// The double that an integer becomes.
pub open spec fn whole_double(n: nat) -> DoubleView {
    nearest(n, 1)
}

/// The quotient of two doubles.
pub open spec fn quotient(x: DoubleView, y: DoubleView) -> DoubleView {
    nearest(x.units, y.units).shifted(x.exponent - y.exponent)
}

/// A double times a hundred.
pub open spec fn hundredfold(x: DoubleView) -> DoubleView {
    nearest(x.units * 100, 1).shifted(x.exponent)
}

/// A double times `k`, rounded to the nearest integer.
pub open spec fn rounded_times(x: DoubleView, k: nat) -> nat {
    if x.exponent >= 0 {
        x.units * k * pow2(x.exponent as nat)
    } else {
        half_even(x.units * k, pow2((-x.exponent) as nat))
    }
}

/// A number that a double holds.
#[derive(Clone, Copy, Debug)]
pub struct Double {
    pub units: u64,
    pub exponent: i32,
}

impl View for Double {
    type V = DoubleView;

    open spec fn view(&self) -> DoubleView {
        DoubleView { units: self.units as nat, exponent: self.exponent as int }
    }
}

impl Double {
    /// The number is zero, or it has 53 bits.
    pub open spec fn wf(self) -> bool {
        self.units == 0 || TWO_52 <= self.units <= TWO_53
    }

    /// The number is a double, and the exponent lies in a range.
    pub open spec fn within(self, low: int, high: int) -> bool {
        self.wf() && low <= self.exponent <= high
    }

    /// The number is zero, or its exponent is at most `high`.
    pub open spec fn at_most(self, high: int) -> bool {
        self.units == 0 || self.exponent <= high
    }
}

/// The exponent is that of the double nearest to a quotient.
pub open spec fn scales(exponent: int, a: nat, b: nat) -> bool {
    if exponent >= 0 {
        b * pow2(exponent as nat) * TWO_52 <= a < b * pow2(exponent as nat) * TWO_53
    } else {
        b * TWO_52 <= a * pow2((-exponent) as nat) < b * TWO_53
    }
}

/// The double nearest to a quotient is the quotient in units of its power of two,
/// rounded to the nearest integer, and those units give it 53 bits.
pub proof fn law_nearest_rounds_to_53_bits(a: nat, b: nat)
    requires
        a > 0,
        b > 0,
    ensures
        scales(nearest(a, b).exponent, a, b),
        nearest(a, b).units == if nearest(a, b).exponent >= 0 {
            half_even(a, b * pow2(nearest(a, b).exponent as nat))
        } else {
            half_even(a * pow2((-nearest(a, b).exponent) as nat), b)
        },
    decreases
            if a < b * TWO_52 {
                b * TWO_52 - a
            } else if a >= b * TWO_53 {
                a - b * TWO_53 + 1
            } else {
                0
            },
{
    lemma2_to64();
    assert(b * pow2(0) == b && 2 * a * pow2(0) == 2 * a) by (nonlinear_arith)
        requires
            pow2(0) == 1,
    ;
    if a < b * TWO_52 {
        law_nearest_rounds_to_53_bits(2 * a, b);
        let e = nearest(2 * a, b).exponent;
        if e > 0 {
            lemma_pow2_unfold(e as nat);
            lemma_pow2_pos((e - 1) as nat);
            assert(b * pow2(e as nat) * TWO_52 >= 2 * b * TWO_52) by (nonlinear_arith)
                requires
                    pow2(e as nat) >= 2,
                    b > 0,
            ;
        } else {
            lemma_pow2_unfold((1 - e) as nat);
            assert(2 * a * pow2((-e) as nat) == a * pow2((1 - e) as nat)) by (nonlinear_arith)
                requires
                    pow2((1 - e) as nat) == 2 * pow2((-e) as nat),
            ;
        }
    } else if a >= b * TWO_53 {
        law_nearest_rounds_to_53_bits(a, 2 * b);
        let e = nearest(a, 2 * b).exponent;
        if e < 0 {
            lemma_pow2_unfold((-e) as nat);
            lemma_pow2_pos((-e - 1) as nat);
            assert(a * pow2((-e) as nat) >= 2 * b * TWO_53) by (nonlinear_arith)
                requires
                    pow2((-e) as nat) >= 2,
                    a >= b * TWO_53,
                    b > 0,
            ;
        } else {
            lemma_pow2_unfold((e + 1) as nat);
            assert(2 * b * pow2(e as nat) == b * pow2((e + 1) as nat)) by (nonlinear_arith)
                requires
                    pow2((e + 1) as nat) == 2 * pow2(e as nat),
            ;
        }
    }
}

/// The exponent of a quotient is no larger than the quotient allows.
proof fn lemma_exponent_is_small(exponent: int, a: nat, b: nat, high: nat)
    requires
        scales(exponent, a, b),
        a < b * pow2(high) * TWO_52,
    ensures
        exponent < high,
{
    if exponent >= high {
        let k = exponent as nat;
        if k > high {
            lemma_pow2_strictly_increases(high, k);
        }
        assert(b * pow2(k) * TWO_52 >= b * pow2(high) * TWO_52) by (nonlinear_arith)
            requires
                pow2(k) >= pow2(high),
                b >= 0,
        ;
    }
}

/// The exponent of a quotient is no smaller than the quotient allows.
proof fn lemma_exponent_is_large(exponent: int, a: nat, b: nat, low: nat)
    requires
        scales(exponent, a, b),
        low > 0,
        a * pow2(low) >= b * TWO_53,
    ensures
        exponent > -low,
{
    if exponent <= -low {
        let k = (-exponent) as nat;
        if k > low {
            lemma_pow2_strictly_increases(low, k);
        }
        assert(a * pow2(k) >= a * pow2(low)) by (nonlinear_arith)
            requires
                pow2(k) >= pow2(low),
                a >= 0,
        ;
    }
}

/// The quotient, rounded to the nearest integer.
pub fn rounded_quotient(a: u128, b: u128) -> (r: u128)
    requires
        b > 0,
    ensures
        r == half_even(a as nat, b as nat),
{
    let q: u128 = a / b;
    let rest: u128 = a % b;
    proof {
        vstd::arithmetic::div_mod::lemma_mod_bound(a as int, b as int);
        assert(rest > 0 ==> q <= a / 2) by (nonlinear_arith)
            requires
                q == a / b,
                rest == a % b,
                b > 0,
        ;
    }
    if rest < b - rest || rest == b - rest && q % 2 == 0 {
        q
    } else {
        q + 1
    }
}

/// A quotient and its remainder determine each other.
proof fn lemma_divides(a: int, b: int, q: int, r: int)
    requires
        b > 0,
        a == q * b + r,
        0 <= r < b,
    ensures
        a / b == q,
        a % b == r,
{
    vstd::arithmetic::div_mod::lemma_fundamental_div_mod_converse(a, b, q, r);
}

/// Divides two integers into a double.
pub fn divide(a: u128, b: u128) -> (r: Double)
    requires
        a <= MAX_DIVIDEND,
        0 < b <= MAX_DIVISOR,
    ensures
        r@ == nearest(a as nat, b as nat),
        r.within(-200, 60),
        r.units == 0 <==> a == 0,
        a > 0 ==> scales(r.exponent as int, a as nat, b as nat),
{
    if a == 0 {
        return Double { units: 0, exponent: 0 };
    }
    let mut divisor: u128 = b;
    let mut up: i32 = 0;
    assert(pow2(0) == 1) by {
        lemma2_to64();
    }
    assert(b * pow2(0) == b && a * pow2(0) == a) by (nonlinear_arith)
        requires
            pow2(0) == 1,
    ;
    while a / TWO_53 >= divisor
        invariant
            0 < a <= MAX_DIVIDEND,
            0 < divisor <= MAX_DIVISOR,
            0 <= up <= 60,
            b > 0,
            divisor == b * pow2(up as nat),
            up > 0 ==> a >= divisor * TWO_52,
            nearest(a as nat, b as nat) == nearest(a as nat, divisor as nat).shifted(up as int),
        decreases a - divisor,
    {
        proof {
            lemma_pow2_unfold((up + 1) as nat);
            assert(divisor * 2 == b * pow2((up + 1) as nat)) by (nonlinear_arith)
                requires
                    divisor == b * pow2(up as nat),
                    pow2((up + 1) as nat) == 2 * pow2(up as nat),
            ;
            assert(divisor >= pow2(up as nat)) by (nonlinear_arith)
                requires
                    divisor == b * pow2(up as nat),
                    b >= 1,
            ;
            if up >= 60 {
                lemma2_to64();
                lemma_pow2_adds(32, 28);
            }
        }
        divisor = divisor * 2;
        up = up + 1;
    }
    let mut q: u128 = a / divisor;
    let mut rest: u128 = a % divisor;
    let mut down: i32 = 0;
    let ghost mut scaled: nat = a as nat;
    proof {
        vstd::arithmetic::div_mod::lemma_fundamental_div_mod(a as int, divisor as int);
        assert(a < divisor * TWO_53);
        assert(q < TWO_53) by (nonlinear_arith)
            requires
                q == a / divisor,
                a < divisor * TWO_53,
                divisor > 0,
        ;
        assert(scaled == q * divisor + rest) by (nonlinear_arith)
            requires
                a == divisor * q + rest,
                scaled == a,
        ;
        if up > 0 {
            assert(q >= TWO_52) by (nonlinear_arith)
                requires
                    q == a / divisor,
                    a >= divisor * TWO_52,
                    divisor > 0,
            ;
        }
    }
    while q < TWO_52
        invariant
            a > 0,
            0 < divisor <= MAX_DIVISOR,
            0 <= up <= 60,
            0 <= down <= 200,
            q < TWO_53,
            rest < divisor,
            scaled > 0,
            divisor == b * pow2(up as nat),
            up > 0 ==> q >= TWO_52 && down == 0,
            scaled == a * pow2(down as nat),
            scaled == q * divisor + rest,
            nearest(a as nat, b as nat) == nearest(scaled, divisor as nat).shifted(up - down),
        decreases 2 * divisor * TWO_52 - scaled,
    {
        let twice: u128 = rest * 2;
        proof {
            lemma_pow2_unfold((down + 1) as nat);
            assert(q * divisor + rest < divisor * TWO_52) by (nonlinear_arith)
                requires
                    q < TWO_52,
                    rest < divisor,
            ;
            assert(scaled >= pow2(down as nat)) by (nonlinear_arith)
                requires
                    scaled == a * pow2(down as nat),
                    a >= 1,
            ;
            lemma_doublings(divisor as nat, scaled, down as nat);
            assert(2 * scaled == a * pow2((down + 1) as nat)) by (nonlinear_arith)
                requires
                    scaled == a * pow2(down as nat),
                    pow2((down + 1) as nat) == 2 * pow2(down as nat),
            ;
            assert((2 * q) * divisor == 2 * (q * divisor)) by (nonlinear_arith);
            assert((2 * q + 1) * divisor == 2 * (q * divisor) + divisor) by (nonlinear_arith);
        }
        if twice >= divisor {
            q = q * 2 + 1;
            rest = twice - divisor;
        } else {
            q = q * 2;
            rest = twice;
        }
        down = down + 1;
        proof {
            scaled = 2 * scaled;
        }
    }
    proof {
        lemma_divides(scaled as int, divisor as int, q as int, rest as int);
        assert(divisor * TWO_52 <= scaled) by (nonlinear_arith)
            requires
                q >= TWO_52,
                scaled == q * divisor + rest,
                rest >= 0,
        ;
        assert(scaled < divisor * TWO_53) by (nonlinear_arith)
            requires
                q + 1 <= TWO_53,
                scaled == q * divisor + rest,
                rest < divisor,
        ;
    }
    assert(scales(up - down, a as nat, b as nat)) by {
        if down > 0 {
            assert(pow2(0) == 1) by {
                lemma2_to64();
            }
            assert(divisor == b) by (nonlinear_arith)
                requires
                    divisor == b * pow2(0),
                    pow2(0) == 1,
            ;
        } else {
            assert(scaled == a) by (nonlinear_arith)
                requires
                    scaled == a * pow2(0),
                    pow2(0) == 1,
            ;
        }
    }
    let units: u128 = if rest < divisor - rest || rest == divisor - rest && q % 2 == 0 {
        q
    } else {
        q + 1
    };
    Double { units: units as u64, exponent: up - down }
}

/// What is below a number times two to the power of 52 has been doubled less than two
/// hundred times.
proof fn lemma_doublings(divisor: nat, scaled: nat, down: nat)
    requires
        divisor <= MAX_DIVISOR,
        pow2(down) <= scaled < divisor * TWO_52,
    ensures
        down < 200,
{
    if down >= 200 {
        lemma2_to64();
        lemma_pow2_adds(64, 64);
        lemma_pow2_adds(128, 64);
        lemma_pow2_adds(192, (down - 192) as nat);
        lemma_pow2_pos((down - 192) as nat);
        let far = pow2((down - 192) as nat);
        let limit = pow2(192);
        assert(limit * far >= limit) by (nonlinear_arith)
            requires
                far >= 1,
                limit >= 0,
        ;
        assert(divisor * TWO_52 <= MAX_DIVISOR * TWO_52) by (nonlinear_arith)
            requires
                divisor <= MAX_DIVISOR,
        ;
    }
}

/// Divides two doubles. The divisor is not zero.
pub fn quotient_of(x: Double, y: Double) -> (r: Double)
    requires
        x.within(-1_000, 1_000),
        y.within(-1_000, 1_000),
        y.units > 0,
    ensures
        r@ == quotient(x@, y@),
        r.within(x.exponent - y.exponent - 200, x.exponent - y.exponent + 60),
        r.at_most(x.exponent - y.exponent - 51),
{
    let d = divide(x.units as u128, y.units as u128);
    proof {
        if x.units > 0 && d.exponent > -51 {
            lemma2_to64();
            lemma_pow2_adds(32, 19);
            let a = x.units as nat;
            let b = y.units as nat;
            if d.exponent < 0 {
                let k = (-d.exponent) as nat;
                lemma_pow2_strictly_increases(k, 51);
                assert(a * pow2(k) < b * TWO_52) by (nonlinear_arith)
                    requires
                        a <= 2 * b,
                        pow2(k) < 0x8_0000_0000_0000,
                        b > 0,
                        pow2(k) >= 0,
                ;
            } else {
                lemma_pow2_pos(d.exponent as nat);
                assert(b * pow2(d.exponent as nat) * TWO_52 > a) by (nonlinear_arith)
                    requires
                        a <= 2 * b,
                        b > 0,
                        pow2(d.exponent as nat) >= 1,
                ;
            }
        }
    }
    Double { units: d.units, exponent: d.exponent + (x.exponent - y.exponent) }
}

/// Multiplies a double by a hundred.
pub fn hundredfold_of(x: Double) -> (r: Double)
    requires
        x.within(-1_000, 1_000),
    ensures
        r@ == hundredfold(x@),
        r.within(x.exponent - 200, x.exponent + 60),
        r.at_most(x.exponent + 7),
{
    let n: u128 = x.units as u128 * 100;
    let d = divide(n, 1);
    proof {
        if n > 0 {
            lemma2_to64();
            lemma_exponent_is_small(d.exponent as int, n as nat, 1, 8);
        }
    }
    Double { units: d.units, exponent: d.exponent + x.exponent }
}

/// The double that a count becomes.
pub fn count_double(n: u64) -> (r: Double)
    ensures
        r@ == whole_double(n as nat),
        r.within(-200, 60),
        r.units == 0 <==> n == 0,
        n > 0 ==> -52 <= r.exponent <= 12,
{
    let d = divide(n as u128, 1);
    proof {
        if n > 0 {
            lemma2_to64();
            lemma_pow2_adds(32, 21);
            lemma_exponent_is_small(d.exponent as int, n as nat, 1, 13);
            lemma_exponent_is_large(d.exponent as int, n as nat, 1, 53);
        }
    }
    d
}

/// A span in seconds.
pub open spec fn seconds(ns: nat) -> DoubleView {
    nearest(ns, 1_000_000_000)
}

/// The double that a span becomes, in seconds.
pub fn seconds_double(ns: u128) -> (r: Double)
    requires
        ns <= MAX_NANOS,
    ensures
        r@ == seconds(ns as nat),
        r.within(-200, 60),
        r.units == 0 <==> ns == 0,
        ns > 0 ==> -82 <= r.exponent <= 12,
{
    let d = divide(ns, 1_000_000_000);
    proof {
        if ns > 0 {
            lemma2_to64();
            lemma_pow2_adds(64, 19);
            lemma_exponent_is_small(d.exponent as int, ns as nat, 1_000_000_000, 13);
            lemma_exponent_is_large(d.exponent as int, ns as nat, 1_000_000_000, 83);
        }
    }
    d
}

/// A number of millionths.
pub open spec fn of_millionths(n: nat) -> DoubleView {
    nearest(n, 1_000_000)
}

/// The double that a number of millionths becomes.
pub fn millionths_double(n: u64) -> (r: Double)
    ensures
        r@ == of_millionths(n as nat),
        r.within(-200, 60),
        r.units == 0 <==> n == 0,
        n > 0 ==> -72 <= r.exponent < 0,
{
    let d = divide(n as u128, 1_000_000);
    proof {
        if n > 0 {
            lemma2_to64();
            lemma_pow2_adds(64, 9);
            lemma_exponent_is_small(d.exponent as int, n as nat, 1_000_000, 0);
            lemma_exponent_is_large(d.exponent as int, n as nat, 1_000_000, 73);
        }
    }
    d
}

/// Two to the power of `k`.
fn power_of_two(k: u32) -> (r: u128)
    requires
        k < 127,
    ensures
        r == pow2(k as nat),
{
    let mut r: u128 = 1;
    let mut i: u32 = 0;
    proof {
        lemma2_to64();
    }
    while i < k
        invariant
            i <= k < 127,
            r == pow2(i as nat),
        decreases k - i,
    {
        proof {
            lemma_pow2_unfold((i + 1) as nat);
            lemma_pow2_strictly_increases((i + 1) as nat, 128);
            lemma2_to64();
            lemma_pow2_adds(64, 64);
        }
        r = r * 2;
        i += 1;
    }
    r
}

/// Multiplies a double by `k` and rounds to the nearest integer.
pub fn times_rounded(x: Double, k: u64) -> (r: u128)
    requires
        x.within(-10_000, 10_000),
        x.at_most(60),
        k <= 1_000,
    ensures
        r == rounded_times(x@, k as nat),
        r <= 0x1000_0000_0000_0000_0000_0000_0000_0000,
{
    if x.units == 0 {
        proof {
            if x.exponent < 0 {
                let p = pow2((-x.exponent) as nat);
                lemma_pow2_pos((-x.exponent) as nat);
                assert(0nat / p == 0 && 0nat % p == 0) by (nonlinear_arith)
                    requires
                        p > 0,
                ;
            }
        }
        return 0;
    }
    assert(x.units * k <= TWO_53 * 1_000) by (nonlinear_arith)
        requires
            x.units <= TWO_53,
            k <= 1_000,
    ;
    let n: u128 = x.units as u128 * k as u128;
    if x.exponent >= 0 {
        let p: u128 = power_of_two(x.exponent as u32);
        proof {
            lemma2_to64();
            lemma_pow2_adds(32, 28);
            if x.exponent < 60 {
                lemma_pow2_strictly_increases(x.exponent as nat, 60);
            }
            assert(n * p <= TWO_53 * 1_000 * 0x1000_0000_0000_0000) by (nonlinear_arith)
                requires
                    n <= TWO_53 * 1_000,
                    p <= 0x1000_0000_0000_0000,
            ;
        }
        n * p
    } else if x.exponent > -127 {
        let p: u128 = power_of_two((-x.exponent) as u32);
        proof {
            lemma_pow2_pos((-x.exponent) as nat);
            assert(n as nat / p as nat <= n) by (nonlinear_arith)
                requires
                    p >= 1,
            ;
        }
        rounded_quotient(n, p)
    } else {
        proof {
            let k = (-x.exponent) as nat;
            lemma2_to64();
            lemma_pow2_adds(64, 32);
            lemma_pow2_strictly_increases(96, k);
            lemma_divides(n as int, pow2(k) as int, 0, n as int);
        }
        0
    }
}

/// A quotient is rounded to the nearest integer, and to the even one where two are as
/// near.
pub proof fn law_rounding_is_to_the_nearest_even(a: nat, b: nat)
    requires
        b > 0,
    ensures
        2 * a <= 2 * b * half_even(a, b) + b,
        2 * b * half_even(a, b) <= 2 * a + b,
        2 * b * half_even(a, b) == 2 * a + b || 2 * a == 2 * b * half_even(a, b) + b ==> half_even(
            a,
            b,
        ) % 2 == 0,
{
    let q = a / b;
    let r = a % b;
    assert(a == b * q + r && 0 <= r < b) by (nonlinear_arith)
        requires
            q == a / b,
            r == a % b,
            b > 0,
    ;
    assert(2 * b * q == 2 * (b * q)) by (nonlinear_arith);
    assert(2 * b * (q + 1) == 2 * (b * q) + 2 * b) by (nonlinear_arith);
}

/// The double nearest to a quotient depends on the quotient alone.
pub proof fn law_doubles_are_of_quotients(a: nat, b: nat, k: nat)
    requires
        k > 0,
    ensures
        nearest(k * a, k * b) == nearest(a, b),
    decreases
            if a < b * TWO_52 {
                b * TWO_52 - a
            } else if a >= b * TWO_53 {
                a - b * TWO_53 + 1
            } else {
                0
            },
{
    assert(k * a == 0 <==> a == 0) by (nonlinear_arith)
        requires
            k > 0,
    ;
    assert(k * b == 0 <==> b == 0) by (nonlinear_arith)
        requires
            k > 0,
    ;
    assert((k * b) * TWO_52 == k * (b * TWO_52)) by (nonlinear_arith);
    assert((k * b) * TWO_53 == k * (b * TWO_53)) by (nonlinear_arith);
    let x = b * TWO_52;
    let y = b * TWO_53;
    assert(k * a < k * x <==> a < x) by (nonlinear_arith)
        requires
            k > 0,
    ;
    assert(k * a < k * y <==> a < y) by (nonlinear_arith)
        requires
            k > 0,
    ;
    if a == 0 || b == 0 {
    } else if a < x {
        assert(2 * (k * a) == k * (2 * a)) by (nonlinear_arith);
        assert((2 * a) < 2 * x);
        law_doubles_are_of_quotients(2 * a, b, k);
    } else if a >= y {
        assert(2 * (k * b) == k * (2 * b)) by (nonlinear_arith);
        assert((2 * b) * TWO_53 == 2 * y) by (nonlinear_arith)
            requires
                y == b * TWO_53,
        ;
        assert((2 * b) * TWO_52 == y) by (nonlinear_arith)
            requires
                y == b * TWO_53,
                TWO_53 == 2 * TWO_52,
        ;
        law_doubles_are_of_quotients(a, 2 * b, k);
    } else {
        let q = a / b;
        let r = a % b;
        assert(a == b * q + r && 0 <= r < b) by (nonlinear_arith)
            requires
                q == a / b,
                r == a % b,
                b > 0,
        ;
        assert(k * a == (k * b) * q + k * r && 0 <= k * r < k * b) by (nonlinear_arith)
            requires
                a == b * q + r,
                0 <= r < b,
                k > 0,
        ;
        lemma_divides((k * a) as int, (k * b) as int, q as int, (k * r) as int);
        assert(2 * (k * r) == k * (2 * r)) by (nonlinear_arith);
        assert(k * (2 * r) < k * b <==> 2 * r < b) by (nonlinear_arith)
            requires
                k > 0,
        ;
        assert(k * (2 * r) == k * b <==> 2 * r == b) by (nonlinear_arith)
            requires
                k > 0,
        ;
    }
}

/// So many seconds are the double of their number, and so many millionths of a number that
/// is whole are the double of it.
pub proof fn law_whole_seconds_are_whole(n: nat)
    ensures
        seconds(1_000_000_000 * n) == whole_double(n),
        of_millionths(1_000_000 * n) == whole_double(n),
{
    law_doubles_are_of_quotients(n, 1, 1_000_000_000);
    law_doubles_are_of_quotients(n, 1, 1_000_000);
}

/// A number is once itself.
pub proof fn law_a_number_is_once_itself(x: DoubleView)
    requires
        x.units > 0,
    ensures
        quotient(x, x) == whole_double(1),
{
    law_doubles_are_of_quotients(1, 1, x.units);
    assert(x.units * 1 == x.units);
}

/// A whole number below two to the power of 53 is held exactly: so many times the double of
/// it are so many times the number.
pub proof fn law_whole_numbers_are_exact(n: nat, k: nat)
    requires
        0 < n < 9_007_199_254_740_992,
    ensures
        rounded_times(whole_double(n), k) == n * k,
{
    let x = whole_double(n);
    law_nearest_rounds_to_53_bits(n, 1);
    if x.exponent >= 0 {
        let p = pow2(x.exponent as nat);
        lemma2_to64();
        if x.exponent > 0 {
            lemma_pow2_strictly_increases(0, x.exponent as nat);
            assert(1 * p * TWO_52 >= 2 * TWO_52) by (nonlinear_arith)
                requires
                    p >= 2,
            ;
        }
        assert(p == 1);
        assert(half_even(n, 1) == n);
        assert(n * k * 1 == n * k);
    } else {
        let p = pow2((-x.exponent) as nat);
        lemma_pow2_pos((-x.exponent) as nat);
        assert(half_even(n * p, 1) == n * p);
        assert(n * p * k == n * k * p) by (nonlinear_arith);
        vstd::arithmetic::div_mod::lemma_div_multiples_vanish((n * k) as int, p as int);
        vstd::arithmetic::div_mod::lemma_mod_multiples_basic((n * k) as int, p as int);
        assert(p * (n * k) == n * k * p) by (nonlinear_arith);
    }
}

} // verus!
