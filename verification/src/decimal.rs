//! Decimal numbers of any length, read from text and held exactly.
//!
//! A number that a client writes is kept as a sign, its digits and a power of
//! ten, so that nothing is rounded. Limits that floating-point formats impose
//! are dyadic fractions, and are compared with exactly.

use vstd::prelude::*;
use crate::text::{cut, digit_char, find, lemma_position, lemma_position_is, numeral, numeral_text, position, spells};

verus! {

/// Ten to the power `n`.
pub open spec fn pow10(n: nat) -> nat
    decreases n,
{
    if n == 0 {
        1
    } else {
        10 * pow10((n - 1) as nat)
    }
}

/// Five to the power `n`.
pub open spec fn pow5(n: nat) -> nat
    decreases n,
{
    if n == 0 {
        1
    } else {
        5 * pow5((n - 1) as nat)
    }
}

pub proof fn lemma_pow10_positive(n: nat)
    ensures
        pow10(n) >= 1,
    decreases n,
{
    if n > 0 {
        lemma_pow10_positive((n - 1) as nat);
    }
}

pub proof fn lemma_pow10_add(a: nat, b: nat)
    ensures
        pow10(a + b) == pow10(a) * pow10(b),
    decreases a,
{
    if a > 0 {
        lemma_pow10_add((a - 1) as nat, b);
        assert((a + b - 1) as nat == (a - 1) as nat + b);
        assert(10 * (pow10((a - 1) as nat) * pow10(b)) == (10 * pow10((a - 1) as nat)) * pow10(b))
            by (nonlinear_arith);
    } else {
        assert(pow10(0) == 1);
        assert(pow10(0) * pow10(b) == pow10(b)) by (nonlinear_arith)
            requires
                pow10(0) == 1,
        ;
    }
}

pub proof fn lemma_pow10_monotone(a: nat, b: nat)
    requires
        a <= b,
    ensures
        pow10(a) <= pow10(b),
{
    lemma_pow10_add(a, (b - a) as nat);
    lemma_pow10_positive((b - a) as nat);
    lemma_pow10_positive(a);
    assert(pow10(a) * pow10((b - a) as nat) >= pow10(a)) by (nonlinear_arith)
        requires
            pow10((b - a) as nat) >= 1,
            pow10(a) >= 1,
    ;
}

/// Every element is a decimal digit.
pub open spec fn are_digits(d: Seq<u8>) -> bool {
    forall|i: int| 0 <= i < d.len() ==> d[i] < 10
}

/// The number that decimal digits spell, most significant first.
pub open spec fn nat_of(d: Seq<u8>) -> nat
    decreases d.len(),
{
    if d.len() == 0 {
        0
    } else {
        nat_of(d.drop_last()) * 10 + d.last() as nat
    }
}

pub open spec fn zeros(n: nat) -> Seq<u8> {
    Seq::new(n, |i: int| 0u8)
}

pub proof fn lemma_nat_of_append(a: Seq<u8>, b: Seq<u8>)
    ensures
        nat_of(a + b) == nat_of(a) * pow10(b.len()) + nat_of(b),
    decreases b.len(),
{
    if b.len() == 0 {
        assert(a + b == a);
        assert(pow10(0) == 1);
        assert(nat_of(a) * pow10(0) == nat_of(a)) by (nonlinear_arith)
            requires
                pow10(0) == 1,
        ;
    } else {
        let c = b.drop_last();
        lemma_nat_of_append(a, c);
        assert((a + b).drop_last() == a + c);
        assert((a + b).last() == b.last());
        let x = nat_of(a);
        let p = pow10(c.len());
        assert(pow10(b.len()) == 10 * p);
        assert((x * p + nat_of(c)) * 10 == x * (10 * p) + nat_of(c) * 10) by (nonlinear_arith);
    }
}

pub proof fn lemma_nat_of_bound(d: Seq<u8>)
    requires
        are_digits(d),
    ensures
        nat_of(d) < pow10(d.len()),
    decreases d.len(),
{
    if d.len() > 0 {
        assert(are_digits(d.drop_last()));
        lemma_nat_of_bound(d.drop_last());
    }
}

pub proof fn lemma_nat_of_leading(d: Seq<u8>)
    requires
        d.len() > 0,
        d[0] > 0,
    ensures
        nat_of(d) >= pow10((d.len() - 1) as nat),
    decreases d.len(),
{
    if d.len() == 1 {
        assert(nat_of(d.drop_last()) == 0);
        assert(pow10(0) == 1);
    } else {
        lemma_nat_of_leading(d.drop_last());
    }
}

pub proof fn lemma_nat_of_zeros(n: nat)
    ensures
        nat_of(zeros(n)) == 0,
    decreases n,
{
    if n > 0 {
        lemma_nat_of_zeros((n - 1) as nat);
        assert(zeros(n).drop_last() == zeros((n - 1) as nat));
    }
}

/// Padding with `n` zeros multiplies by ten to the power `n`.
pub proof fn lemma_nat_of_padded(d: Seq<u8>, n: nat)
    ensures
        nat_of(d + zeros(n)) == nat_of(d) * pow10(n),
{
    lemma_nat_of_append(d, zeros(n));
    lemma_nat_of_zeros(n);
}

/// Of two equally long digit strings the first differing digit decides.
pub proof fn lemma_first_difference(a: Seq<u8>, b: Seq<u8>, i: int)
    requires
        are_digits(a),
        are_digits(b),
        a.len() == b.len(),
        0 <= i < a.len(),
        a.take(i) == b.take(i),
        a[i] < b[i],
    ensures
        nat_of(a) < nat_of(b),
{
    let n = (a.len() - i - 1) as nat;
    let head = a.take(i);
    let ta = a.skip(i + 1);
    let tb = b.skip(i + 1);
    assert(a == a.take(i + 1) + ta);
    assert(b == b.take(i + 1) + tb);
    lemma_nat_of_append(a.take(i + 1), ta);
    lemma_nat_of_append(b.take(i + 1), tb);
    assert(a.take(i + 1).drop_last() == head);
    assert(b.take(i + 1).drop_last() == head);
    assert(are_digits(ta));
    lemma_nat_of_bound(ta);
    let x = nat_of(a.take(i + 1));
    let y = nat_of(b.take(i + 1));
    assert(x + 1 <= y);
    assert((x + 1) * pow10(n) <= y * pow10(n)) by (nonlinear_arith)
        requires
            x + 1 <= y,
    ;
    assert((x + 1) * pow10(n) == x * pow10(n) + pow10(n)) by (nonlinear_arith);
}

/// The decimal digits of a number, most significant first.
pub fn digits_of(n: u128) -> (r: Vec<u8>)
    ensures
        are_digits(r@),
        nat_of(r@) == n,
        r@.len() >= 1,
        n > 0 ==> r@[0] > 0,
        n == 0 ==> r@ == seq![0u8],
    decreases n,
{
    if n < 10 {
        let mut v: Vec<u8> = Vec::new();
        v.push(n as u8);
        assert(v@.drop_last().len() == 0);
        assert(nat_of(v@.drop_last()) == 0);
        v
    } else {
        let mut v = digits_of(n / 10);
        let ghost before = v@;
        v.push((n % 10) as u8);
        assert(v@.drop_last() == before);
        v
    }
}

/// Multiplies the number that the digits spell by five.
fn times_five(digits: &mut Vec<u8>)
    requires
        are_digits(old(digits)@),
        old(digits)@.len() >= 1,
        old(digits)@[0] > 0,
        old(digits)@.len() < usize::MAX,
    ensures
        are_digits(final(digits)@),
        nat_of(final(digits)@) == 5 * nat_of(old(digits)@),
        final(digits)@[0] > 0,
        old(digits)@.len() <= final(digits)@.len() <= old(digits)@.len() + 1,
{
    let n: usize = digits.len();
    let ghost start = digits@;
    let mut i: usize = n;
    let mut carry: u8 = 0;
    assert(start.skip(n as int).len() == 0);
    while i > 0
        invariant
            i <= n,
            n == start.len(),
            digits@.len() == n,
            carry <= 4,
            are_digits(start),
            are_digits(digits@),
            start[0] > 0,
            n >= 1,
            digits@.take(i as int) == start.take(i as int),
            nat_of(digits@.skip(i as int)) + carry * pow10((n - i) as nat) == 5 * nat_of(
                start.skip(i as int),
            ),
            i == 0 ==> digits@[0] > 0 || carry > 0,
        decreases i,
    {
        let ghost prior = digits@;
        let ghost prior_carry = carry;
        let j: usize = i - 1;
        assert(digits@[j as int] == digits@.take(i as int)[j as int]);
        assert(start[j as int] == start.take(i as int)[j as int]);
        let t: u8 = digits[j] * 5 + carry;
        digits.set(j, t % 10);
        carry = t / 10;
        proof {
            let d = start[j as int];
            let tail = start.skip(i as int);
            let new_tail = prior.skip(i as int);
            assert(start.skip(j as int) == seq![d] + tail);
            assert(digits@.skip(j as int) == seq![(t % 10) as u8] + new_tail);
            lemma_nat_of_append(seq![d], tail);
            lemma_nat_of_append(seq![(t % 10) as u8], new_tail);
            assert(seq![d].drop_last() =~= Seq::<u8>::empty());
            assert(seq![(t % 10) as u8].drop_last() =~= Seq::<u8>::empty());
            assert(nat_of(Seq::<u8>::empty()) == 0);
            assert(nat_of(seq![d]) == d);
            assert(nat_of(seq![(t % 10) as u8]) == t % 10);
            let p = pow10((n - i) as nat);
            assert(pow10((n - j) as nat) == 10 * p);
            assert(t == 10 * carry + t % 10);
            assert((t % 10) * p + carry * (10 * p) == t * p) by (nonlinear_arith)
                requires
                    t == 10 * carry + t % 10,
            ;
            assert(t * p == 5 * (d * p) + prior_carry * p) by (nonlinear_arith)
                requires
                    t == d * 5 + prior_carry,
            ;
            assert(digits@.take(j as int) =~= start.take(j as int)) by {
                assert(prior.take(i as int).take(j as int) =~= prior.take(j as int));
                assert(start.take(i as int).take(j as int) =~= start.take(j as int));
            }
        }
        i = j;
    }
    assert(digits@.skip(0) == digits@);
    assert(start.skip(0) == start);
    if carry > 0 {
        let ghost body = digits@;
        digits.insert(0, carry);
        proof {
            assert(digits@ == seq![carry] + body);
            lemma_nat_of_append(seq![carry], body);
            assert(seq![carry].drop_last() =~= Seq::<u8>::empty());
            assert(nat_of(Seq::<u8>::empty()) == 0);
            assert(nat_of(seq![carry]) == carry);
        }
    }
}

/// The digits of `n` times five to the power `k`: the numerator of `n / 2^k`
/// over ten to the power `k`.
fn dyadic_digits(n: u128, k: u8) -> (r: Vec<u8>)
    requires
        n > 0,
    ensures
        are_digits(r@),
        nat_of(r@) == n * pow5(k as nat),
        r@.len() >= 1,
        r@[0] > 0,
        r@.len() <= 300,
{
    let mut digits = digits_of(n);
    proof {
        lemma_u128_digits(digits@, n);
        assert(n * pow5(0) == n) by (nonlinear_arith)
            requires
                pow5(0) == 1,
        ;
    }
    let mut i: u8 = 0;
    while i < k
        invariant
            i <= k,
            are_digits(digits@),
            nat_of(digits@) == n * pow5(i as nat),
            digits@.len() >= 1,
            digits@[0] > 0,
            digits@.len() <= 40 + i,
        decreases k - i,
    {
        times_five(&mut digits);
        proof {
            assert(5 * (n * pow5(i as nat)) == n * (5 * pow5(i as nat))) by (nonlinear_arith);
            assert(pow5((i + 1) as nat) == 5 * pow5(i as nat));
        }
        i += 1;
    }
    digits
}

/// A 128-bit number has at most 40 digits.
proof fn lemma_u128_digits(d: Seq<u8>, n: u128)
    requires
        d.len() >= 1,
        nat_of(d) == n,
        n > 0,
        d[0] > 0,
    ensures
        d.len() <= 40,
{
    if d.len() > 40 {
        lemma_nat_of_leading(d);
        lemma_pow10_monotone(40, (d.len() - 1) as nat);
        reveal_with_fuel(pow10, 41);
    }
}

/// Where a number lies relative to a bound.
#[derive(Clone, Copy, Debug, PartialEq, Eq, Structural)]
pub enum Side {
    Below,
    At,
    Above,
}

/// Where `coefficient * 10^scale` lies relative to `bound * 10^bound_scale`.
pub open spec fn side_of(coefficient: nat, scale: int, bound: nat, bound_scale: int) -> Side {
    let left = if scale > bound_scale {
        coefficient * pow10((scale - bound_scale) as nat)
    } else {
        coefficient
    };
    let right = if bound_scale > scale {
        bound * pow10((bound_scale - scale) as nat)
    } else {
        bound
    };
    if left < right {
        Side::Below
    } else if left == right {
        Side::At
    } else {
        Side::Above
    }
}

/// A number with more digits before the point is the larger one.
proof fn lemma_more_digits(a: Seq<u8>, p: nat, b: Seq<u8>, q: nat)
    requires
        are_digits(b),
        a.len() > 0,
        a[0] > 0,
        a.len() + p > b.len() + q,
    ensures
        nat_of(a) * pow10(p) > nat_of(b) * pow10(q),
{
    lemma_nat_of_leading(a);
    lemma_nat_of_bound(b);
    let x = nat_of(a);
    let y = nat_of(b);
    let u = pow10((a.len() - 1) as nat);
    let v = pow10(b.len());
    lemma_pow10_add((a.len() - 1) as nat, p);
    lemma_pow10_add(b.len(), q);
    lemma_pow10_monotone(b.len() + q, (a.len() - 1 + p) as nat);
    lemma_pow10_positive(q);
    let pp = pow10(p);
    let qq = pow10(q);
    assert(x * pp >= u * pp) by (nonlinear_arith)
        requires
            x >= u,
    ;
    assert(y * qq < v * qq) by (nonlinear_arith)
        requires
            y < v,
            qq >= 1,
    ;
}

/// Which of two numbers is the larger.
pub open spec fn side_between(left: nat, right: nat) -> Side {
    if left < right {
        Side::Below
    } else if left == right {
        Side::At
    } else {
        Side::Above
    }
}

/// How far the first scale exceeds the second.
pub open spec fn excess(a: int, b: int) -> nat {
    if a > b {
        (a - b) as nat
    } else {
        0
    }
}

proof fn lemma_side_of(coefficient: nat, scale: int, bound: nat, bound_scale: int)
    ensures
        side_of(coefficient, scale, bound, bound_scale) == side_between(
            coefficient * pow10(excess(scale, bound_scale)),
            bound * pow10(excess(bound_scale, scale)),
        ),
{
    assert(pow10(0) == 1);
    assert(coefficient * pow10(0) == coefficient) by (nonlinear_arith)
        requires
            pow10(0) == 1,
    ;
    assert(bound * pow10(0) == bound) by (nonlinear_arith)
        requires
            pow10(0) == 1,
    ;
}

/// The number of leading zeros.
fn leading_zeros(digits: &[u8]) -> (skip: usize)
    ensures
        skip <= digits@.len(),
        nat_of(digits@) == nat_of(digits@.skip(skip as int)),
        skip < digits@.len() ==> digits@[skip as int] != 0,
{
    let mut skip: usize = 0;
    while skip < digits.len() && digits[skip] == 0
        invariant
            skip <= digits.len(),
            forall|j: int| 0 <= j < skip ==> digits@[j] == 0,
        decreases digits.len() - skip,
    {
        skip += 1;
    }
    proof {
        let d = digits@.skip(skip as int);
        assert(digits@ == zeros(skip as nat) + d);
        lemma_nat_of_append(zeros(skip as nat), d);
        lemma_nat_of_zeros(skip as nat);
        assert(0 * pow10(d.len()) == 0) by (nonlinear_arith);
    }
    skip
}

/// Compares two digit strings, the shorter one padded with zeros behind.
fn side_padded(digits: &[u8], skip: usize, bound: &[u8], len: usize) -> (r: Side)
    requires
        are_digits(digits@),
        are_digits(bound@),
        skip <= digits@.len(),
        digits@.len() - skip <= len,
        bound@.len() <= len,
    ensures
        r == side_between(
            nat_of(digits@.skip(skip as int) + zeros((len - (digits@.len() - skip)) as nat)),
            nat_of(bound@ + zeros((len - bound@.len()) as nat)),
        ),
{
    let total: usize = digits.len();
    let n: usize = total - skip;
    let m: usize = bound.len();
    let ghost left = digits@.skip(skip as int) + zeros((len - n) as nat);
    let ghost right = bound@ + zeros((len - m) as nat);
    let mut i: usize = 0;
    while i < len
        invariant
            i <= len,
            len == left.len(),
            len == right.len(),
            n + skip == total,
            total == digits@.len(),
            m == bound@.len(),
            left == digits@.skip(skip as int) + zeros((len - n) as nat),
            right == bound@ + zeros((len - m) as nat),
            are_digits(left),
            are_digits(right),
            left.take(i as int) == right.take(i as int),
        decreases len - i,
    {
        let x: u8 = if i < n {
            digits[skip + i]
        } else {
            0
        };
        let y: u8 = if i < m {
            bound[i]
        } else {
            0
        };
        assert(x == left[i as int]);
        assert(y == right[i as int]);
        if x < y {
            proof {
                lemma_first_difference(left, right, i as int);
            }
            return Side::Below;
        }
        if x > y {
            proof {
                lemma_first_difference(right, left, i as int);
            }
            return Side::Above;
        }
        assert(left.take(i + 1) =~= left.take(i as int).push(x));
        assert(right.take(i + 1) =~= right.take(i as int).push(y));
        i += 1;
    }
    assert(left.take(len as int) =~= left);
    assert(right.take(len as int) =~= right);
    Side::At
}

/// Scales that never overflow when the number of digits is added.
pub open spec fn moderate(scale: int) -> bool {
    -0x1_0000_0000_0000_0000_0000 <= scale <= 0x1_0000_0000_0000_0000_0000
}

/// Compares digits times a power of ten with a positive bound of the same form.
fn side(digits: &[u8], scale: i128, bound: &[u8], bound_scale: i128) -> (r: Side)
    requires
        are_digits(digits@),
        are_digits(bound@),
        bound@.len() > 0,
        bound@[0] > 0,
        moderate(scale as int),
        moderate(bound_scale as int),
    ensures
        r == side_of(nat_of(digits@), scale as int, nat_of(bound@), bound_scale as int),
{
    let skip: usize = leading_zeros(digits);
    let ghost d = digits@.skip(skip as int);
    let ghost b = bound@;
    let ghost up = excess(scale as int, bound_scale as int);
    let ghost down = excess(bound_scale as int, scale as int);
    proof {
        lemma_side_of(nat_of(d), scale as int, nat_of(b), bound_scale as int);
        assert(are_digits(d));
    }
    let n: usize = digits.len() - skip;
    let m: usize = bound.len();
    if n == 0 {
        proof {
            lemma_nat_of_leading(b);
            lemma_pow10_positive((b.len() - 1) as nat);
            lemma_pow10_positive(down);
            assert(nat_of(b) * pow10(down) > 0) by (nonlinear_arith)
                requires
                    nat_of(b) > 0,
                    pow10(down) > 0,
            ;
            assert(nat_of(d) == 0);
            assert(0 * pow10(up) == 0) by (nonlinear_arith);
        }
        return Side::Below;
    }
    let top: i128 = n as i128 + scale;
    let bound_top: i128 = m as i128 + bound_scale;
    if top > bound_top {
        proof {
            lemma_more_digits(d, up, b, down);
        }
        return Side::Above;
    }
    if top < bound_top {
        proof {
            lemma_more_digits(b, down, d, up);
        }
        return Side::Below;
    }
    let len: usize = if n > m {
        n
    } else {
        m
    };
    proof {
        lemma_nat_of_padded(d, up);
        lemma_nat_of_padded(b, down);
    }
    side_padded(digits, skip, bound, len)
}

/// A decimal number: its sign, and `coefficient * 10^scale`.
pub struct DecimalView {
    pub negative: bool,
    pub coefficient: nat,
    pub scale: int,
}

/// An exact decimal number.
#[derive(Clone, Debug, PartialEq, Eq)]
pub struct Decimal {
    pub negative: bool,
    pub digits: Vec<u8>,
    pub scale: i128,
}

impl View for Decimal {
    type V = DecimalView;

    open spec fn view(&self) -> DecimalView {
        DecimalView {
            negative: self.negative,
            coefficient: nat_of(self.digits@),
            scale: self.scale as int,
        }
    }
}

impl DecimalView {
    /// Where the absolute value lies relative to `n / 2^k`.
    pub open spec fn magnitude_side(self, n: nat, k: nat) -> Side {
        side_of(self.coefficient, self.scale, n * pow5(k), -(k as int))
    }
}

impl Decimal {
    /// The digits are decimal digits and the scale is moderate.
    pub open spec fn wf(&self) -> bool {
        are_digits(self.digits@) && moderate(self.scale as int)
    }

    /// Compares the absolute value with `n / 2^k`.
    pub fn magnitude_side(&self, n: u128, k: u8) -> (r: Side)
        requires
            self.wf(),
            n > 0,
        ensures
            r == self@.magnitude_side(n as nat, k as nat),
    {
        let bound = dyadic_digits(n, k);
        let scale: i128 = -(k as i128);
        side(&self.digits, self.scale, &bound, scale)
    }

    /// The whole number `n` times ten to the power `scale`.
    pub fn from_scaled(n: i64, scale: i128) -> (r: Decimal)
        requires
            moderate(scale as int),
        ensures
            r.wf(),
            r@.negative == (n < 0),
            r@.coefficient == if n < 0 { -(n as int) } else { n as int },
            r@.scale == scale,
    {
        let negative = n < 0;
        let magnitude: i128 = if negative {
            -(n as i128)
        } else {
            n as i128
        };
        let digits = digits_of(magnitude as u128);
        Decimal { negative, digits, scale }
    }
}

/// Digits as characters.
pub open spec fn digit_chars(d: Seq<u8>) -> Seq<char> {
    Seq::new(d.len(), |i: int| digit_char(d[i] as nat))
}

/// The exponent notation of a decimal number: its sign, its digits, and the
/// power of ten behind an `e`.
pub open spec fn notation(negative: bool, d: Seq<u8>, scale: int) -> Seq<char> {
    let sign = if negative {
        seq!['-']
    } else {
        Seq::empty()
    };
    let exponent = if scale < 0 {
        seq!['-'] + numeral((-scale) as nat)
    } else {
        numeral(scale as nat)
    };
    sign + (digit_chars(d).push('e') + exponent)
}

proof fn lemma_numeral(n: nat)
    ensures
        numeral(n).len() >= 1,
        all_digits(numeral(n)),
        spelled(numeral(n)) == n,
    decreases n,
{
    let s = numeral(n);
    if n < 10 {
        assert(digit_values(s).drop_last() =~= Seq::<u8>::empty());
        assert(digit_values(s).last() == n);
        assert(nat_of(Seq::<u8>::empty()) == 0);
    } else {
        lemma_numeral(n / 10);
        assert(digit_values(s).drop_last() =~= digit_values(numeral(n / 10)));
        assert(digit_values(s).last() == n % 10);
        assert forall|i: int| 0 <= i < s.len() implies is_digit(#[trigger] s[i]) by {
            if i < s.len() - 1 {
                assert(s[i] == numeral(n / 10)[i]);
            }
        }
    }
}

/// Reading the exponent notation gives the number back.
pub proof fn law_notation_reads_back(negative: bool, d: Seq<u8>, scale: int)
    requires
        are_digits(d),
        d.len() > 0,
        -(MAX_EXPONENT as int) <= scale <= MAX_EXPONENT as int,
    ensures
        number_of(notation(negative, d, scale)) == Some(
            NumberView::Finite(DecimalView { negative, coefficient: nat_of(d), scale }),
        ),
{
    let s = notation(negative, d, scale);
    let magnitude = if scale < 0 {
        (-scale) as nat
    } else {
        scale as nat
    };
    let exponent = if scale < 0 {
        seq!['-'] + numeral(magnitude)
    } else {
        numeral(magnitude)
    };
    let chars = digit_chars(d);
    let body = chars.push('e') + exponent;
    lemma_numeral(magnitude);
    assert(digit_values(chars) =~= d);
    assert(all_digits(chars));
    if negative {
        assert(s.skip(1) =~= body);
    } else {
        assert(s =~= body);
        assert(is_digit(chars[0]));
        assert(s[0] == chars[0]);
    }
    assert(signed(s) == (negative, body));
    // A digit comes first, so the text is none of the words.
    assert(is_digit(chars[0]));
    assert(body[0] == chars[0]);
    assert(lowered(body)[0] == chars[0]);
    reveal_strlit("inf");
    reveal_strlit("infinity");
    reveal_strlit("nan");
    assert("inf"@[0] == 'i');
    assert("infinity"@[0] == 'i');
    assert("nan"@[0] == 'n');
    // The exponent mark stands behind the digits.
    let n = d.len() as int;
    assert forall|j: int| 0 <= j < n implies body[j] != 'e' && body[j] != 'E' by {
        assert(is_digit(chars[j]));
        assert(body[j] == chars[j]);
    }
    lemma_position_is(body, 'e', n);
    lemma_position(body, 'E');
    assert(position(body, 'E') > n);
    assert(exponent_mark(body) == n);
    assert(body.take(n) =~= chars);
    assert(body.skip(n + 1) =~= exponent);
    assert forall|j: int| 0 <= j < n implies chars[j] != '.' by {
        assert(is_digit(chars[j]));
    }
    lemma_position_is(chars, '.', n);
    assert(chars.take(n) =~= chars);
    assert(chars + Seq::<char>::empty() =~= chars);
    assert(mantissa_of(chars) == Some((nat_of(d), 0nat)));
    if scale < 0 {
        assert(exponent.skip(1) =~= numeral(magnitude));
        assert(signed(exponent) == (true, numeral(magnitude)));
    } else {
        assert(is_digit(numeral(magnitude)[0]));
        assert(signed(exponent) == (false, numeral(magnitude)));
    }
    assert(exponent_of(exponent) == Some(scale));
}

impl Decimal {
    /// The number in exponent notation, as `read_number` reads it.
    pub fn to_text(&self) -> (r: String)
        requires
            self.wf(),
            self.digits@.len() > 0,
            -(MAX_EXPONENT as int) <= self.scale <= MAX_EXPONENT as int,
        ensures
            r@ == notation(self.negative, self.digits@, self.scale as int),
            number_of(r@) == Some(NumberView::Finite(self@)),
    {
        let mut out = String::new();
        if self.negative {
            out.push('-');
        }
        let ghost sign = out@;
        assert(sign =~= if self.negative {
            seq!['-']
        } else {
            Seq::<char>::empty()
        });
        let mut i: usize = 0;
        while i < self.digits.len()
            invariant
                i <= self.digits@.len(),
                self.wf(),
                out@ == sign + digit_chars(self.digits@.take(i as int)),
            decreases self.digits.len() - i,
        {
            out.push((48 + self.digits[i]) as char);
            i += 1;
            assert(out@ =~= sign + digit_chars(self.digits@.take(i as int)));
        }
        assert(self.digits@.take(i as int) == self.digits@);
        out.push('e');
        let magnitude: u128 = if self.scale < 0 {
            out.push('-');
            (-self.scale) as u128
        } else {
            self.scale as u128
        };
        let exponent = numeral_text(magnitude);
        out.push_str(&exponent);
        proof {
            assert(out@ =~= notation(self.negative, self.digits@, self.scale as int));
            law_notation_reads_back(self.negative, self.digits@, self.scale as int);
        }
        out
    }
}

/// A number as text may spell it.
pub enum NumberView {
    Finite(DecimalView),
    Infinite { negative: bool },
    NotANumber,
}

#[derive(Clone, Debug, PartialEq, Eq)]
pub enum Number {
    Finite(Decimal),
    Infinite { negative: bool },
    NotANumber,
}

impl View for Number {
    type V = NumberView;

    open spec fn view(&self) -> NumberView {
        match self {
            Number::Finite(d) => NumberView::Finite(d@),
            Number::Infinite { negative } => NumberView::Infinite { negative: *negative },
            Number::NotANumber => NumberView::NotANumber,
        }
    }
}

pub open spec fn is_digit(c: char) -> bool {
    '0' <= c && c <= '9'
}

pub open spec fn all_digits(s: Seq<char>) -> bool {
    forall|i: int| 0 <= i < s.len() ==> is_digit(#[trigger] s[i])
}

/// The values of digit characters.
pub open spec fn digit_values(s: Seq<char>) -> Seq<u8> {
    Seq::new(s.len(), |i: int| (s[i] as int - 48) as u8)
}

/// The number that digit characters spell.
pub open spec fn spelled(s: Seq<char>) -> nat {
    nat_of(digit_values(s))
}

/// ASCII lower case.
pub open spec fn lower(c: char) -> char {
    if 'A' <= c && c <= 'Z' {
        ((c as int) + 32) as char
    } else {
        c
    }
}

pub open spec fn lowered(s: Seq<char>) -> Seq<char> {
    Seq::new(s.len(), |i: int| lower(s[i]))
}

/// A leading sign, and what follows it.
pub open spec fn signed(s: Seq<char>) -> (bool, Seq<char>) {
    if s.len() > 0 && (s[0] == '-' || s[0] == '+') {
        (s[0] == '-', s.skip(1))
    } else {
        (false, s)
    }
}

/// Exponents count up to this bound; beyond it a number is out of every
/// format's reach in the same way.
pub const MAX_EXPONENT: u128 = 1_000_000_000_000_000_000;

/// The exponent that stands behind the exponent mark.
pub open spec fn exponent_of(s: Seq<char>) -> Option<int> {
    let (negative, body) = signed(s);
    if body.len() == 0 || !all_digits(body) {
        None
    } else {
        let magnitude = if spelled(body) > MAX_EXPONENT as nat {
            MAX_EXPONENT as nat
        } else {
            spelled(body)
        };
        Some(
            if negative {
                -(magnitude as int)
            } else {
                magnitude as int
            },
        )
    }
}

/// The index of the first `e` or `E`, or the length if there is none.
pub open spec fn exponent_mark(s: Seq<char>) -> int {
    let small = position(s, 'e');
    let large = position(s, 'E');
    if small < large {
        small
    } else {
        large
    }
}

/// Digits with an optional point among them: the digits, and how many of them
/// stand behind the point.
pub open spec fn mantissa_of(s: Seq<char>) -> Option<(nat, nat)> {
    let p = position(s, '.');
    let whole = s.take(p);
    let fraction = if p < s.len() {
        s.skip(p + 1)
    } else {
        Seq::empty()
    };
    let digits = whole + fraction;
    if digits.len() == 0 || !all_digits(digits) {
        None
    } else {
        Some((spelled(digits), fraction.len()))
    }
}

/// The unsigned decimal number that `s` spells.
pub open spec fn plain_number_of(negative: bool, s: Seq<char>) -> Option<DecimalView> {
    let mark = exponent_mark(s);
    let exponent = if mark < s.len() {
        exponent_of(s.skip(mark + 1))
    } else {
        Some(0int)
    };
    match (mantissa_of(s.take(mark)), exponent) {
        (Some((coefficient, behind)), Some(e)) => Some(
            DecimalView { negative, coefficient, scale: e - behind },
        ),
        _ => None,
    }
}

/// The number that `s` spells: an optional sign and then either digits with an
/// optional point and exponent, or `inf`, `infinity` or `nan` in any case.
pub open spec fn number_of(s: Seq<char>) -> Option<NumberView> {
    let (negative, body) = signed(s);
    let word = lowered(body);
    if word == "inf"@ || word == "infinity"@ {
        Some(NumberView::Infinite { negative })
    } else if word == "nan"@ {
        Some(NumberView::NotANumber)
    } else {
        match plain_number_of(negative, body) {
            Some(d) => Some(NumberView::Finite(d)),
            None => None,
        }
    }
}

/// ASCII lower case of one character.
pub fn to_lower(c: char) -> (r: char)
    ensures
        r == lower(c),
{
    if 'A' <= c && c <= 'Z' {
        let b: u8 = c as u8;
        (b + 32) as char
    } else {
        c
    }
}

/// ASCII lower case of every character.
pub fn to_lowered(chars: &[char]) -> (r: Vec<char>)
    ensures
        r@ == lowered(chars@),
{
    let mut out: Vec<char> = Vec::new();
    let mut i: usize = 0;
    while i < chars.len()
        invariant
            i <= chars.len(),
            out@ == lowered(chars@.take(i as int)),
        decreases chars.len() - i,
    {
        out.push(to_lower(chars[i]));
        i += 1;
        assert(out@ =~= lowered(chars@.take(i as int)));
    }
    assert(chars@.take(i as int) == chars@);
    out
}

/// Splits a leading sign off.
fn split_sign(chars: &[char]) -> (r: (bool, Vec<char>))
    ensures
        (r.0, r.1@) == signed(chars@),
{
    if chars.len() > 0 && (chars[0] == '-' || chars[0] == '+') {
        let rest = cut(chars, 1, chars.len());
        assert(rest@ == chars@.skip(1));
        (chars[0] == '-', rest)
    } else {
        let rest = cut(chars, 0, chars.len());
        assert(rest@ == chars@);
        (false, rest)
    }
}

/// The values of the characters, if all of them are digits.
fn read_digits(chars: &[char]) -> (r: Option<Vec<u8>>)
    ensures
        match r {
            Some(d) => all_digits(chars@) && d@ == digit_values(chars@) && are_digits(d@),
            None => !all_digits(chars@),
        },
{
    let mut out: Vec<u8> = Vec::new();
    let mut i: usize = 0;
    while i < chars.len()
        invariant
            i <= chars.len(),
            all_digits(chars@.take(i as int)),
            out@ == digit_values(chars@.take(i as int)),
            are_digits(out@),
        decreases chars.len() - i,
    {
        let c: char = chars[i];
        if !('0' <= c && c <= '9') {
            assert(!is_digit(chars@[i as int]));
            return None;
        }
        let b: u8 = c as u8;
        out.push(b - 48);
        i += 1;
        assert(out@ =~= digit_values(chars@.take(i as int)));
    }
    assert(chars@.take(i as int) == chars@);
    Some(out)
}

/// The digits' number, but at most `MAX_EXPONENT`.
fn capped(digits: &[u8]) -> (r: u128)
    requires
        are_digits(digits@),
    ensures
        r == if nat_of(digits@) > MAX_EXPONENT as nat {
            MAX_EXPONENT as nat
        } else {
            nat_of(digits@)
        },
{
    let mut value: u128 = 0;
    let mut i: usize = 0;
    while i < digits.len()
        invariant
            i <= digits.len(),
            are_digits(digits@),
            value == if nat_of(digits@.take(i as int)) > MAX_EXPONENT as nat {
                MAX_EXPONENT as nat
            } else {
                nat_of(digits@.take(i as int))
            },
        decreases digits.len() - i,
    {
        assert(digits@.take(i + 1).drop_last() == digits@.take(i as int));
        let next: u128 = value * 10 + digits[i] as u128;
        value = if next > MAX_EXPONENT {
            MAX_EXPONENT
        } else {
            next
        };
        i += 1;
    }
    assert(digits@.take(i as int) == digits@);
    value
}

/// Reads what stands behind the exponent mark.
fn read_exponent(chars: &[char]) -> (r: Option<i128>)
    ensures
        match (r, exponent_of(chars@)) {
            (Some(e), Some(expected)) => e == expected,
            (None, None) => true,
            _ => false,
        },
        r matches Some(e) ==> -MAX_EXPONENT <= e <= MAX_EXPONENT,
{
    let (negative, body) = split_sign(chars);
    if body.len() == 0 {
        return None;
    }
    match read_digits(&body) {
        Some(digits) => {
            let magnitude: u128 = capped(&digits);
            if negative {
                Some(-(magnitude as i128))
            } else {
                Some(magnitude as i128)
            }
        },
        None => None,
    }
}

/// Reads an unsigned decimal number.
fn read_plain_number(negative: bool, chars: &[char]) -> (r: Option<Decimal>)
    ensures
        match r {
            Some(d) => d.wf() && plain_number_of(negative, chars@) == Some(d@),
            None => plain_number_of(negative, chars@) is None,
        },
{
    let small: usize = find(chars, 'e');
    let large: usize = find(chars, 'E');
    let mark: usize = if small < large {
        small
    } else {
        large
    };
    let mantissa = cut(chars, 0, mark);
    assert(mantissa@ == chars@.take(mark as int));
    let exponent: Option<i128> = if mark < chars.len() {
        let rest = cut(chars, mark + 1, chars.len());
        assert(rest@ == chars@.skip(mark + 1));
        read_exponent(&rest)
    } else {
        Some(0)
    };
    let point: usize = find(&mantissa, '.');
    let mut joined = cut(&mantissa, 0, point);
    let mut fraction: Vec<char> = Vec::new();
    if point < mantissa.len() {
        fraction = cut(&mantissa, point + 1, mantissa.len());
        assert(fraction@ == mantissa@.skip(point + 1));
    }
    let behind: usize = fraction.len();
    let ghost whole = joined@;
    let ghost tail = fraction@;
    joined.append(&mut fraction);
    assert(joined@ == whole + tail);
    if joined.len() == 0 {
        return None;
    }
    match (read_digits(&joined), exponent) {
        (Some(digits), Some(e)) => {
            let scale: i128 = e - behind as i128;
            Some(Decimal { negative, digits, scale })
        },
        _ => None,
    }
}

/// Reads a number.
pub fn read_number(chars: &[char]) -> (r: Option<Number>)
    ensures
        match r {
            Some(n) => number_of(chars@) == Some(n@) && (n matches Number::Finite(d) ==> d.wf()),
            None => number_of(chars@) is None,
        },
{
    let (negative, body) = split_sign(chars);
    let word = to_lowered(&body);
    if spells(&word, "inf") || spells(&word, "infinity") {
        return Some(Number::Infinite { negative });
    }
    if spells(&word, "nan") {
        return Some(Number::NotANumber);
    }
    match read_plain_number(negative, &body) {
        Some(d) => Some(Number::Finite(d)),
        None => None,
    }
}

/// Digits are read as decimal digits, the most significant first.
pub proof fn law_digits_are_decimal(s: Seq<char>, c: char)
    requires
        '0' <= c <= '9',
    ensures
        spelled(s.push(c)) == 10 * spelled(s) + (c as nat - 48),
        spelled(Seq::empty()) == 0,
{
    assert(digit_values(s.push(c)).drop_last() =~= digit_values(s));
    assert(digit_values(Seq::<char>::empty()) =~= Seq::<u8>::empty());
}

proof fn lemma_no_mark(s: Seq<char>, c: char)
    requires
        all_digits(s),
        !is_digit(c),
    ensures
        position(s, c) == s.len(),
{
    lemma_position_is(s, c, s.len() as int);
}

proof fn lemma_plain_reads(s: Seq<char>)
    requires
        s.len() > 0,
        is_digit(s[0]),
    ensures
        plain_number_of(false, s) is Some ==> number_of(s) == Some(
            NumberView::Finite(plain_number_of(false, s)->0),
        ),
        plain_number_of(true, s) is Some ==> number_of(seq!['-'] + s) == Some(
            NumberView::Finite(plain_number_of(true, s)->0),
        ),
{
    reveal_strlit("inf");
    reveal_strlit("infinity");
    reveal_strlit("nan");
    assert(lowered(s)[0] == s[0]);
    assert((seq!['-'] + s).skip(1) =~= s);
}

/// A number of digits with a point is read as its digits without the point, scaled down
/// by as many tens as digits stand behind the point; without a point it is an integer.
/// A sign in front is its sign.
pub proof fn law_points_scale_down(whole: Seq<char>, behind: Seq<char>)
    requires
        whole.len() > 0,
        forall|i: int| 0 <= i < whole.len() ==> '0' <= #[trigger] whole[i] <= '9',
        forall|i: int| 0 <= i < behind.len() ==> '0' <= #[trigger] behind[i] <= '9',
    ensures
        number_of(whole.push('.') + behind) == Some(
            NumberView::Finite(
                DecimalView {
                    negative: false,
                    coefficient: spelled(whole + behind),
                    scale: -(behind.len() as int),
                },
            ),
        ),
        number_of(seq!['-'] + (whole.push('.') + behind)) == Some(
            NumberView::Finite(
                DecimalView {
                    negative: true,
                    coefficient: spelled(whole + behind),
                    scale: -(behind.len() as int),
                },
            ),
        ),
        number_of(whole) == Some(
            NumberView::Finite(
                DecimalView { negative: false, coefficient: spelled(whole), scale: 0 },
            ),
        ),
        number_of(seq!['-'] + whole) == Some(
            NumberView::Finite(
                DecimalView { negative: true, coefficient: spelled(whole), scale: 0 },
            ),
        ),
{
    let s = whole.push('.') + behind;
    lemma_position_is(s, '.', whole.len() as int);
    lemma_position_is(s, 'e', s.len() as int);
    lemma_position_is(s, 'E', s.len() as int);
    assert(s.take(s.len() as int) =~= s);
    assert(s.take(whole.len() as int) =~= whole);
    assert(s.skip(whole.len() as int + 1) =~= behind);
    assert(all_digits(whole + behind));
    assert(all_digits(whole));
    lemma_no_mark(whole, '.');
    lemma_no_mark(whole, 'e');
    lemma_no_mark(whole, 'E');
    assert(whole.take(whole.len() as int) =~= whole);
    assert(whole + Seq::<char>::empty() =~= whole);
    lemma_plain_reads(s);
    lemma_plain_reads(whole);
}

/// Only the capital letters of the alphabet change when a text is lowered: each becomes
/// the small letter in the same place.
pub proof fn law_lowering_keeps_all_but_capitals(s: Seq<char>, i: int)
    requires
        0 <= i < s.len(),
    ensures
        lowered(s).len() == s.len(),
        'A' <= s[i] <= 'Z' ==> lowered(s)[i] as u32 - 'a' as u32 == s[i] as u32 - 'A' as u32,
        !('A' <= s[i] <= 'Z') ==> lowered(s)[i] == s[i],
        lowered(lowered(s)) == lowered(s),
{
    assert(lowered(lowered(s)) =~= lowered(s));
}

/// A decimal number lies below, at or above an integer as its value does.
pub proof fn law_numbers_are_compared_by_value(d: DecimalView, n: nat, k: nat)
    requires
        d.scale == -(k as int),
    ensures
        d.magnitude_side(n, 0) == Side::Below <==> d.coefficient < n * pow10(k),
        d.magnitude_side(n, 0) == Side::At <==> d.coefficient == n * pow10(k),
        d.magnitude_side(n, 0) == Side::Above <==> d.coefficient > n * pow10(k),
{
    assert(pow5(0) == 1);
    assert(pow10(0) == 1);
    assert(n * pow5(0) == n) by (nonlinear_arith)
        requires
            pow5(0) == 1,
    ;
    assert(n * pow10(0) == n) by (nonlinear_arith)
        requires
            pow10(0) == 1,
    ;
}

} // verus!
