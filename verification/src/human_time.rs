//! How long the spans come to that people write, such as `1h 30m`.

use vstd::prelude::*;
use crate::decimal::{
    digit_values, law_digits_are_decimal, lemma_pow10_monotone, lemma_pow10_positive, pow10, spelled,
};
use crate::text::{chars_of, same_text};
use crate::time::MAX_NANOS;

verus! {

/// The nanoseconds of a unit of time; zero if there is no such unit.
pub open spec fn unit_nanos(unit: Seq<char>) -> nat {
    if unit == "nanos"@ || unit == "nsec"@ || unit == "ns"@ {
        1
    } else if unit == "usec"@ || unit == "us"@ || unit == "\u{b5}s"@ {
        1_000
    } else if unit == "millis"@ || unit == "msec"@ || unit == "ms"@ {
        1_000_000
    } else if unit == "seconds"@ || unit == "second"@ || unit == "secs"@ || unit == "sec"@ || unit
        == "s"@ {
        1_000_000_000
    } else if unit == "minutes"@ || unit == "minute"@ || unit == "mins"@ || unit == "min"@ || unit
        == "m"@ {
        60_000_000_000
    } else if unit == "hours"@ || unit == "hour"@ || unit == "hrs"@ || unit == "hr"@ || unit
        == "h"@ {
        3_600_000_000_000
    } else if unit == "days"@ || unit == "day"@ || unit == "d"@ {
        86_400_000_000_000
    } else if unit == "weeks"@ || unit == "week"@ || unit == "wks"@ || unit == "wk"@ || unit
        == "w"@ {
        604_800_000_000_000
    } else if unit == "months"@ || unit == "month"@ || unit == "M"@ {
        2_630_016_000_000_000
    } else if unit == "years"@ || unit == "year"@ || unit == "yrs"@ || unit == "yr"@ || unit
        == "y"@ {
        31_557_600_000_000_000
    } else {
        0
    }
}

/// The nanoseconds of a unit of time.
pub fn nanos_of_unit(unit: &str) -> (r: u128)
    ensures
        r == unit_nanos(unit@),
        r <= 31_557_600_000_000_000,
{
    if same_text(unit, "nanos") || same_text(unit, "nsec") || same_text(unit, "ns") {
        1
    } else if same_text(unit, "usec") || same_text(unit, "us") || same_text(unit, "\u{b5}s") {
        1_000
    } else if same_text(unit, "millis") || same_text(unit, "msec") || same_text(unit, "ms") {
        1_000_000
    } else if same_text(unit, "seconds") || same_text(unit, "second") || same_text(unit, "secs")
        || same_text(unit, "sec") || same_text(unit, "s") {
        1_000_000_000
    } else if same_text(unit, "minutes") || same_text(unit, "minute") || same_text(unit, "mins")
        || same_text(unit, "min") || same_text(unit, "m") {
        60_000_000_000
    } else if same_text(unit, "hours") || same_text(unit, "hour") || same_text(unit, "hrs")
        || same_text(unit, "hr") || same_text(unit, "h") {
        3_600_000_000_000
    } else if same_text(unit, "days") || same_text(unit, "day") || same_text(unit, "d") {
        86_400_000_000_000
    } else if same_text(unit, "weeks") || same_text(unit, "week") || same_text(unit, "wks")
        || same_text(unit, "wk") || same_text(unit, "w") {
        604_800_000_000_000
    } else if same_text(unit, "months") || same_text(unit, "month") || same_text(unit, "M") {
        2_630_016_000_000_000
    } else if same_text(unit, "years") || same_text(unit, "year") || same_text(unit, "yrs")
        || same_text(unit, "yr") || same_text(unit, "y") {
        31_557_600_000_000_000
    } else {
        0
    }
}

/// The places of a fraction that are counted.
pub const MOST_PLACES: u32 = 19;

/// A fraction behind a number: its digits as a number, and how many they are.
pub struct Fraction {
    pub digits: nat,
    pub places: nat,
}

impl Fraction {
    /// One more place of the fraction was read.
    pub open spec fn read(self, digit: nat) -> Fraction {
        if self.places < MOST_PLACES {
            Fraction { digits: self.digits * 10 + digit, places: self.places + 1 }
        } else {
            self
        }
    }
}

/// What was read of a text: the nanoseconds of the spans that are over, and the
/// number, the fraction and the unit of the one that is not.
pub struct SpanScan {
    pub total: nat,
    pub number: nat,
    pub fraction: Option<Fraction>,
    pub unit: Seq<char>,
}

impl SpanScan {
    /// The nanoseconds with the span that is not over.
    pub open spec fn finished(self) -> nat {
        let unit = unit_nanos(self.unit);
        self.total + self.number * unit + match self.fraction {
            Some(f) => f.digits * unit / pow10(f.places),
            None => 0,
        }
    }

    /// A new span begins, with a number.
    pub open spec fn next(self, number: nat) -> SpanScan {
        SpanScan { total: self.finished(), number, fraction: None, unit: Seq::empty() }
    }

    /// One more character was read. A digit, and whatever is no letter, ends a unit.
    pub open spec fn read(self, c: char) -> SpanScan {
        if '0' <= c <= '9' {
            let digit = (c as u32 - 48) as nat;
            if self.unit.len() > 0 {
                self.next(digit)
            } else {
                match self.fraction {
                    Some(f) => SpanScan { fraction: Some(f.read(digit)), ..self },
                    None => SpanScan { number: self.number * 10 + digit, ..self },
                }
            }
        } else if 'a' <= c <= 'z' || 'A' <= c <= 'Z' || c == '\u{b5}' {
            SpanScan { unit: self.unit.push(c), ..self }
        } else if self.unit.len() > 0 {
            self.next(0)
        } else if c == '.' && self.fraction is None {
            SpanScan { fraction: Some(Fraction { digits: 0, places: 0 }), ..self }
        } else {
            self
        }
    }
}

/// What was read of a text.
pub open spec fn scanned(text: Seq<char>) -> SpanScan
    decreases text.len(),
{
    if text.len() == 0 {
        SpanScan { total: 0, number: 0, fraction: None, unit: Seq::empty() }
    } else {
        scanned(text.drop_last()).read(text.last())
    }
}

/// The nanoseconds that the spans of a text come to.
pub open spec fn span_total(text: Seq<char>) -> nat {
    scanned(text).finished()
}

proof fn lemma_total_grows(text: Seq<char>, i: int)
    requires
        0 <= i <= text.len(),
    ensures
        scanned(text.take(i)).total <= scanned(text).total,
    decreases text.len(),
{
    if i == text.len() {
        assert(text.take(i) =~= text);
    } else {
        let front = text.drop_last();
        assert(front.take(i) =~= text.take(i));
        lemma_total_grows(front, i);
        lemma_finished(scanned(front));
    }
}

proof fn lemma_finished(scan: SpanScan)
    ensures
        scan.total + scan.number * unit_nanos(scan.unit) <= scan.finished(),
        scan.total <= scan.finished(),
{
    let unit = unit_nanos(scan.unit);
    assert(0 <= scan.number * unit) by (nonlinear_arith);
    if let Some(f) = scan.fraction {
        lemma_pow10_positive(f.places);
        assert(0 <= f.digits * unit / pow10(f.places)) by (nonlinear_arith)
            requires
                pow10(f.places) >= 1,
        ;
    }
}

/// Ten to the power of the most places.
proof fn lemma_most_parts(places: nat)
    requires
        places <= MOST_PLACES,
    ensures
        1 <= pow10(places) <= 10_000_000_000_000_000_000,
{
    lemma_pow10_positive(places);
    lemma_pow10_monotone(places, 19);
    reveal_with_fuel(pow10, 20);
}

/// A fraction as it was read so far: its digits, how many they are, and ten to the
/// power of their number.
struct Places {
    digits: u128,
    places: u32,
    parts: u128,
}

impl Places {
    spec fn wf(self) -> bool {
        &&& self.places <= MOST_PLACES
        &&& self.parts == pow10(self.places as nat)
        &&& self.digits < self.parts
    }
}

spec fn fraction_of(fraction: Option<Places>) -> Option<Fraction> {
    match fraction {
        Some(f) => Some(Fraction { digits: f.digits as nat, places: f.places as nat }),
        None => None,
    }
}

/// One more place of a fraction was read.
fn read_place(f: Places, digit: u128) -> (r: Places)
    requires
        f.wf(),
        digit < 10,
    ensures
        r.wf(),
        fraction_of(Some(r)) == Some(fraction_of(Some(f))->0.read(digit as nat)),
{
    if f.places < MOST_PLACES {
        proof {
            lemma_most_parts(f.places as nat);
        }
        Places { digits: f.digits * 10 + digit, places: f.places + 1, parts: f.parts * 10 }
    } else {
        f
    }
}

/// The nanoseconds with a span of a number of units, if they are not too many.
fn finish(
    total: u128,
    number: u128,
    fraction: &Option<Places>,
    unit: &str,
    Ghost(scan): Ghost<SpanScan>,
) -> (r: Option<u128>)
    requires
        total == scan.total,
        total <= MAX_NANOS,
        number <= MAX_NANOS ==> number == scan.number,
        number > MAX_NANOS ==> scan.number > MAX_NANOS,
        fraction_of(*fraction) == scan.fraction,
        fraction matches Some(f) ==> f.wf(),
        unit@ == scan.unit,
    ensures
        match r {
            Some(n) => n == scan.finished() && n <= MAX_NANOS,
            None => scan.finished() > MAX_NANOS,
        },
{
    let size: u128 = nanos_of_unit(unit);
    proof {
        lemma_finished(scan);
    }
    if number > MAX_NANOS && size > 0 {
        assert(scan.number * size >= scan.number) by (nonlinear_arith)
            requires
                size >= 1,
                scan.number >= 0,
        ;
        return None;
    }
    let whole: u128 = if size == 0 {
        assert(scan.number * 0 == 0) by (nonlinear_arith);
        0
    } else {
        if number > MAX_NANOS / size {
            assert(number * size > MAX_NANOS) by (nonlinear_arith)
                requires
                    number >= MAX_NANOS / size + 1,
                    size >= 1,
            ;
            return None;
        }
        assert(number * size <= MAX_NANOS) by (nonlinear_arith)
            requires
                number <= MAX_NANOS / size,
                size >= 1,
        ;
        number * size
    };
    let part: u128 = match fraction {
        Some(f) => {
            proof {
                lemma_most_parts(f.places as nat);
                assert(f.digits * size <= 10_000_000_000_000_000_000 * 31_557_600_000_000_000)
                    by (nonlinear_arith)
                    requires
                        f.digits <= 10_000_000_000_000_000_000,
                        size <= 31_557_600_000_000_000,
                ;
                assert(f.digits * size / f.parts as int <= size) by (nonlinear_arith)
                    requires
                        f.digits < f.parts,
                        f.parts >= 1,
                ;
            }
            f.digits * size / f.parts
        },
        None => 0,
    };
    let sum: u128 = total + whole + part;
    if sum > MAX_NANOS {
        None
    } else {
        Some(sum)
    }
}

/// Whether the spans of a text come to no more than a `Duration` holds.
pub fn spans_fit(text: &str) -> (r: bool)
    ensures
        r == (span_total(text@) <= MAX_NANOS),
{
    let chars = chars_of(text);
    let mut total: u128 = 0;
    let mut number: u128 = 0;
    let mut fraction: Option<Places> = None;
    let mut unit = String::new();
    let mut i: usize = 0;
    while i < chars.len()
        invariant
            i <= chars@.len(),
            chars@ == text@,
            total == scanned(chars@.take(i as int)).total,
            total <= MAX_NANOS,
            number <= 10 * MAX_NANOS + 9,
            number <= MAX_NANOS ==> number == scanned(chars@.take(i as int)).number,
            number > MAX_NANOS ==> scanned(chars@.take(i as int)).number > MAX_NANOS,
            fraction_of(fraction) == scanned(chars@.take(i as int)).fraction,
            fraction matches Some(f) ==> f.wf(),
            unit@ == scanned(chars@.take(i as int)).unit,
        decreases chars.len() - i,
    {
        let c: char = chars[i];
        let ghost before = scanned(chars@.take(i as int));
        proof {
            assert(chars@.take(i + 1).drop_last() =~= chars@.take(i as int));
            assert(chars@.take(i + 1).last() == c);
            lemma_total_grows(chars@, i + 1);
            lemma_finished(scanned(chars@));
        }
        let is_digit = '0' <= c && c <= '9';
        let is_letter = 'a' <= c && c <= 'z' || 'A' <= c && c <= 'Z' || c == '\u{b5}';
        let digit: u128 = if is_digit {
            (c as u32 - 48) as u128
        } else {
            0
        };
        if is_letter {
            unit.push(c);
        } else if !unit.as_str().is_empty() {
            match finish(total, number, &fraction, unit.as_str(), Ghost(before)) {
                Some(sum) => {
                    total = sum;
                },
                None => {
                    return false;
                },
            }
            number = digit;
            fraction = None;
            unit = String::new();
            assert(unit@ =~= Seq::<char>::empty());
        } else if is_digit {
            match fraction {
                Some(f) => {
                    fraction = Some(read_place(f, digit));
                },
                None => {
                    if number <= MAX_NANOS {
                        number = number * 10 + digit;
                    }
                },
            }
        } else if c == '.' && fraction.is_none() {
            assert(pow10(0) == 1);
            fraction = Some(Places { digits: 0, places: 0, parts: 1 });
        }
        i += 1;
    }
    assert(chars@.take(i as int) =~= chars@);
    finish(total, number, &fraction, unit.as_str(), Ghost(scanned(chars@))).is_some()
}

proof fn lemma_scanned_digits(s: Seq<char>)
    requires
        forall|i: int| 0 <= i < s.len() ==> '0' <= #[trigger] s[i] <= '9',
    ensures
        scanned(s) == (SpanScan {
            total: 0,
            number: spelled(s),
            fraction: None,
            unit: Seq::empty(),
        }),
    decreases s.len(),
{
    if s.len() == 0 {
        assert(digit_values(s) =~= Seq::<u8>::empty());
    } else {
        let front = s.drop_last();
        assert forall|i: int| 0 <= i < front.len() implies '0' <= #[trigger] front[i] <= '9' by {
            assert(front[i] == s[i]);
        }
        lemma_scanned_digits(front);
        assert('0' <= s[s.len() - 1] <= '9');
        law_digits_are_decimal(front, s.last());
        assert(front.push(s.last()) =~= s);
    }
}

/// A number and a unit are so many of the unit.
pub proof fn law_spans_are_numbers_of_units(number: Seq<char>, unit: Seq<char>)
    requires
        forall|i: int| 0 <= i < number.len() ==> '0' <= #[trigger] number[i] <= '9',
        forall|i: int| 0 <= i < unit.len() ==> 'a' <= #[trigger] unit[i] <= 'z',
    ensures
        span_total(number + unit) == spelled(number) * unit_nanos(unit),
{
    lemma_scanned_unit(number, unit);
}

proof fn lemma_scanned_unit(number: Seq<char>, unit: Seq<char>)
    requires
        forall|i: int| 0 <= i < number.len() ==> '0' <= #[trigger] number[i] <= '9',
        forall|i: int| 0 <= i < unit.len() ==> 'a' <= #[trigger] unit[i] <= 'z',
    ensures
        scanned(number + unit) == (SpanScan {
            total: 0,
            number: spelled(number),
            fraction: None,
            unit,
        }),
    decreases unit.len(),
{
    if unit.len() == 0 {
        assert(number + unit =~= number);
        assert(unit =~= Seq::empty());
        lemma_scanned_digits(number);
    } else {
        let front = unit.drop_last();
        assert forall|i: int| 0 <= i < front.len() implies 'a' <= #[trigger] front[i] <= 'z' by {
            assert(front[i] == unit[i]);
        }
        lemma_scanned_unit(number, front);
        assert((number + unit).drop_last() =~= number + front);
        assert((number + unit).last() == unit[unit.len() - 1]);
        assert(front.push(unit.last()) =~= unit);
    }
}

/// A second has a thousand milliseconds, and so on down to nanoseconds; a minute has sixty
/// seconds, an hour sixty minutes, a day 24 hours and a week seven days.
pub proof fn law_units_have_their_length()
    ensures
        unit_nanos("ns"@) == 1,
        unit_nanos("us"@) == 1_000 * unit_nanos("ns"@),
        unit_nanos("ms"@) == 1_000 * unit_nanos("us"@),
        unit_nanos("s"@) == 1_000 * unit_nanos("ms"@),
        unit_nanos("m"@) == 60 * unit_nanos("s"@),
        unit_nanos("h"@) == 60 * unit_nanos("m"@),
        unit_nanos("d"@) == 24 * unit_nanos("h"@),
        unit_nanos("w"@) == 7 * unit_nanos("d"@),
{
    reveal_strlit("nanos");
    reveal_strlit("nsec");
    reveal_strlit("ns");
    reveal_strlit("usec");
    reveal_strlit("us");
    reveal_strlit("millis");
    reveal_strlit("msec");
    reveal_strlit("ms");
    reveal_strlit("seconds");
    reveal_strlit("second");
    reveal_strlit("secs");
    reveal_strlit("sec");
    reveal_strlit("s");
    reveal_strlit("minutes");
    reveal_strlit("minute");
    reveal_strlit("mins");
    reveal_strlit("min");
    reveal_strlit("m");
    reveal_strlit("hours");
    reveal_strlit("hour");
    reveal_strlit("hrs");
    reveal_strlit("hr");
    reveal_strlit("h");
    reveal_strlit("days");
    reveal_strlit("day");
    reveal_strlit("d");
    reveal_strlit("weeks");
    reveal_strlit("week");
    reveal_strlit("wks");
    reveal_strlit("wk");
    reveal_strlit("w");
    reveal_strlit("months");
    reveal_strlit("month");
    reveal_strlit("M");
    reveal_strlit("years");
    reveal_strlit("year");
    reveal_strlit("yrs");
    reveal_strlit("yr");
    reveal_strlit("y");
    reveal_strlit("\u{b5}s");
    assert("nanos"@.len() == 5 && "nsec"@.len() == 4 && "usec"@.len() == 4);
    assert("millis"@.len() == 6 && "msec"@.len() == 4 && "seconds"@.len() == 7);
    assert("second"@.len() == 6 && "secs"@.len() == 4 && "sec"@.len() == 3);
    assert("minutes"@.len() == 7 && "minute"@.len() == 6 && "mins"@.len() == 4);
    assert("min"@.len() == 3 && "hours"@.len() == 5 && "hour"@.len() == 4);
    assert("hrs"@.len() == 3 && "days"@.len() == 4 && "day"@.len() == 3);
    assert("weeks"@.len() == 5 && "week"@.len() == 4 && "wks"@.len() == 3);
    assert("ns"@[0] == 'n' && "us"@[0] == 'u' && "ms"@[0] == 'm' && "\u{b5}s"@[0] == '\u{b5}');
    assert("hr"@.len() == 2 && "wk"@.len() == 2 && "ns"@.len() == 2 && "us"@.len() == 2);
    assert("ms"@.len() == 2 && "\u{b5}s"@.len() == 2);
    assert("s"@.len() == 1 && "m"@.len() == 1 && "h"@.len() == 1 && "d"@.len() == 1);
    assert("s"@[0] == 's' && "m"@[0] == 'm' && "h"@[0] == 'h' && "d"@[0] == 'd' && "w"@[0] == 'w');
}

proof fn lemma_letters_read(t: Seq<char>, unit: Seq<char>)
    requires
        forall|i: int| 0 <= i < unit.len() ==> 'a' <= #[trigger] unit[i] <= 'z',
    ensures
        scanned(t + unit) == (SpanScan { unit: scanned(t).unit + unit, ..scanned(t) }),
    decreases unit.len(),
{
    if unit.len() == 0 {
        assert(t + unit =~= t);
        assert(scanned(t).unit + unit =~= scanned(t).unit);
    } else {
        let front = unit.drop_last();
        assert forall|i: int| 0 <= i < front.len() implies 'a' <= #[trigger] front[i] <= 'z' by {
            assert(front[i] == unit[i]);
        }
        lemma_letters_read(t, front);
        assert((t + unit).drop_last() =~= t + front);
        assert((t + unit).last() == unit[unit.len() - 1]);
        assert((scanned(t).unit + front).push(unit.last()) =~= scanned(t).unit + unit);
    }
}

proof fn lemma_digits_read(t: Seq<char>, number: Seq<char>)
    requires
        scanned(t).unit.len() > 0,
        number.len() > 0,
        forall|i: int| 0 <= i < number.len() ==> '0' <= #[trigger] number[i] <= '9',
    ensures
        scanned(t + number) == (SpanScan {
            total: scanned(t).finished(),
            number: spelled(number),
            fraction: None,
            unit: Seq::empty(),
        }),
    decreases number.len(),
{
    let front = number.drop_last();
    assert('0' <= number[number.len() - 1] <= '9');
    assert forall|i: int| 0 <= i < front.len() implies '0' <= #[trigger] front[i] <= '9' by {
        assert(front[i] == number[i]);
    }
    law_digits_are_decimal(front, number.last());
    assert(front.push(number.last()) =~= number);
    assert((t + number).drop_last() =~= t + front);
    assert((t + number).last() == number.last());
    if front.len() == 0 {
        assert(t + front =~= t);
        assert(digit_values(front) =~= Seq::<u8>::empty());
    } else {
        lemma_digits_read(t, front);
    }
}

proof fn lemma_places_read(t: Seq<char>, places: Seq<char>)
    requires
        scanned(t).unit.len() == 0,
        scanned(t).fraction == Some(Fraction { digits: 0, places: 0 }),
        places.len() <= 19,
        forall|i: int| 0 <= i < places.len() ==> '0' <= #[trigger] places[i] <= '9',
    ensures
        scanned(t + places) == (SpanScan {
            fraction: Some(Fraction { digits: spelled(places), places: places.len() }),
            ..scanned(t)
        }),
    decreases places.len(),
{
    if places.len() == 0 {
        assert(t + places =~= t);
        assert(digit_values(places) =~= Seq::<u8>::empty());
    } else {
        let front = places.drop_last();
        assert('0' <= places[places.len() - 1] <= '9');
        assert forall|i: int| 0 <= i < front.len() implies '0' <= #[trigger] front[i] <= '9' by {
            assert(front[i] == places[i]);
        }
        lemma_places_read(t, front);
        law_digits_are_decimal(front, places.last());
        assert(front.push(places.last()) =~= places);
        assert((t + places).drop_last() =~= t + front);
        assert((t + places).last() == places.last());
    }
}

/// A span behind others is added to them.
pub proof fn law_spans_add_up(t: Seq<char>, number: Seq<char>, unit: Seq<char>)
    requires
        t.len() > 0 && 'a' <= t.last() <= 'z',
        number.len() > 0,
        forall|i: int| 0 <= i < number.len() ==> '0' <= #[trigger] number[i] <= '9',
        forall|i: int| 0 <= i < unit.len() ==> 'a' <= #[trigger] unit[i] <= 'z',
    ensures
        span_total(t + number + unit) == span_total(t) + spelled(number) * unit_nanos(unit),
        span_total(t.push(' ') + number + unit) == span_total(t) + spelled(number) * unit_nanos(
            unit,
        ),
{
    assert(scanned(t).unit.len() > 0);
    lemma_digits_read(t, number);
    lemma_letters_read(t + number, unit);
    assert(Seq::<char>::empty() + unit =~= unit);
    let spaced = t.push(' ');
    assert(spaced.drop_last() =~= t);
    assert(scanned(spaced) == scanned(t).next(0));
    lemma_number_read(spaced, number);
    lemma_letters_read(spaced + number, unit);
}

proof fn lemma_number_read(t: Seq<char>, number: Seq<char>)
    requires
        scanned(t).unit.len() == 0,
        scanned(t).fraction is None,
        scanned(t).number == 0,
        forall|i: int| 0 <= i < number.len() ==> '0' <= #[trigger] number[i] <= '9',
    ensures
        scanned(t + number) == (SpanScan { number: spelled(number), ..scanned(t) }),
    decreases number.len(),
{
    if number.len() == 0 {
        assert(t + number =~= t);
        assert(digit_values(number) =~= Seq::<u8>::empty());
    } else {
        let front = number.drop_last();
        assert('0' <= number[number.len() - 1] <= '9');
        assert forall|i: int| 0 <= i < front.len() implies '0' <= #[trigger] front[i] <= '9' by {
            assert(front[i] == number[i]);
        }
        lemma_number_read(t, front);
        law_digits_are_decimal(front, number.last());
        assert(front.push(number.last()) =~= number);
        assert((t + number).drop_last() =~= t + front);
        assert((t + number).last() == number.last());
    }
}

/// A number with up to 19 decimal places is so much of its unit, down to a nanosecond.
pub proof fn law_parts_of_units_count(number: Seq<char>, places: Seq<char>, unit: Seq<char>)
    requires
        places.len() <= 19,
        forall|i: int| 0 <= i < number.len() ==> '0' <= #[trigger] number[i] <= '9',
        forall|i: int| 0 <= i < places.len() ==> '0' <= #[trigger] places[i] <= '9',
        forall|i: int| 0 <= i < unit.len() ==> 'a' <= #[trigger] unit[i] <= 'z',
    ensures
        span_total(number.push('.') + places + unit) == spelled(number) * unit_nanos(unit)
            + spelled(places) * unit_nanos(unit) / pow10(places.len()),
{
    lemma_scanned_digits(number);
    let t = number.push('.');
    assert(t.drop_last() =~= number);
    lemma_places_read(t, places);
    lemma_letters_read(t + places, unit);
    assert(Seq::<char>::empty() + unit =~= unit);
}

} // verus!
