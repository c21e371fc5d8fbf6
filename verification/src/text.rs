//! Text as a sequence of characters: searching, cutting and building.

use vstd::prelude::*;
use vstd::utf8::{decode_utf8, valid_utf8};

verus! {

/// `String::push`: appends one character to the end of the string.
pub assume_specification[ String::push ](s: &mut String, c: char)
    ensures
        final(s)@ == old(s)@.push(c),
;

/// How the error of `String::from_utf8` reads for bytes that are not UTF-8.
pub uninterp spec fn utf8_error(bytes: Seq<u8>) -> Seq<char>;

/// `String::from_utf8`: succeeds exactly on well-formed UTF-8, and then holds
/// the characters that the bytes encode. The text of its error depends on the
/// bytes alone.
#[verifier::external_body]
pub(crate) fn string_from_utf8(bytes: Vec<u8>) -> (r: Result<String, String>)
    ensures
        r is Ok <==> valid_utf8(bytes@),
        r matches Ok(s) ==> s@ == decode_utf8(bytes@),
        r matches Err(e) ==> e@ == utf8_error(bytes@),
{
    String::from_utf8(bytes).map_err(|e| e.to_string())
}

/// The index of the first `c` in `s`, or the length of `s` if there is none.
pub open spec fn position(s: Seq<char>, c: char) -> int
    decreases s.len(),
{
    if s.len() == 0 || s[0] == c {
        0
    } else {
        1 + position(s.skip(1), c)
    }
}

pub proof fn lemma_position(s: Seq<char>, c: char)
    ensures
        0 <= position(s, c) <= s.len(),
        position(s, c) < s.len() ==> s[position(s, c)] == c,
        forall|j: int| 0 <= j < position(s, c) ==> s[j] != c,
    decreases s.len(),
{
    if s.len() == 0 || s[0] == c {
    } else {
        lemma_position(s.skip(1), c);
        assert forall|j: int| 0 <= j < position(s, c) implies s[j] != c by {
            if j > 0 {
                assert(s.skip(1)[j - 1] == s[j]);
            }
        }
    }
}

/// The first index at which `c` stands is `position(s, c)`.
pub proof fn lemma_position_is(s: Seq<char>, c: char, i: int)
    requires
        0 <= i <= s.len(),
        i < s.len() ==> s[i] == c,
        forall|j: int| 0 <= j < i ==> s[j] != c,
    ensures
        position(s, c) == i,
{
    lemma_position(s, c);
    let p = position(s, c);
    if p < i {
        assert(s[p] != c);
    } else if i < p {
        assert(s[i] != c);
    }
}

/// The characters of a string slice.
pub fn chars_of(s: &str) -> (r: Vec<char>)
    ensures
        r@ == s@,
{
    let mut out: Vec<char> = Vec::new();
    for c in it: s.chars()
        invariant
            out@ == s@.take(it.index()),
            it.seq() == s@,
    {
        out.push(c);
        assert(s@.take(it.index() + 1) == s@.take(it.index() as int).push(s@[it.index() as int]));
    }
    out
}

/// A string made of the given characters.
pub fn string_of(chars: &[char]) -> (r: String)
    ensures
        r@ == chars@,
{
    let mut out = String::new();
    let mut i: usize = 0;
    while i < chars.len()
        invariant
            i <= chars.len(),
            out@ == chars@.take(i as int),
        decreases chars.len() - i,
    {
        out.push(chars[i]);
        assert(chars@.take(i + 1) == chars@.take(i as int).push(chars@[i as int]));
        i += 1;
    }
    assert(chars@.take(i as int) == chars@);
    out
}

/// `String::push_str`: appends a string slice to the end of the string.
pub assume_specification[ String::push_str ](s: &mut String, tail: &str)
    ensures
        final(s)@ == old(s)@ + tail@,
;

/// The index of the first `c`, or the length if there is none.
pub fn find(chars: &[char], c: char) -> (r: usize)
    ensures
        r == position(chars@, c),
        r <= chars@.len(),
        r < chars@.len() ==> chars@[r as int] == c,
{
    let mut i: usize = 0;
    while i < chars.len() && chars[i] != c
        invariant
            i <= chars.len(),
            forall|j: int| 0 <= j < i ==> chars@[j] != c,
        decreases chars.len() - i,
    {
        i += 1;
    }
    proof {
        lemma_position_is(chars@, c, i as int);
    }
    i
}

/// The characters from index `from` up to index `to`.
pub fn cut(chars: &[char], from: usize, to: usize) -> (r: Vec<char>)
    requires
        from <= to <= chars@.len(),
    ensures
        r@ == chars@.subrange(from as int, to as int),
{
    let mut out: Vec<char> = Vec::new();
    let mut i: usize = from;
    while i < to
        invariant
            from <= i <= to <= chars@.len(),
            out@ == chars@.subrange(from as int, i as int),
        decreases to - i,
    {
        out.push(chars[i]);
        i += 1;
        assert(out@ == chars@.subrange(from as int, i as int));
    }
    out
}

/// Whether the characters spell `word`.
pub fn spells(chars: &[char], word: &str) -> (r: bool)
    ensures
        r == (chars@ == word@),
{
    let letters = chars_of(word);
    if chars.len() != letters.len() {
        return false;
    }
    let mut i: usize = 0;
    while i < chars.len()
        invariant
            i <= chars.len(),
            chars.len() == letters.len(),
            letters@ == word@,
            forall|j: int| 0 <= j < i ==> chars@[j] == letters@[j],
        decreases chars.len() - i,
    {
        if chars[i] != letters[i] {
            assert(chars@[i as int] != letters@[i as int]);
            return false;
        }
        i += 1;
    }
    assert(chars@ == word@);
    true
}

/// Whether two string slices hold the same characters.
pub fn same_text(a: &str, b: &str) -> (r: bool)
    ensures
        r == (a@ == b@),
{
    let chars = chars_of(a);
    spells(&chars, b)
}

/// `s` begins with `prefix`.
pub open spec fn begins_with(s: Seq<char>, prefix: Seq<char>) -> bool {
    prefix.len() <= s.len() && s.take(prefix.len() as int) == prefix
}

/// `s` ends with `suffix`.
pub open spec fn finishes_with(s: Seq<char>, suffix: Seq<char>) -> bool {
    suffix.len() <= s.len() && s.skip(s.len() - suffix.len()) == suffix
}

/// What follows `prefix` in the characters, if they begin with it.
pub fn after_prefix(chars: &[char], prefix: &str) -> (r: Option<Vec<char>>)
    ensures
        match r {
            Some(rest) => begins_with(chars@, prefix@) && rest@ == chars@.skip(prefix@.len() as int),
            None => !begins_with(chars@, prefix@),
        },
{
    let letters = chars_of(prefix);
    if letters.len() > chars.len() {
        return None;
    }
    let head = cut(chars, 0, letters.len());
    if spells(&head, prefix) {
        let rest = cut(chars, letters.len(), chars.len());
        assert(rest@ == chars@.skip(prefix@.len() as int));
        Some(rest)
    } else {
        None
    }
}

/// What precedes `suffix` in the characters, if they end with it.
pub fn before_suffix(chars: &[char], suffix: &str) -> (r: Option<Vec<char>>)
    ensures
        match r {
            Some(rest) => finishes_with(chars@, suffix@) && rest@ == chars@.take(
                chars@.len() - suffix@.len(),
            ),
            None => !finishes_with(chars@, suffix@),
        },
{
    let letters = chars_of(suffix);
    if letters.len() > chars.len() {
        return None;
    }
    let at: usize = chars.len() - letters.len();
    let tail = cut(chars, at, chars.len());
    assert(tail@ == chars@.skip(at as int));
    if spells(&tail, suffix) {
        let rest = cut(chars, 0, at);
        Some(rest)
    } else {
        None
    }
}

/// The pieces of `s` between the occurrences of `c`, in order.
pub open spec fn split_on(s: Seq<char>, c: char) -> Seq<Seq<char>>
    decreases s.len(),
    via split_on_decreases
{
    let p = position(s, c);
    if p >= s.len() {
        seq![s]
    } else {
        seq![s.take(p)] + split_on(s.skip(p + 1), c)
    }
}

#[via_fn]
proof fn split_on_decreases(s: Seq<char>, c: char) {
    lemma_position(s, c);
}

/// The pieces as sequences of characters.
pub open spec fn views(pieces: Seq<Vec<char>>) -> Seq<Seq<char>> {
    Seq::new(pieces.len(), |i: int| pieces[i]@)
}

/// Splits the characters at every `c`.
pub fn split(chars: &[char], c: char) -> (r: Vec<Vec<char>>)
    ensures
        views(r@) == split_on(chars@, c),
        r@.len() >= 1,
{
    let mut out: Vec<Vec<char>> = Vec::new();
    let mut rest: Vec<char> = cut(chars, 0, chars.len());
    assert(rest@ == chars@);
    assert(views(out@) + split_on(rest@, c) =~= split_on(chars@, c));
    loop
        invariant
            views(out@) + split_on(rest@, c) == split_on(chars@, c),
        decreases rest@.len(),
    {
        let p: usize = find(&rest, c);
        if p >= rest.len() {
            out.push(rest);
            proof {
                assert(views(out@) =~= split_on(chars@, c));
            }
            return out;
        }
        let head = cut(&rest, 0, p);
        let tail = cut(&rest, p + 1, rest.len());
        assert(head@ == rest@.take(p as int));
        assert(tail@ == rest@.skip(p + 1));
        let ghost before = out@;
        out.push(head);
        assert(views(out@) =~= views(before).push(head@));
        assert(views(out@) + split_on(tail@, c) =~= views(before) + split_on(rest@, c));
        rest = tail;
    }
}

/// The character of a decimal digit.
pub open spec fn digit_char(d: nat) -> char {
    (48 + d) as char
}

/// A number written in decimal digits.
pub open spec fn numeral(n: nat) -> Seq<char>
    decreases n,
{
    if n < 10 {
        seq![digit_char(n)]
    } else {
        numeral(n / 10).push(digit_char(n % 10))
    }
}

/// Writes a number in decimal digits.
pub fn numeral_text(n: u128) -> (r: String)
    ensures
        r@ == numeral(n as nat),
    decreases n,
{
    if n < 10 {
        let mut out = String::new();
        out.push((48 + n as u8) as char);
        assert(out@ =~= numeral(n as nat));
        out
    } else {
        let mut out = numeral_text(n / 10);
        out.push((48 + (n % 10) as u8) as char);
        out
    }
}

/// The characters that Unicode calls white space.
pub open spec fn space(c: char) -> bool {
    let n = c as u32;
    9 <= n <= 13 || n == 0x20 || n == 0x85 || n == 0xa0 || n == 0x1680 || 0x2000 <= n <= 0x200a
        || n == 0x2028 || n == 0x2029 || n == 0x202f || n == 0x205f || n == 0x3000
}

/// Whether a character is white space.
pub fn is_space(c: char) -> (r: bool)
    ensures
        r == space(c),
{
    let n: u32 = c as u32;
    9 <= n && n <= 13 || n == 0x20 || n == 0x85 || n == 0xa0 || n == 0x1680 || 0x2000 <= n && n
        <= 0x200a || n == 0x2028 || n == 0x2029 || n == 0x202f || n == 0x205f || n == 0x3000
}

/// The text without the white space at its two ends.
pub open spec fn trimmed(s: Seq<char>) -> Seq<char>
    decreases s.len(),
{
    if s.len() == 0 {
        s
    } else if space(s[0]) {
        trimmed(s.skip(1))
    } else if space(s.last()) {
        trimmed(s.drop_last())
    } else {
        s
    }
}

/// Cuts the white space off the two ends.
pub fn trim(chars: &[char]) -> (r: Vec<char>)
    ensures
        r@ == trimmed(chars@),
{
    let mut lo: usize = 0;
    let mut hi: usize = chars.len();
    assert(chars@.subrange(0, hi as int) =~= chars@);
    while lo < hi && is_space(chars[lo])
        invariant
            lo <= hi == chars@.len(),
            trimmed(chars@.subrange(lo as int, hi as int)) == trimmed(chars@),
        decreases hi - lo,
    {
        assert(chars@.subrange(lo as int, hi as int).skip(1) =~= chars@.subrange(
            lo + 1,
            hi as int,
        ));
        lo += 1;
    }
    while lo < hi && is_space(chars[hi - 1])
        invariant
            lo <= hi <= chars@.len(),
            lo < hi ==> !space(chars@[lo as int]),
            trimmed(chars@.subrange(lo as int, hi as int)) == trimmed(chars@),
        decreases hi - lo,
    {
        assert(chars@.subrange(lo as int, hi as int).drop_last() =~= chars@.subrange(
            lo as int,
            hi - 1,
        ));
        hi -= 1;
    }
    cut(chars, lo, hi)
}

/// Every occurrence of `pattern`, from the left and without overlap, replaced.
pub open spec fn replaced(s: Seq<char>, pattern: Seq<char>, with: Seq<char>) -> Seq<char>
    decreases s.len(),
{
    if s.len() == 0 || pattern.len() == 0 {
        s
    } else if begins_with(s, pattern) {
        with + replaced(s.skip(pattern.len() as int), pattern, with)
    } else {
        seq![s[0]] + replaced(s.skip(1), pattern, with)
    }
}

/// `pattern` occurs in `s`.
pub open spec fn occurs(s: Seq<char>, pattern: Seq<char>) -> bool {
    exists|i: int| 0 <= i <= s.len() && begins_with(#[trigger] s.skip(i), pattern)
}

/// Whether the characters from index `at` on begin with `pattern`.
fn stands_at(chars: &[char], at: usize, pattern: &[char]) -> (r: bool)
    requires
        at <= chars@.len(),
    ensures
        r == begins_with(chars@.skip(at as int), pattern@),
{
    if pattern.len() > chars.len() - at {
        return false;
    }
    let mut i: usize = 0;
    while i < pattern.len()
        invariant
            i <= pattern@.len(),
            at + pattern@.len() <= chars.len(),
            forall|j: int| 0 <= j < i ==> chars@[at + j] == pattern@[j],
        decreases pattern.len() - i,
    {
        if chars[at + i] != pattern[i] {
            assert(chars@.skip(at as int).take(pattern@.len() as int)[i as int] != pattern@[i as int]);
            return false;
        }
        i += 1;
    }
    assert(chars@.skip(at as int).take(pattern@.len() as int) =~= pattern@);
    true
}

/// Whether `pattern` occurs in the characters.
pub fn contains(chars: &[char], pattern: &str) -> (r: bool)
    ensures
        r == occurs(chars@, pattern@),
{
    let letters = chars_of(pattern);
    let mut i: usize = 0;
    while i <= chars.len()
        invariant
            i <= chars@.len() + 1,
            letters@ == pattern@,
            forall|j: int| 0 <= j < i ==> !begins_with(#[trigger] chars@.skip(j), pattern@),
        decreases chars.len() + 1 - i,
    {
        if stands_at(chars, i, &letters) {
            return true;
        }
        if i == chars.len() {
            return false;
        }
        i += 1;
    }
    false
}

/// Replaces every occurrence of a pattern.
pub fn replace(chars: &[char], pattern: &str, with: &[char]) -> (r: Vec<char>)
    ensures
        r@ == replaced(chars@, pattern@, with@),
{
    let letters = chars_of(pattern);
    if letters.len() == 0 {
        return cut(chars, 0, chars.len());
    }
    let mut out: Vec<char> = Vec::new();
    let mut i: usize = 0;
    assert(chars@.skip(0) =~= chars@);
    assert(out@ + replaced(chars@, pattern@, with@) =~= replaced(chars@, pattern@, with@));
    while i < chars.len()
        invariant
            i <= chars@.len(),
            letters@ == pattern@,
            letters@.len() > 0,
            out@ + replaced(chars@.skip(i as int), pattern@, with@) == replaced(
                chars@,
                pattern@,
                with@,
            ),
        decreases chars.len() - i,
    {
        let ghost before = out@;
        let ghost rest = chars@.skip(i as int);
        if stands_at(chars, i, &letters) {
            let mut k: usize = 0;
            while k < with.len()
                invariant
                    k <= with@.len(),
                    out@ == before + with@.take(k as int),
                decreases with.len() - k,
            {
                out.push(with[k]);
                k += 1;
                assert(out@ =~= before + with@.take(k as int));
            }
            assert(with@.take(k as int) =~= with@);
            i += letters.len();
            assert(chars@.skip(i as int) =~= rest.skip(pattern@.len() as int));
            assert(out@ + replaced(chars@.skip(i as int), pattern@, with@) =~= before + replaced(
                rest,
                pattern@,
                with@,
            ));
        } else {
            out.push(chars[i]);
            i += 1;
            assert(chars@.skip(i as int) =~= rest.skip(1));
            assert(out@ + replaced(chars@.skip(i as int), pattern@, with@) =~= before + replaced(
                rest,
                pattern@,
                with@,
            ));
        }
    }
    assert(chars@.skip(i as int) =~= Seq::<char>::empty());
    assert(out@ =~= replaced(chars@, pattern@, with@));
    out
}

/// What Rust's `Debug` formatting writes of a text: quoted and escaped.
pub uninterp spec fn debug_text(text: Seq<char>) -> Seq<char>;

/// `format!` of a string slice with `Debug` formatting.
#[verifier::external_body]
pub(crate) fn debug_of(text: &str) -> (r: String)
    ensures
        r@ == debug_text(text@),
{
    format!("{text:?}")
}

/// The order of texts: by their first difference, and shorter ones first.
pub open spec fn before(a: Seq<char>, b: Seq<char>) -> bool
    decreases a.len(),
{
    if b.len() == 0 {
        false
    } else if a.len() == 0 {
        true
    } else if a[0] != b[0] {
        (a[0] as u32) < (b[0] as u32)
    } else {
        before(a.skip(1), b.skip(1))
    }
}

/// A text before another is before all that the other is before, and none is
/// before itself.
pub proof fn law_text_order(a: Seq<char>, b: Seq<char>, c: Seq<char>)
    ensures
        before(a, b) && before(b, c) ==> before(a, c),
        !before(a, a),
        !before(b, b),
        !before(c, c),
    decreases a.len() + b.len() + c.len(),
{
    if a.len() > 0 && b.len() > 0 && c.len() > 0 {
        law_text_order(a.skip(1), b.skip(1), c.skip(1));
    } else {
        if a.len() > 0 {
            law_text_order(a.skip(1), Seq::empty(), Seq::empty());
        }
        if b.len() > 0 {
            law_text_order(b.skip(1), Seq::empty(), Seq::empty());
        }
        if c.len() > 0 {
            law_text_order(c.skip(1), Seq::empty(), Seq::empty());
        }
    }
}

/// Whether one text comes before another.
pub fn precedes(a: &str, b: &str) -> (r: bool)
    ensures
        r == before(a@, b@),
{
    let x = chars_of(a);
    let y = chars_of(b);
    let mut i: usize = 0;
    assert(x@.skip(0) =~= x@);
    assert(y@.skip(0) =~= y@);
    while i < x.len() && i < y.len() && x[i] == y[i]
        invariant
            i <= x@.len(),
            i <= y@.len(),
            before(x@.skip(i as int), y@.skip(i as int)) == before(x@, y@),
        decreases x.len() - i,
    {
        assert(x@.skip(i as int).skip(1) =~= x@.skip(i + 1));
        assert(y@.skip(i as int).skip(1) =~= y@.skip(i + 1));
        i += 1;
    }
    if i >= y.len() {
        false
    } else if i >= x.len() {
        true
    } else {
        (x[i] as u32) < (y[i] as u32)
    }
}

/// The first mark is where a text is split: what stands before it, without the mark,
/// is the first piece, and what stands behind it is split on.
pub proof fn law_the_first_mark_splits(head: Seq<char>, c: char, tail: Seq<char>)
    requires
        !head.contains(c),
    ensures
        position(head.push(c) + tail, c) == head.len(),
        position(head, c) == head.len(),
        split_on(head.push(c) + tail, c) == seq![head] + split_on(tail, c),
        split_on(head, c) == seq![head],
{
    let s = head.push(c) + tail;
    assert forall|j: int| 0 <= j < head.len() implies head[j] != c by {
        if head[j] == c {
            assert(head.contains(c));
        }
    }
    lemma_position_is(s, c, head.len() as int);
    lemma_position_is(head, c, head.len() as int);
    assert(s.take(head.len() as int) =~= head);
    assert(s.skip(head.len() as int + 1) =~= tail);
}

/// A text without spaces at its ends stays as it is, and spaces at the ends are cut
/// off, whatever they enclose.
pub proof fn law_trimming_cuts_the_ends(s: Seq<char>, c: char)
    requires
        c == ' ' || c == '\t' || c == '\n' || c == '\r',
    ensures
        trimmed(seq![c] + s) == trimmed(s),
        trimmed(s.push(c)) == trimmed(s),
        s.len() > 0 && 33 <= s[0] as u32 <= 126 && 33 <= s.last() as u32 <= 126 ==> trimmed(s) == s,
        trimmed(s).len() > 0 ==> !space(trimmed(s)[0]) && !space(trimmed(s).last()),
    decreases s.len(),
{
    assert((seq![c] + s).skip(1) =~= s);
    assert(s.push(c).drop_last() =~= s);
    if s.len() > 0 {
        if space(s[0]) {
            law_trimming_cuts_the_ends(s.skip(1), c);
            assert(s.push(c).skip(1) =~= s.skip(1).push(c));
        } else if space(s.last()) {
            law_trimming_cuts_the_ends(s.drop_last(), c);
        }
    } else {
        assert(s.push(c).skip(1) =~= s);
        assert(s =~= Seq::empty());
    }
}

/// Where a text does not hold the pattern, nothing is replaced.
pub proof fn law_nothing_is_replaced_without_the_pattern(
    s: Seq<char>,
    pattern: Seq<char>,
    with: Seq<char>,
)
    requires
        forall|i: int|
            0 <= i <= s.len() - pattern.len() ==> #[trigger] s.subrange(i, i + pattern.len())
                != pattern,
        pattern.len() > 0,
    ensures
        replaced(s, pattern, with) == s,
        !occurs(s, pattern),
    decreases s.len(),
{
    if s.len() > 0 {
        if begins_with(s, pattern) {
            assert(s.subrange(0, 0int + pattern.len()) =~= s.take(pattern.len() as int));
        }
        let rest = s.skip(1);
        assert forall|i: int| 0 <= i <= rest.len() - pattern.len() implies #[trigger] rest.subrange(
            i,
            i + pattern.len(),
        ) != pattern by {
            assert(rest.subrange(i, i + pattern.len()) =~= s.subrange(i + 1, i + 1 + pattern.len()));
        }
        law_nothing_is_replaced_without_the_pattern(rest, pattern, with);
        assert(seq![s[0]] + rest =~= s);
    }
    if occurs(s, pattern) {
        let i = choose|i: int| 0 <= i <= s.len() && begins_with(#[trigger] s.skip(i), pattern);
        assert(s.skip(i).take(pattern.len() as int) =~= s.subrange(i, i + pattern.len()));
    }
}

/// The first place where a text holds the pattern is replaced, and the text behind it
/// is gone through in the same way.
pub proof fn law_the_pattern_is_replaced(
    head: Seq<char>,
    pattern: Seq<char>,
    tail: Seq<char>,
    with: Seq<char>,
)
    requires
        pattern.len() > 0,
        forall|i: int|
            0 <= i < head.len() ==> !begins_with(
                #[trigger] (head + pattern + tail).skip(i),
                pattern,
            ),
    ensures
        replaced(head + pattern + tail, pattern, with) == head + with + replaced(
            tail,
            pattern,
            with,
        ),
        occurs(head + pattern + tail, pattern),
    decreases head.len(),
{
    let s = head + pattern + tail;
    assert(s.skip(head.len() as int).take(pattern.len() as int) =~= pattern);
    assert(begins_with(s.skip(head.len() as int), pattern));
    if head.len() == 0 {
        assert(s.skip(0) =~= s);
        assert(s.skip(pattern.len() as int) =~= tail);
        assert(with + replaced(tail, pattern, with) =~= head + with + replaced(tail, pattern, with));
    } else {
        let rest = head.skip(1);
        assert(s.skip(1) =~= rest + pattern + tail);
        assert(!begins_with(s.skip(0), pattern));
        assert(s.skip(0) =~= s);
        assert forall|i: int| 0 <= i < rest.len() implies !begins_with(
            #[trigger] (rest + pattern + tail).skip(i),
            pattern,
        ) by {
            assert((rest + pattern + tail).skip(i) =~= s.skip(i + 1));
        }
        law_the_pattern_is_replaced(rest, pattern, tail, with);
        assert(seq![s[0]] + (rest + with + replaced(tail, pattern, with)) =~= head + with + replaced(
            tail,
            pattern,
            with,
        ));
    }
}

/// The numeral of a number holds its digits: the last one is what is left by ten, and
/// those before it are the numeral of the rest.
pub proof fn law_numerals_are_decimal(n: nat, d: nat)
    requires
        d < 10,
    ensures
        n > 0 ==> numeral(10 * n + d) == numeral(n).push((48 + d) as char),
        numeral(d) == seq![(48 + d) as char],
        numeral(0) == seq!['0'],
{
    if n > 0 {
        assert((10 * n + d) / 10 == n);
        assert((10 * n + d) % 10 == d);
    }
}

} // verus!
