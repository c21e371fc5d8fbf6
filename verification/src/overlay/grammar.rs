//! How overlay text is cut into its parts.

use vstd::prelude::*;
use crate::overlay::polyline::PolylineError;
use crate::text::{
    cut, find, law_the_first_mark_splits, lemma_position, position, split, split_on, views,
};

verus! {

/// How much a character changes the depth of nesting.
pub open spec fn nesting(c: char) -> int {
    if c == '(' {
        1
    } else if c == ')' {
        -1
    } else {
        0
    }
}

/// The number of parentheses open after the first `n` characters.
pub open spec fn depth_at(s: Seq<char>, n: int) -> int
    decreases n,
{
    if n <= 0 {
        0
    } else {
        depth_at(s, n - 1) + nesting(s[n - 1])
    }
}

/// Every parenthesis has its counterpart.
pub open spec fn nested(s: Seq<char>) -> bool {
    &&& forall|n: int| 0 <= n <= s.len() ==> #[trigger] depth_at(s, n) >= 0
    &&& depth_at(s, s.len() as int) == 0
}

/// A comma outside all parentheses.
pub open spec fn separates(s: Seq<char>, i: int) -> bool {
    s[i] == ',' && depth_at(s, i) == 0
}

/// The parts from `start` on, cut at the separating commas from `i` on.
pub open spec fn parts_from(s: Seq<char>, start: int, i: int) -> Seq<Seq<char>>
    decreases s.len() - i,
{
    if i >= s.len() {
        seq![s.subrange(start, s.len() as int)]
    } else if separates(s, i) {
        seq![s.subrange(start, i)] + parts_from(s, i + 1, i + 1)
    } else {
        parts_from(s, start, i + 1)
    }
}

/// The comma-separated parts of overlay text; commas inside parentheses do not
/// separate. Text with unbalanced parentheses has none.
pub open spec fn overlay_parts(s: Seq<char>) -> Option<Seq<Seq<char>>> {
    if nested(s) {
        Some(parts_from(s, 0, 0))
    } else {
        None
    }
}

/// The parts with a comma between each two.
pub open spec fn joined(parts: Seq<Seq<char>>) -> Seq<char>
    decreases parts.len(),
{
    if parts.len() == 0 {
        Seq::empty()
    } else if parts.len() == 1 {
        parts[0]
    } else {
        parts[0] + seq![','] + joined(parts.skip(1))
    }
}

proof fn lemma_parts_join(s: Seq<char>, start: int, i: int)
    requires
        0 <= start <= i <= s.len(),
    ensures
        parts_from(s, start, i).len() >= 1,
        joined(parts_from(s, start, i)) == s.subrange(start, s.len() as int),
    decreases s.len() - i,
{
    if i >= s.len() {
    } else if separates(s, i) {
        lemma_parts_join(s, i + 1, i + 1);
        let parts = parts_from(s, start, i);
        assert(parts.skip(1) =~= parts_from(s, i + 1, i + 1));
        assert(s.subrange(start, i) + seq![','] + s.subrange(i + 1, s.len() as int)
            =~= s.subrange(start, s.len() as int));
    } else {
        lemma_parts_join(s, start, i + 1);
    }
}

/// Cutting overlay text into parts loses nothing: joined with commas they are
/// the text again.
pub proof fn law_parts_join_to_the_text(s: Seq<char>)
    requires
        nested(s),
    ensures
        overlay_parts(s) matches Some(parts) && joined(parts) == s,
{
    lemma_parts_join(s, 0, 0);
    assert(s.subrange(0, s.len() as int) =~= s);
}

/// Cuts overlay text at the commas outside parentheses.
pub fn split_overlays(overlay: &[char]) -> (r: Result<Vec<Vec<char>>, PolylineError>)
    ensures
        match r {
            Ok(parts) => overlay_parts(overlay@) == Some(views(parts@)),
            Err(e) => overlay_parts(overlay@) is None && e == PolylineError::InvalidPathSyntax,
        },
{
    let mut parts: Vec<Vec<char>> = Vec::new();
    let mut depth: usize = 0;
    let mut start: usize = 0;
    let mut i: usize = 0;
    let ghost whole = parts_from(overlay@, 0, 0);
    assert(views(parts@) + parts_from(overlay@, 0, 0) =~= whole);
    while i < overlay.len()
        invariant
            start <= i <= overlay@.len(),
            depth == depth_at(overlay@, i as int),
            depth <= i,
            forall|n: int| 0 <= n <= i ==> #[trigger] depth_at(overlay@, n) >= 0,
            whole == parts_from(overlay@, 0, 0),
            views(parts@) + parts_from(overlay@, start as int, i as int) == whole,
        decreases overlay.len() - i,
    {
        let c: char = overlay[i];
        assert(depth_at(overlay@, i + 1) == depth + nesting(c));
        if c == '(' {
            depth = depth + 1;
        } else if c == ')' {
            if depth == 0 {
                assert(depth_at(overlay@, i + 1) < 0);
                return Err(PolylineError::InvalidPathSyntax);
            }
            depth = depth - 1;
        } else if c == ',' && depth == 0 {
            let part = cut(overlay, start, i);
            let ghost before = parts@;
            parts.push(part);
            proof {
                assert(views(parts@) =~= views(before).push(part@));
                assert(views(parts@) + parts_from(overlay@, i + 1, i + 1) =~= views(before)
                    + parts_from(overlay@, start as int, i as int));
            }
            start = i + 1;
        }
        i += 1;
    }
    if depth != 0 {
        return Err(PolylineError::InvalidPathSyntax);
    }
    let last = cut(overlay, start, overlay.len());
    let ghost before = parts@;
    parts.push(last);
    proof {
        assert(views(parts@) =~= views(before).push(last@));
        assert(views(parts@) =~= whole);
    }
    Ok(parts)
}

/// What stands before and behind the first `c`.
pub open spec fn once(s: Seq<char>, c: char) -> Option<(Seq<char>, Seq<char>)> {
    let p = position(s, c);
    if p < s.len() {
        Some((s.take(p), s.skip(p + 1)))
    } else {
        None
    }
}

/// Splits at the first `c`.
pub fn split_once(chars: &[char], c: char) -> (r: Option<(Vec<char>, Vec<char>)>)
    ensures
        match r {
            Some((head, tail)) => once(chars@, c) == Some((head@, tail@)),
            None => once(chars@, c) is None,
        },
{
    let p: usize = find(chars, c);
    if p < chars.len() {
        let head = cut(chars, 0, p);
        let tail = cut(chars, p + 1, chars.len());
        assert(head@ == chars@.take(p as int));
        assert(tail@ == chars@.skip(p + 1));
        Some((head, tail))
    } else {
        None
    }
}

/// Nothing for empty text.
pub open spec fn unless_empty(s: Seq<char>) -> Option<Seq<char>> {
    if s.len() == 0 {
        None
    } else {
        Some(s)
    }
}

/// The view of optional characters.
pub open spec fn chars_view(s: Option<Vec<char>>) -> Option<Seq<char>> {
    match s {
        Some(chars) => Some(chars@),
        None => None,
    }
}

/// What stands before the first `c`, and what stands behind it unless empty.
pub open spec fn first_optional_pair(s: Seq<char>, c: char) -> (Seq<char>, Option<Seq<char>>) {
    match once(s, c) {
        Some((head, tail)) => (head, unless_empty(tail)),
        None => (s, None),
    }
}

/// One or two pieces with `c` between them; an empty second one counts as none.
pub open spec fn optional_pair(s: Seq<char>, c: char) -> Result<
    (Seq<char>, Option<Seq<char>>),
    PolylineError,
> {
    let pieces = split_on(s, c);
    if pieces.len() > 2 {
        Err(PolylineError::InvalidPathSyntax)
    } else if pieces.len() == 2 {
        Ok((pieces[0], unless_empty(pieces[1])))
    } else {
        Ok((pieces[0], None))
    }
}

/// The same, with a first piece that is not empty.
pub open spec fn required_pair(s: Seq<char>, c: char) -> Result<
    (Seq<char>, Option<Seq<char>>),
    PolylineError,
> {
    match optional_pair(s, c) {
        Ok((first, second)) => if first.len() == 0 {
            Err(PolylineError::InvalidPathSyntax)
        } else {
            Ok((first, second))
        },
        Err(e) => Err(e),
    }
}

pub fn split_first_optional_pair(value: &[char], delimiter: char) -> (r: (
    Vec<char>,
    Option<Vec<char>>,
))
    ensures
        (r.0@, chars_view(r.1)) == first_optional_pair(value@, delimiter),
{
    match split_once(value, delimiter) {
        Some((first, second)) => {
            if second.len() == 0 {
                (first, None)
            } else {
                (first, Some(second))
            }
        },
        None => {
            let all = cut(value, 0, value.len());
            assert(all@ =~= value@);
            (all, None)
        },
    }
}

pub fn split_optional_pair(value: &[char], delimiter: char) -> (r: Result<
    (Vec<char>, Option<Vec<char>>),
    PolylineError,
>)
    ensures
        match r {
            Ok((first, second)) => optional_pair(value@, delimiter) == Ok::<_, PolylineError>(
                (first@, chars_view(second)),
            ),
            Err(e) => optional_pair(value@, delimiter) == Err::<
                (Seq<char>, Option<Seq<char>>),
                PolylineError,
            >(e),
        },
{
    let mut pieces = split(value, delimiter);
    let ghost whole = split_on(value@, delimiter);
    assert(views(pieces@).len() == whole.len());
    if pieces.len() > 2 {
        return Err(PolylineError::InvalidPathSyntax);
    }
    if pieces.len() == 2 {
        assert(views(pieces@)[1] == pieces@[1]@);
        assert(views(pieces@)[0] == pieces@[0]@);
        let second = pieces.remove(1);
        let first = pieces.remove(0);
        if second.len() == 0 {
            Ok((first, None))
        } else {
            Ok((first, Some(second)))
        }
    } else {
        assert(views(pieces@)[0] == pieces@[0]@);
        let first = pieces.remove(0);
        Ok((first, None))
    }
}

pub fn split_required_pair(value: &[char], delimiter: char) -> (r: Result<
    (Vec<char>, Option<Vec<char>>),
    PolylineError,
>)
    ensures
        match r {
            Ok((first, second)) => required_pair(value@, delimiter) == Ok::<_, PolylineError>(
                (first@, chars_view(second)),
            ),
            Err(e) => required_pair(value@, delimiter) == Err::<
                (Seq<char>, Option<Seq<char>>),
                PolylineError,
            >(e),
        },
{
    match split_optional_pair(value, delimiter) {
        Ok((first, second)) => {
            if first.len() == 0 {
                Err(PolylineError::InvalidPathSyntax)
            } else {
                Ok((first, second))
            }
        },
        Err(e) => Err(e),
    }
}

proof fn lemma_depth_agrees(s: Seq<char>, t: Seq<char>, n: int)
    requires
        0 <= n <= s.len(),
        n <= t.len(),
        forall|i: int| 0 <= i < n ==> s[i] == t[i],
    ensures
        depth_at(s, n) == depth_at(t, n),
    decreases n,
{
    if n > 0 {
        lemma_depth_agrees(s, t, n - 1);
    }
}

proof fn lemma_depth_moves(s: Seq<char>, t: Seq<char>, k: int, n: int)
    requires
        0 <= k,
        0 <= n <= t.len(),
        k + t.len() <= s.len(),
        depth_at(s, k) == 0,
        forall|i: int| 0 <= i < t.len() ==> s[k + i] == t[i],
    ensures
        depth_at(s, k + n) == depth_at(t, n),
    decreases n,
{
    if n > 0 {
        lemma_depth_moves(s, t, k, n - 1);
        assert(s[k + (n - 1)] == t[n - 1]);
    }
}

proof fn lemma_parts_move(s: Seq<char>, t: Seq<char>, k: int, start: int, i: int)
    requires
        0 <= k,
        k + t.len() == s.len(),
        depth_at(s, k) == 0,
        forall|j: int| 0 <= j < t.len() ==> s[k + j] == t[j],
        0 <= start <= i <= t.len(),
    ensures
        parts_from(s, k + start, k + i) == parts_from(t, start, i),
    decreases t.len() - i,
{
    if i >= t.len() {
        assert(s.subrange(k + start, s.len() as int) =~= t.subrange(start, t.len() as int));
    } else {
        lemma_depth_moves(s, t, k, i);
        assert(s[k + i] == t[i]);
        if separates(t, i) {
            lemma_parts_move(s, t, k, i + 1, i + 1);
            assert(s.subrange(k + start, k + i) =~= t.subrange(start, i));
        } else {
            lemma_parts_move(s, t, k, start, i + 1);
        }
    }
}

proof fn lemma_parts_before(s: Seq<char>, a: Seq<char>, b: Seq<char>, start: int, i: int)
    requires
        s == a.push(',') + b,
        depth_at(a, a.len() as int) == 0,
        0 <= start <= i <= a.len(),
    ensures
        parts_from(s, start, i) == parts_from(a, start, i) + parts_from(b, 0, 0),
    decreases a.len() - i,
{
    let n = a.len() as int;
    lemma_depth_agrees(s, a, i);
    if i >= a.len() {
        assert(s[n] == ',');
        assert(separates(s, n));
        assert(depth_at(s, n + 1) == 0);
        lemma_parts_move(s, b, n + 1, 0, 0);
        assert(s.subrange(start, n) =~= a.subrange(start, n));
    } else {
        assert(s[i] == a[i]);
        if separates(a, i) {
            lemma_parts_before(s, a, b, i + 1, i + 1);
            assert(s.subrange(start, i) =~= a.subrange(start, i));
            assert(seq![a.subrange(start, i)] + (parts_from(a, i + 1, i + 1) + parts_from(b, 0, 0))
                =~= seq![a.subrange(start, i)] + parts_from(a, i + 1, i + 1) + parts_from(b, 0, 0));
        } else {
            lemma_parts_before(s, a, b, start, i + 1);
        }
    }
}

/// The parts of two lists with a comma between them are the parts of the first, then
/// those of the second.
pub proof fn law_lists_are_cut_at_the_comma_between_them(a: Seq<char>, b: Seq<char>)
    requires
        nested(a),
        nested(b),
    ensures
        overlay_parts(a.push(',') + b) is Some,
        overlay_parts(a.push(',') + b)->0 == overlay_parts(a)->0 + overlay_parts(b)->0,
{
    let s = a.push(',') + b;
    let n = a.len() as int;
    lemma_parts_before(s, a, b, 0, 0);
    lemma_depth_agrees(s, a, n);
    assert(s[n] == ',');
    assert(depth_at(s, n + 1) == 0);
    assert forall|m: int| 0 <= m <= s.len() implies #[trigger] depth_at(s, m) >= 0 by {
        if m <= n {
            lemma_depth_agrees(s, a, m);
            assert(depth_at(a, m) >= 0);
        } else {
            lemma_depth_moves(s, b, n + 1, m - n - 1);
            assert(depth_at(b, m - n - 1) >= 0);
        }
    }
    lemma_depth_moves(s, b, n + 1, b.len() as int);
}

proof fn lemma_flat(s: Seq<char>, n: int)
    requires
        0 <= n <= s.len(),
        forall|i: int| 0 <= i < n ==> s[i] != '(' && s[i] != ')',
    ensures
        depth_at(s, n) == 0,
    decreases n,
{
    if n > 0 {
        lemma_flat(s, n - 1);
    }
}

proof fn lemma_inside(s: Seq<char>, k: int, n: int)
    requires
        0 <= k < n <= s.len(),
        s[k] == '(',
        depth_at(s, k) == 0,
        forall|i: int| k < i < n ==> s[i] != '(' && s[i] != ')',
    ensures
        depth_at(s, n) == 1,
    decreases n,
{
    if n > k + 1 {
        lemma_inside(s, k, n - 1);
    }
}

proof fn lemma_uncut(s: Seq<char>, start: int, i: int)
    requires
        0 <= start <= i <= s.len(),
        forall|j: int| i <= j < s.len() ==> !separates(s, j),
    ensures
        parts_from(s, start, i) == seq![s.subrange(start, s.len() as int)],
    decreases s.len() - i,
{
    if i < s.len() {
        lemma_uncut(s, start, i + 1);
    }
}

/// A single overlay is one part, whatever commas its brackets hold.
pub proof fn law_commas_in_brackets_do_not_cut(head: Seq<char>, inner: Seq<char>, s: Seq<char>)
    requires
        !head.contains('(') && !head.contains(')') && !head.contains(','),
        !inner.contains('(') && !inner.contains(')'),
        s == head.push('(') + inner.push(')'),
    ensures
        overlay_parts(s) == Some(seq![s]),
{
    let k = head.len() as int;
    let e = k + 1 + inner.len();
    assert forall|i: int| 0 <= i < k implies s[i] != '(' && s[i] != ')' && s[i] != ',' by {
        assert(s[i] == head[i]);
        assert(head.contains(s[i]));
    }
    assert forall|i: int| k < i < e implies s[i] != '(' && s[i] != ')' by {
        assert(s[i] == inner[i - k - 1]);
        assert(inner.contains(s[i]));
    }
    assert(s[k] == '(' && s[e] == ')');
    assert forall|n: int| 0 <= n <= s.len() implies #[trigger] depth_at(s, n) >= 0 && (n == s.len()
        ==> depth_at(s, n) == 0) && (k < n < s.len() ==> depth_at(s, n) == 1) by {
        lemma_flat(s, k);
        if n <= k {
            lemma_flat(s, n);
        } else if n <= e {
            lemma_inside(s, k, n);
        } else {
            lemma_inside(s, k, e);
        }
    }
    assert forall|j: int| 0 <= j < s.len() implies !separates(s, j) by {
        assert(depth_at(s, j) >= 0);
    }
    lemma_uncut(s, 0, 0);
    assert(s.subrange(0, s.len() as int) =~= s);
}

/// Text whose last bracket stays open is not cut at all, and neither is text that closes
/// one too many.
pub proof fn law_unbalanced_text_has_no_parts(s: Seq<char>)
    requires
        nested(s),
    ensures
        overlay_parts(s.push('(')) is None,
        overlay_parts(s.push(')')) is None,
{
    let n = s.len() as int;
    lemma_depth_agrees(s.push('('), s, n);
    lemma_depth_agrees(s.push(')'), s, n);
    assert(depth_at(s.push('('), n + 1) == 1);
    assert(depth_at(s.push(')'), n + 1) == -1);
}

proof fn lemma_one_piece_or_more(s: Seq<char>, c: char)
    ensures
        split_on(s, c).len() == 1 <==> !s.contains(c),
        split_on(s, c).len() >= 1,
    decreases s.len(),
{
    lemma_position(s, c);
    let p = position(s, c);
    if p < s.len() {
        assert(s.contains(s[p]));
        lemma_one_piece_or_more(s.skip(p + 1), c);
    } else {
        assert(!s.contains(c));
    }
}

/// A pair is cut at its first mark, and the mark belongs to neither half. A second half
/// that is empty is none, and a pair whose second half holds the mark again is refused
/// where just two halves may stand.
pub proof fn law_pairs_are_cut_at_their_mark(head: Seq<char>, c: char, tail: Seq<char>)
    requires
        !head.contains(c),
    ensures
        once(head, c) is None,
        once(head.push(c) + tail, c) == Some((head, tail)),
        first_optional_pair(head, c) == (head, None::<Seq<char>>),
        tail.len() == 0 ==> first_optional_pair(head.push(c) + tail, c) == (
            head,
            None::<Seq<char>>,
        ),
        tail.len() > 0 ==> first_optional_pair(head.push(c) + tail, c) == (head, Some(tail)),
        optional_pair(head, c) == Ok::<_, PolylineError>((head, None::<Seq<char>>)),
        tail.len() == 0 ==> optional_pair(head.push(c) + tail, c) == Ok::<_, PolylineError>(
            (head, None::<Seq<char>>),
        ),
        tail.len() > 0 && !tail.contains(c) ==> optional_pair(head.push(c) + tail, c) == Ok::<
            _,
            PolylineError,
        >((head, Some(tail))),
        tail.contains(c) ==> optional_pair(head.push(c) + tail, c) == Err::<
            (Seq<char>, Option<Seq<char>>),
            _,
        >(PolylineError::InvalidPathSyntax),
        head.len() > 0 ==> required_pair(head.push(c) + tail, c) == optional_pair(
            head.push(c) + tail,
            c,
        ),
        head.len() == 0 ==> required_pair(head.push(c) + tail, c) is Err,
        head.len() == 0 ==> required_pair(head, c) is Err,
        head.len() > 0 ==> required_pair(head, c) == Ok::<_, PolylineError>(
            (head, None::<Seq<char>>),
        ),
{
    let s = head.push(c) + tail;
    law_the_first_mark_splits(head, c, tail);
    lemma_one_piece_or_more(tail, c);
    assert(s.take(head.len() as int) =~= head);
    assert(s.skip(head.len() as int + 1) =~= tail);
    assert(!tail.contains(c) ==> split_on(tail, c) == seq![tail]) by {
        if !tail.contains(c) {
            law_the_first_mark_splits(tail, c, tail);
        }
    }
}

} // verus!
