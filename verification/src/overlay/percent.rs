//! Percent-decoding of overlay text.

use vstd::prelude::*;
use vstd::utf8::{
    decode_utf8, encode_utf8, encode_utf8_decode_utf8, encode_utf8_valid_utf8, valid_utf8,
};
use crate::overlay::polyline::PolylineError;
use crate::text::string_from_utf8;

verus! {

/// The value of a hexadecimal digit, if the byte is one.
pub open spec fn hex_value(byte: u8) -> Option<u8> {
    if 48 <= byte <= 57 {
        Some((byte - 48) as u8)
    } else if 97 <= byte <= 102 {
        Some((byte - 87) as u8)
    } else if 65 <= byte <= 70 {
        Some((byte - 55) as u8)
    } else {
        None
    }
}

/// The byte that two hexadecimal digits spell.
pub open spec fn hex_pair(high: u8, low: u8) -> Option<u8> {
    match (hex_value(high), hex_value(low)) {
        (Some(h), Some(l)) => Some((h * 16 + l) as u8),
        _ => None,
    }
}

/// The bytes with every `%` and its two hexadecimal digits replaced by the byte
/// they spell; nothing if a `%` is not followed by two hexadecimal digits.
pub open spec fn percent_decoded(s: Seq<u8>) -> Option<Seq<u8>>
    decreases s.len(),
{
    if s.len() == 0 {
        Some(Seq::empty())
    } else if s[0] == 37 {
        if s.len() < 3 {
            None
        } else {
            match (hex_pair(s[1], s[2]), percent_decoded(s.skip(3))) {
                (Some(byte), Some(rest)) => Some(seq![byte] + rest),
                _ => None,
            }
        }
    } else {
        match percent_decoded(s.skip(1)) {
            Some(rest) => Some(seq![s[0]] + rest),
            None => None,
        }
    }
}

/// The text that percent-encoded text stands for.
pub open spec fn decoded_text(s: Seq<char>) -> Option<Seq<char>> {
    match percent_decoded(encode_utf8(s)) {
        Some(bytes) => if valid_utf8(bytes) {
            Some(decode_utf8(bytes))
        } else {
            None
        },
        None => None,
    }
}

/// The upper-case hexadecimal digit of a value below 16.
pub open spec fn hex_digit(v: int) -> u8 {
    if v < 10 {
        (48 + v) as u8
    } else {
        (55 + v) as u8
    }
}

/// Every byte written as `%` and two hexadecimal digits.
pub open spec fn percent_encoded(s: Seq<u8>) -> Seq<u8>
    decreases s.len(),
{
    if s.len() == 0 {
        Seq::empty()
    } else {
        seq![37u8, hex_digit(s[0] as int / 16), hex_digit(s[0] as int % 16)] + percent_encoded(
            s.skip(1),
        )
    }
}

/// Decoding gives back what was encoded.
pub proof fn law_percent_decoding_undoes_encoding(s: Seq<u8>)
    ensures
        percent_decoded(percent_encoded(s)) == Some(s),
    decreases s.len(),
{
    if s.len() == 0 {
        assert(s =~= Seq::empty());
    } else {
        law_percent_decoding_undoes_encoding(s.skip(1));
        let e = percent_encoded(s);
        assert(e.skip(3) =~= percent_encoded(s.skip(1)));
        assert(hex_pair(e[1], e[2]) == Some(s[0]));
        assert(seq![s[0]] + s.skip(1) =~= s);
    }
}

/// Bytes without a `%` decode to themselves.
pub proof fn law_plain_bytes_decode_to_themselves(s: Seq<u8>)
    requires
        forall|i: int| 0 <= i < s.len() ==> s[i] != 37,
    ensures
        percent_decoded(s) == Some(s),
    decreases s.len(),
{
    if s.len() == 0 {
        assert(s =~= Seq::empty());
    } else {
        law_plain_bytes_decode_to_themselves(s.skip(1));
        assert(seq![s[0]] + s.skip(1) =~= s);
    }
}

/// Bytes written one behind the other, each as `how` says: as it is, or as `%`
/// and two hexadecimal digits.
pub open spec fn percent_written(s: Seq<u8>, how: Seq<Option<(u8, u8)>>) -> Seq<u8>
    decreases s.len(),
{
    if s.len() == 0 {
        Seq::empty()
    } else {
        let first = match how[0] {
            Some((high, low)) => seq![37u8, high, low],
            None => seq![s[0]],
        };
        first + percent_written(s.skip(1), how.skip(1))
    }
}

/// `how` says for each byte how it may be written: with hexadecimal digits, of
/// either case, that spell it, or as it is, if it is no `%`.
pub open spec fn is_writing(s: Seq<u8>, how: Seq<Option<(u8, u8)>>) -> bool {
    &&& how.len() == s.len()
    &&& forall|i: int|
        0 <= i < s.len() ==> match #[trigger] how[i] {
            Some((high, low)) => hex_pair(high, low) == Some(s[i]),
            None => s[i] != 37,
        }
}

/// Decoding gives back the bytes that were written, whichever of them were
/// escaped.
pub proof fn law_percent_decoding_undoes_any_writing(s: Seq<u8>, how: Seq<Option<(u8, u8)>>)
    requires
        is_writing(s, how),
    ensures
        percent_decoded(percent_written(s, how)) == Some(s),
    decreases s.len(),
{
    if s.len() == 0 {
        assert(s =~= Seq::empty());
    } else {
        let rest = s.skip(1);
        let how_rest = how.skip(1);
        assert forall|i: int| 0 <= i < rest.len() implies match #[trigger] how_rest[i] {
            Some((high, low)) => hex_pair(high, low) == Some(rest[i]),
            None => rest[i] != 37,
        } by {
            assert(how_rest[i] == how[i + 1]);
        }
        law_percent_decoding_undoes_any_writing(rest, how_rest);
        let w = percent_written(s, how);
        if how[0] is Some {
            assert(w.skip(3) =~= percent_written(rest, how_rest));
        } else {
            assert(w.skip(1) =~= percent_written(rest, how_rest));
        }
        assert(seq![s[0]] + rest =~= s);
    }
}

/// Whatever decodes is some writing of what it decodes to.
pub proof fn law_what_decodes_was_written(t: Seq<u8>) -> (how: Seq<Option<(u8, u8)>>)
    requires
        percent_decoded(t) is Some,
    ensures
        is_writing(percent_decoded(t)->Some_0, how),
        percent_written(percent_decoded(t)->Some_0, how) == t,
    decreases t.len(),
{
    if t.len() == 0 {
        Seq::empty()
    } else {
        let (first, rest) = if t[0] == 37 {
            (Some((t[1], t[2])), t.skip(3))
        } else {
            (None, t.skip(1))
        };
        let how_rest = law_what_decodes_was_written(rest);
        let how = seq![first] + how_rest;
        let s = percent_decoded(t)->Some_0;
        assert(s.skip(1) =~= percent_decoded(rest)->Some_0);
        assert(how.skip(1) =~= how_rest);
        assert(percent_written(s, how) =~= t);
        how
    }
}

/// Text decodes to the text whose bytes it writes, whichever of them are escaped.
pub proof fn law_written_text_decodes(
    text: Seq<char>,
    written: Seq<char>,
    how: Seq<Option<(u8, u8)>>,
)
    requires
        is_writing(encode_utf8(text), how),
        encode_utf8(written) == percent_written(encode_utf8(text), how),
    ensures
        decoded_text(written) == Some(text),
{
    law_percent_decoding_undoes_any_writing(encode_utf8(text), how);
    encode_utf8_valid_utf8(text);
    encode_utf8_decode_utf8(text);
}

/// The value of a hexadecimal digit.
pub fn from_hex(byte: u8) -> (r: Option<u8>)
    ensures
        r == hex_value(byte),
{
    if 48 <= byte && byte <= 57 {
        Some(byte - 48)
    } else if 97 <= byte && byte <= 102 {
        Some(byte - 97 + 10)
    } else if 65 <= byte && byte <= 70 {
        Some(byte - 65 + 10)
    } else {
        None
    }
}

/// `before` followed by what decodes, if anything does.
spec fn continued(before: Seq<u8>, rest: Option<Seq<u8>>) -> Option<Seq<u8>> {
    match rest {
        Some(tail) => Some(before + tail),
        None => None,
    }
}

/// Replaces percent escapes in `value` and reads the bytes as UTF-8.
pub fn percent_decode(value: &str) -> (r: Result<String, PolylineError>)
    ensures
        match r {
            Ok(text) => decoded_text(value@) == Some(text@),
            Err(e) => decoded_text(value@) is None && e == PolylineError::InvalidPercentEncoding,
        },
{
    let bytes = value.as_bytes();
    let mut out: Vec<u8> = Vec::new();
    let mut index: usize = 0;
    assert(bytes@.skip(0) =~= bytes@);
    assert(continued(out@, percent_decoded(bytes@)) =~= percent_decoded(bytes@)) by {
        if let Some(t) = percent_decoded(bytes@) {
            assert(out@ + t =~= t);
        }
    }
    while index < bytes.len()
        invariant
            index <= bytes.len(),
            bytes@ == encode_utf8(value@),
            continued(out@, percent_decoded(bytes@.skip(index as int))) == percent_decoded(bytes@),
        decreases bytes.len() - index,
    {
        let ghost rest = bytes@.skip(index as int);
        let ghost before = out@;
        if bytes[index] == 37 {
            if bytes.len() - index < 3 {
                return Err(PolylineError::InvalidPercentEncoding);
            }
            assert(rest[1] == bytes@[index + 1]);
            assert(rest[2] == bytes@[index + 2]);
            assert(rest.skip(3) =~= bytes@.skip(index + 3));
            match (from_hex(bytes[index + 1]), from_hex(bytes[index + 2])) {
                (Some(high), Some(low)) => {
                    let byte: u8 = high * 16 + low;
                    out.push(byte);
                    index += 3;
                    proof {
                        if let Some(t) = percent_decoded(bytes@.skip(index as int)) {
                            assert(out@ + t =~= before + (seq![byte] + t));
                        }
                    }
                },
                _ => {
                    return Err(PolylineError::InvalidPercentEncoding);
                },
            }
        } else {
            let byte: u8 = bytes[index];
            assert(rest.skip(1) =~= bytes@.skip(index + 1));
            out.push(byte);
            index += 1;
            proof {
                if let Some(t) = percent_decoded(bytes@.skip(index as int)) {
                    assert(out@ + t =~= before + (seq![byte] + t));
                }
            }
        }
    }
    assert(bytes@.skip(index as int) =~= Seq::<u8>::empty());
    assert(out@ + Seq::<u8>::empty() =~= out@);
    match string_from_utf8(out) {
        Ok(text) => Ok(text),
        Err(_) => Err(PolylineError::InvalidPercentEncoding),
    }
}

/// Hexadecimal digits stand for their values, large or small, and two of them for a byte,
/// the higher first.
pub proof fn law_hexadecimal_digits_have_their_values(d: u8, high: u8, low: u8, h: u8, l: u8)
    requires
        d < 10,
    ensures
        hex_value((48 + d) as u8) == Some(d),
        d < 6 ==> hex_value((97 + d) as u8) == Some((10 + d) as u8),
        d < 6 ==> hex_value((65 + d) as u8) == Some((10 + d) as u8),
        hex_value(high) == Some(h) && hex_value(low) == Some(l) ==> hex_pair(high, low) == Some(
            (16 * h + l) as u8,
        ),
        hex_value(high) is None || hex_value(low) is None ==> hex_pair(high, low) is None,
        high < 48 || 57 < high < 65 || 70 < high < 97 || high > 102 ==> hex_value(high) is None,
{
}

} // verus!
