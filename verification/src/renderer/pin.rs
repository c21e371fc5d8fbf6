//! The images of pins: their names, their sizes and their colours.

use vstd::prelude::*;
use vstd::utf8::{encode_utf8, is_ascii_chars, is_ascii_chars_encode_utf8};
use crate::options::text_views;
use crate::overlay::path::{PinOverlay, PinSize};
use crate::overlay::StaticOverlay;
use crate::text::{chars_of, same_text, string_of};
use crate::types::Padding;

verus! {

/// The space above a pin at the upper edge of an image, in pixels.
pub const PIN_AUTO_TOP_MARGIN_PX: u16 = 3;

pub open spec fn size_text(size: PinSize) -> Seq<char> {
    match size {
        PinSize::Small => "s"@,
        PinSize::Medium => "m"@,
        PinSize::Large => "l"@,
    }
}

pub open spec fn label_text(label: Option<String>) -> Seq<char> {
    match label {
        Some(label) => label@,
        None => "dot"@,
    }
}

/// The name of a pin's image.
pub open spec fn image_id(pin: PinOverlay) -> Seq<char> {
    "biei-pin-"@ + size_text(pin.size) + "-"@ + label_text(pin.label) + "-"@ + pin.color@ + "-x2"@
}

/// Names the image of a pin.
pub fn pin_image_id(pin: &PinOverlay) -> (r: String)
    ensures
        r@ == image_id(*pin),
{
    let mut id = "biei-pin-".to_owned();
    id.push_str(
        match pin.size {
            PinSize::Small => "s",
            PinSize::Medium => "m",
            PinSize::Large => "l",
        },
    );
    id.push_str("-");
    match &pin.label {
        Some(label) => id.push_str(label.as_str()),
        None => id.push_str("dot"),
    }
    id.push_str("-");
    id.push_str(pin.color.as_str());
    id.push_str("-x2");
    id
}

/// The images that overlays need, each once, in the order of their first pins.
pub open spec fn image_ids(overlays: Seq<StaticOverlay>) -> Seq<Seq<char>>
    decreases overlays.len(),
{
    if overlays.len() == 0 {
        seq![]
    } else {
        let ids = image_ids(overlays.drop_last());
        match overlays.last() {
            StaticOverlay::Pin(pin) => if ids.contains(image_id(pin)) {
                ids
            } else {
                ids.push(image_id(pin))
            },
            _ => ids,
        }
    }
}

fn lists_id(ids: &[String], id: &str) -> (r: bool)
    ensures
        r == text_views(ids@).contains(id@),
{
    let mut i: usize = 0;
    while i < ids.len()
        invariant
            i <= ids.len(),
            forall|j: int| 0 <= j < i ==> text_views(ids@)[j] != id@,
        decreases ids.len() - i,
    {
        assert(text_views(ids@)[i as int] == ids@[i as int]@);
        if same_text(ids[i].as_str(), id) {
            return true;
        }
        i += 1;
    }
    false
}

/// Names the images that overlays need.
pub fn pin_image_ids(overlays: &[StaticOverlay]) -> (r: Vec<String>)
    ensures
        text_views(r@) == image_ids(overlays@),
{
    let mut ids: Vec<String> = Vec::new();
    let mut i: usize = 0;
    assert(text_views(ids@) =~= image_ids(overlays@.take(0)));
    while i < overlays.len()
        invariant
            i <= overlays.len(),
            text_views(ids@) == image_ids(overlays@.take(i as int)),
        decreases overlays.len() - i,
    {
        assert(overlays@.take(i + 1).drop_last() =~= overlays@.take(i as int));
        assert(overlays@.take(i + 1).last() == overlays@[i as int]);
        let ghost before = text_views(ids@);
        match &overlays[i] {
            StaticOverlay::Pin(pin) => {
                let id = pin_image_id(pin);
                if !lists_id(&ids, id.as_str()) {
                    let ghost name = id@;
                    ids.push(id);
                    assert(text_views(ids@) =~= before.push(name));
                }
            },
            _ => {},
        }
        i += 1;
    }
    assert(overlays@.take(i as int) =~= overlays@);
    ids
}

/// Every pin's image is named, and none twice.
pub proof fn law_each_image_is_named_once(overlays: Seq<StaticOverlay>)
    ensures
        image_ids(overlays).no_duplicates(),
        forall|i: int|
            0 <= i < overlays.len() ==> match #[trigger] overlays[i] {
                StaticOverlay::Pin(pin) => image_ids(overlays).contains(image_id(pin)),
                _ => true,
            },
    decreases overlays.len(),
{
    if overlays.len() > 0 {
        let rest = overlays.drop_last();
        law_each_image_is_named_once(rest);
        let ids = image_ids(rest);
        let all = image_ids(overlays);
        assert forall|id: Seq<char>| ids.contains(id) implies all.contains(id) by {
            let k = choose|k: int| 0 <= k < ids.len() && ids[k] == id;
            assert(all[k] == id);
        }
        assert forall|i: int| 0 <= i < overlays.len() implies match #[trigger] overlays[i] {
            StaticOverlay::Pin(pin) => all.contains(image_id(pin)),
            _ => true,
        } by {
            if i < rest.len() {
                assert(overlays[i] == rest[i]);
            } else {
                match overlays[i] {
                    StaticOverlay::Pin(pin) => {
                        if !ids.contains(image_id(pin)) {
                            assert(all[all.len() - 1] == image_id(pin));
                        }
                    },
                    _ => {},
                }
            }
        }
    }
}

/// The width and height of a pin's image, in pixels at double density.
pub open spec fn image_size(size: PinSize) -> (u32, u32) {
    match size {
        PinSize::Small => (48, 56),
        PinSize::Medium => (60, 68),
        PinSize::Large => (78, 86),
    }
}

/// The width and height of a pin's image, in pixels at double density.
pub fn pin_image_size(size: PinSize) -> (r: (u32, u32))
    ensures
        r == image_size(size),
{
    match size {
        PinSize::Small => (48, 56),
        PinSize::Medium => (60, 68),
        PinSize::Large => (78, 86),
    }
}

/// A quotient rounded up, as far as sixteen bits hold it.
pub fn ceil_div_u32(value: u32, divisor: u32) -> (r: u16)
    requires
        divisor > 0,
    ensures
        r == if (value + divisor - 1) / (divisor as int) > u16::MAX {
            u16::MAX as int
        } else {
            (value + divisor - 1) / (divisor as int)
        },
{
    let q: u64 = (value as u64 + divisor as u64 - 1) / divisor as u64;
    if q > u16::MAX as u64 {
        u16::MAX
    } else {
        q as u16
    }
}

/// The space that a pin at the edge of an image needs: half its height and a
/// margin above, a third of its width at the sides.
pub fn pin_auto_padding_inset(size: PinSize) -> (r: Padding)
    ensures
        r == match size {
            PinSize::Small => (Padding { top: 31, right: 16, bottom: 0, left: 16 }),
            PinSize::Medium => (Padding { top: 37, right: 20, bottom: 0, left: 20 }),
            PinSize::Large => (Padding { top: 46, right: 26, bottom: 0, left: 26 }),
        },
{
    let (width, height) = pin_image_size(size);
    Padding {
        top: ceil_div_u32(height, 2).saturating_add(PIN_AUTO_TOP_MARGIN_PX),
        right: ceil_div_u32(width, 3),
        bottom: 0,
        left: ceil_div_u32(width, 3),
    }
}

pub open spec fn hex_value(c: char) -> Option<nat> {
    if '0' <= c && c <= '9' {
        Some((c as int - 48) as nat)
    } else if 'a' <= c && c <= 'f' {
        Some((c as int - 87) as nat)
    } else if 'A' <= c && c <= 'F' {
        Some((c as int - 55) as nat)
    } else {
        None
    }
}

/// The number that hexadecimal digits spell.
pub open spec fn hex_number(s: Seq<char>) -> Option<nat>
    decreases s.len(),
{
    if s.len() == 0 {
        Some(0)
    } else {
        match (hex_number(s.drop_last()), hex_value(s.last())) {
            (Some(n), Some(d)) => Some(n * 16 + d),
            _ => None,
        }
    }
}

/// Every character twice.
pub open spec fn doubled(s: Seq<char>) -> Seq<char> {
    Seq::new(2 * s.len(), |i: int| s[i / 2])
}

/// A colour of three digits written with six.
pub open spec fn full_color(hex: Seq<char>) -> Seq<char> {
    if encode_utf8(hex).len() == 3 {
        doubled(hex)
    } else {
        hex
    }
}

/// The digits of an unsigned number: a plus sign may stand in front.
pub open spec fn after_plus(s: Seq<char>) -> Seq<char> {
    if s.len() > 0 && s[0] == '+' {
        s.skip(1)
    } else {
        s
    }
}

/// The number that six characters spell.
pub open spec fn color_number(hex: Seq<char>) -> Option<nat> {
    if encode_utf8(full_color(hex)).len() == 6 && after_plus(full_color(hex)).len() > 0 {
        hex_number(after_plus(full_color(hex)))
    } else {
        None
    }
}

fn hex_digit_of(c: char) -> (r: Option<u32>)
    ensures
        match r {
            Some(d) => d < 16 && hex_value(c) == Some(d as nat),
            None => hex_value(c) is None,
        },
{
    if '0' <= c && c <= '9' {
        Some(c as u32 - 48)
    } else if 'a' <= c && c <= 'f' {
        Some(c as u32 - 87)
    } else if 'A' <= c && c <= 'F' {
        Some(c as u32 - 55)
    } else {
        None
    }
}

proof fn lemma_hex_is_ascii(s: Seq<char>)
    requires
        hex_number(s) is Some,
    ensures
        is_ascii_chars(s),
    decreases s.len(),
{
    if s.len() > 0 {
        lemma_hex_is_ascii(s.drop_last());
        assert forall|i: int| 0 <= i < s.len() implies '\0' <= #[trigger] s[i] && s[i]
            <= '\u{7f}' by {
            if i < s.len() - 1 {
                assert(s[i] == s.drop_last()[i]);
            }
        }
    }
}

pub open spec fn power_of_16(n: nat) -> nat
    decreases n,
{
    if n == 0 {
        1
    } else {
        16 * power_of_16((n - 1) as nat)
    }
}

proof fn lemma_some_parts(s: Seq<char>, i: int)
    requires
        0 <= i <= s.len(),
        hex_number(s.take(i)) is None,
    ensures
        hex_number(s) is None,
    decreases s.len() - i,
{
    if i == s.len() {
        assert(s.take(i) =~= s);
    } else {
        assert(s.take(i + 1).drop_last() =~= s.take(i));
        lemma_some_parts(s, i + 1);
    }
}

fn invalid_color(color: &[char]) -> (r: String)
    ensures
        r@ == "invalid pin color `"@ + color@ + "`"@,
{
    let mut text = "invalid pin color `".to_owned();
    text.push_str(string_of(color).as_str());
    text.push_str("`");
    text
}

/// The red, green and blue of a colour of three or six hexadecimal digits.
pub fn parse_hex_rgb(hex: &str) -> (r: Result<(u8, u8, u8), String>)
    ensures
        match color_number(hex@) {
            Some(n) => n < 0x1_000_000 && r is Ok && r->Ok_0.0 == n / 65536 && r->Ok_0.1 == n / 256
                % 256 && r->Ok_0.2 == n % 256,
            None => r is Err && r->Err_0@ == "invalid pin color `"@ + full_color(hex@) + "`"@,
        },
{
    let given = chars_of(hex);
    let mut color: Vec<char> = Vec::new();
    let short = hex.as_bytes().len() == 3;
    let mut i: usize = 0;
    while i < given.len()
        invariant
            i <= given.len(),
            short ==> color@ == doubled(given@.take(i as int)),
            !short ==> color@ == given@.take(i as int),
        decreases given.len() - i,
    {
        let ghost before = color@;
        color.push(given[i]);
        if short {
            color.push(given[i]);
            assert(color@ =~= doubled(given@.take(i + 1)));
        } else {
            assert(color@ =~= given@.take(i + 1));
        }
        i += 1;
    }
    assert(given@.take(i as int) =~= hex@);
    assert(color@ =~= full_color(hex@));
    let text = string_of(&color);
    if text.as_str().as_bytes().len() != 6 {
        return Err(invalid_color(&color));
    }
    let start: usize = if color.len() > 0 && color[0] == '+' {
        1
    } else {
        0
    };
    let ghost digits = after_plus(color@);
    assert(digits =~= color@.skip(start as int));
    if color.len() == start {
        return Err(invalid_color(&color));
    }
    let mut value: u64 = 0;
    let mut j: usize = start;
    assert(digits.take(0) =~= Seq::empty());
    while j < color.len()
        invariant
            start <= j <= color.len(),
            start <= 1,
            digits == color@.skip(start as int),
            start == 1 ==> color@[0] == '+',
            encode_utf8(color@).len() == 6,
            hex_number(digits.take(j - start)) == Some(value as nat),
            value < power_of_16((j - start) as nat),
            j - start <= 6,
            color@ == full_color(hex@),
            digits == after_plus(color@),
            digits.len() > 0,
        decreases color.len() - j,
    {
        assert(digits.take(j - start + 1).drop_last() =~= digits.take(j - start));
        assert(digits.take(j - start + 1).last() == color@[j as int]);
        match hex_digit_of(color[j]) {
            Some(d) => {
                proof {
                    lemma_short_prefix(color@, digits, start as int, j as int);
                    reveal_with_fuel(power_of_16, 7);
                }
                value = value * 16 + d as u64;
            },
            None => {
                proof {
                    lemma_some_parts(digits, j - start + 1);
                }
                return Err(invalid_color(&color));
            },
        }
        j += 1;
    }
    assert(digits.take(j - start) =~= digits);
    proof {
        reveal_with_fuel(power_of_16, 7);
        lemma_power_of_16(digits.len(), 6);
    }
    Ok(((value / 65536) as u8, (value / 256 % 256) as u8, (value % 256) as u8))
}

proof fn lemma_power_of_16(a: nat, b: nat)
    requires
        a <= b,
    ensures
        power_of_16(a) <= power_of_16(b),
    decreases b,
{
    if a < b {
        lemma_power_of_16(a, (b - 1) as nat);
    }
}

/// Six bytes leave room for another digit behind fewer than six.
proof fn lemma_short_prefix(color: Seq<char>, digits: Seq<char>, start: int, j: int)
    requires
        0 <= start <= j < color.len(),
        start <= 1,
        digits == color.skip(start),
        start == 1 ==> color[0] == '+',
        encode_utf8(color).len() == 6,
        hex_number(digits.take(j - start)) is Some,
        hex_value(color[j]) is Some,
    ensures
        j - start < 6,
{
    let head = color.take(j + 1);
    let tail = color.skip(j + 1);
    lemma_hex_is_ascii(digits.take(j - start));
    assert forall|i: int| 0 <= i < head.len() implies '\0' <= #[trigger] head[i] && head[i]
        <= '\u{7f}' by {
        if start <= i < j {
            assert(head[i] == digits.take(j - start)[i - start]);
        }
    }
    is_ascii_chars_encode_utf8(head);
    lemma_utf8_parts(head, tail);
    assert(head + tail =~= color);
}

proof fn lemma_utf8_parts(a: Seq<char>, b: Seq<char>)
    ensures
        encode_utf8(a + b) == encode_utf8(a) + encode_utf8(b),
    decreases a.len(),
{
    if a.len() == 0 {
        assert(a + b =~= b);
        assert(encode_utf8(a) =~= Seq::<u8>::empty());
    } else {
        lemma_utf8_parts(a.drop_first(), b);
        assert((a + b).drop_first() =~= a.drop_first() + b);
        assert(encode_utf8(a + b) =~= encode_utf8(a) + encode_utf8(b));
    }
}

/// The value of a hexadecimal digit, large or small.
pub open spec fn is_hex(c: char, d: nat) -> bool {
    ||| '0' <= c <= '9' && c as int == 48 + d
    ||| 'a' <= c <= 'f' && c as int == 97 + (d - 10)
    ||| 'A' <= c <= 'F' && c as int == 65 + (d - 10)
}

/// A color of six ASCII digits is the number that they spell.
proof fn lemma_six_digits(hex: Seq<char>)
    requires
        hex.len() == 6,
        is_ascii_chars(hex),
        hex[0] != '+',
    ensures
        color_number(hex) == hex_number(hex),
{
    is_ascii_chars_encode_utf8(hex);
}

proof fn lemma_hex_push(s: Seq<char>, n: nat, c: char, d: nat)
    requires
        hex_number(s) == Some(n),
        is_hex(c, d),
    ensures
        hex_number(s.push(c)) == Some(n * 16 + d),
        d < 16,
{
    assert(s.push(c).drop_last() =~= s);
}

/// Six hexadecimal digits are a color: two for red, two for green and two for blue, in
/// that order.
pub proof fn law_colors_are_red_green_and_blue(hex: Seq<char>, d: Seq<nat>)
    requires
        hex.len() == 6,
        d.len() == 6,
        is_hex(hex[0], d[0]),
        is_hex(hex[1], d[1]),
        is_hex(hex[2], d[2]),
        is_hex(hex[3], d[3]),
        is_hex(hex[4], d[4]),
        is_hex(hex[5], d[5]),
    ensures
        color_number(hex) matches Some(n) && n / 65536 == 16 * d[0] + d[1] && n / 256 % 256 == 16
            * d[2] + d[3] && n % 256 == 16 * d[4] + d[5],
{
    let p0 = Seq::<char>::empty();
    let p1 = p0.push(hex[0]);
    let p2 = p1.push(hex[1]);
    let p3 = p2.push(hex[2]);
    let p4 = p3.push(hex[3]);
    let p5 = p4.push(hex[4]);
    let n1 = d[0];
    let n2 = n1 * 16 + d[1];
    let n3 = n2 * 16 + d[2];
    let n4 = n3 * 16 + d[3];
    let n5 = n4 * 16 + d[4];
    let n6 = n5 * 16 + d[5];
    assert(hex_number(p0) == Some(0nat));
    lemma_hex_push(p0, 0, hex[0], d[0]);
    lemma_hex_push(p1, n1, hex[1], d[1]);
    lemma_hex_push(p2, n2, hex[2], d[2]);
    lemma_hex_push(p3, n3, hex[3], d[3]);
    lemma_hex_push(p4, n4, hex[4], d[4]);
    lemma_hex_push(p5, n5, hex[5], d[5]);
    assert(p5.push(hex[5]) =~= hex);
    assert(is_ascii_chars(hex));
    lemma_six_digits(hex);
    lemma_three_bytes(16 * d[0] + d[1], 16 * d[2] + d[3], 16 * d[4] + d[5]);
    assert(n6 == 65536 * (16 * d[0] + d[1]) + 256 * (16 * d[2] + d[3]) + (16 * d[4] + d[5]));
}

proof fn lemma_three_bytes(red: nat, green: nat, blue: nat)
    requires
        green < 256,
        blue < 256,
    ensures
        (65536 * red + 256 * green + blue) / 65536 == red,
        (65536 * red + 256 * green + blue) / 256 % 256 == green,
        (65536 * red + 256 * green + blue) % 256 == blue,
{
    assert((65536 * red + 256 * green + blue) / 256 == 256 * red + green);
}

/// Three hexadecimal digits stand for six, each of them twice.
pub proof fn law_short_colors_are_doubled(r: char, g: char, b: char)
    requires
        r as int <= 127,
        g as int <= 127,
        b as int <= 127,
    ensures
        color_number(seq![r, g, b]) == color_number(seq![r, r, g, g, b, b]),
{
    let short = seq![r, g, b];
    let full = seq![r, r, g, g, b, b];
    assert(is_ascii_chars(short));
    is_ascii_chars_encode_utf8(short);
    assert(is_ascii_chars(full));
    is_ascii_chars_encode_utf8(full);
    assert(doubled(short) =~= full);
}

/// A text with anything but hexadecimal digits, but for a plus sign in front, is no color.
pub proof fn law_colors_hold_only_digits(hex: Seq<char>, i: int)
    requires
        encode_utf8(hex).len() == 6,
        0 < i < hex.len(),
        !('0' <= hex[i] <= '9') && !('a' <= hex[i] <= 'f') && !('A' <= hex[i] <= 'F'),
    ensures
        color_number(hex) is None,
{
    let s = after_plus(hex);
    let k = i - (hex.len() - s.len());
    assert(s[k] == hex[i]);
    lemma_no_number(s, k);
}

proof fn lemma_no_number(s: Seq<char>, i: int)
    requires
        0 <= i < s.len(),
        hex_value(s[i]) is None,
    ensures
        hex_number(s) is None,
    decreases s.len(),
{
    if i < s.len() - 1 {
        lemma_no_number(s.drop_last(), i);
    }
}

/// The image of a pin is named for its size, its label or the dot in place of one, and
/// its color.
pub proof fn law_images_are_named_for_their_pins(pin: PinOverlay)
    ensures
        pin.size == PinSize::Small && pin.label is None ==> image_id(pin) == "biei-pin-"@ + "s"@
            + "-"@ + "dot"@ + "-"@ + pin.color@ + "-x2"@,
        pin.size == PinSize::Medium && pin.label is None ==> image_id(pin) == "biei-pin-"@ + "m"@
            + "-"@ + "dot"@ + "-"@ + pin.color@ + "-x2"@,
        pin.size == PinSize::Large && pin.label is None ==> image_id(pin) == "biei-pin-"@ + "l"@
            + "-"@ + "dot"@ + "-"@ + pin.color@ + "-x2"@,
        pin.label matches Some(label) ==> image_id(pin) == "biei-pin-"@ + size_text(pin.size)
            + "-"@ + label@ + "-"@ + pin.color@ + "-x2"@,
{
}

/// Only images of pins are named.
pub proof fn law_named_images_are_of_pins(overlays: Seq<StaticOverlay>, id: Seq<char>)
    requires
        image_ids(overlays).contains(id),
    ensures
        exists|i: int|
            0 <= i < overlays.len() && (#[trigger] overlays[i] matches StaticOverlay::Pin(pin)
                && image_id(pin) == id),
    decreases overlays.len(),
{
    if overlays.len() > 0 {
        let front = overlays.drop_last();
        let last = overlays[overlays.len() - 1];
        if image_ids(front).contains(id) {
            law_named_images_are_of_pins(front, id);
            let i = choose|i: int|
                0 <= i < front.len() && (#[trigger] front[i] matches StaticOverlay::Pin(pin)
                    && image_id(pin) == id);
            assert(overlays[i] == front[i]);
        } else {
            let ids = image_ids(overlays);
            let k = choose|k: int| 0 <= k < ids.len() && ids[k] == id;
            if k < image_ids(front).len() {
                assert(image_ids(front)[k] == id);
            }
            assert(overlays.last() == last);
            assert(last is Pin);
        }
    }
}

/// Larger pins have larger images, drawn at twice the size: 24 by 28, 30 by 34 and 39 by
/// 43 pixels.
pub proof fn law_pins_have_their_sizes()
    ensures
        image_size(PinSize::Small) == (48u32, 56u32),
        image_size(PinSize::Medium) == (60u32, 68u32),
        image_size(PinSize::Large) == (78u32, 86u32),
{
}

} // verus!
