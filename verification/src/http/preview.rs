//! The page that previews a style's tiles.

use vstd::prelude::*;
use vstd::utf8::encode_utf8;
use crate::http::path::{
    joined, law_paths_are_cut_at_slashes, law_style_ids_hold_no_dots_in_a_row, path_parts, resolve_style, resolve_style_id, segments, style_id_fault, IngressError,
    IngressFault,
};
use crate::http::response::{
    error_reply, html_reply, json_reply, response_from_ingress_error, IngressResponse,
    ResponseView,
};
use crate::options::{sound, style_url_of, StyleCatalog};
use crate::renderer::StyleAvailabilityError;
use crate::text::{chars_of, occurs, replace, replaced, spells, string_of, views};
use crate::types::StyleRevision;

verus! {

/// How long the check that a style exists may take, in milliseconds.
pub const PREVIEW_STYLE_CHECK_TIMEOUT_MS: u64 = 5_000;

/// The page, with `{{style_path}}` where the style is named in the text and
/// `{{style_path_json}}` where a script reads it.
pub const PREVIEW_HTML_TEMPLATE: &'static str = "<!doctype html>
<html lang=\"en\">
<head>
<meta charset=\"utf-8\">
<title>{{style_path}} · biei preview</title>
<meta name=\"viewport\" content=\"width=device-width, initial-scale=1\">
<link rel=\"stylesheet\" href=\"https://unpkg.com/maplibre-gl/dist/maplibre-gl.css\">
<script src=\"https://unpkg.com/maplibre-gl/dist/maplibre-gl.js\"></script>
<style>html, body, #map { height: 100%; margin: 0; }</style>
</head>
<body>
<div id=\"map\"></div>
<script>
const stylePath = {{style_path_json}};
new maplibregl.Map({
  container: 'map',
  hash: true,
  center: [0, 0],
  zoom: 1,
  style: {
    version: 8,
    sources: {
      tiles: {
        type: 'raster',
        tileSize: 512,
        tiles: [`${location.origin}/${stylePath}/{z}/{x}/{y}@2x.webp`]
      }
    },
    layers: [{ id: 'tiles', type: 'raster', source: 'tiles' }]
  }
});
</script>
</body>
</html>
";

/// A character as it stands in HTML text or in an attribute.
pub open spec fn html_char(c: char) -> Seq<char> {
    if c == '&' {
        "&amp;"@
    } else if c == '<' {
        "&lt;"@
    } else if c == '>' {
        "&gt;"@
    } else if c == '"' {
        "&quot;"@
    } else if c == '\'' {
        "&#39;"@
    } else {
        seq![c]
    }
}

/// A text as it stands in HTML.
pub open spec fn html_text(s: Seq<char>) -> Seq<char>
    decreases s.len(),
{
    if s.len() == 0 {
        seq![]
    } else {
        html_text(s.drop_last()) + html_char(s.last())
    }
}

/// Escapes a text for HTML text and attribute values.
pub fn escape_html(value: &str) -> (r: String)
    ensures
        r@ == html_text(value@),
{
    let chars = chars_of(value);
    let mut out = String::new();
    let mut i: usize = 0;
    assert(chars@.take(0) =~= seq![]);
    while i < chars.len()
        invariant
            i <= chars.len(),
            out@ == html_text(chars@.take(i as int)),
        decreases chars.len() - i,
    {
        assert(chars@.take(i + 1).drop_last() =~= chars@.take(i as int));
        assert(chars@.take(i + 1).last() == chars@[i as int]);
        let c: char = chars[i];
        let ghost before = out@;
        if c == '&' {
            out.push_str("&amp;");
        } else if c == '<' {
            out.push_str("&lt;");
        } else if c == '>' {
            out.push_str("&gt;");
        } else if c == '"' {
            out.push_str("&quot;");
        } else if c == '\'' {
            out.push_str("&#39;");
        } else {
            out.push(c);
            assert(before.push(c) =~= before + seq![c]);
        }
        i += 1;
    }
    assert(chars@.take(i as int) =~= value@);
    out
}

/// The control characters of Unicode.
pub open spec fn is_control(c: char) -> bool {
    (c as u32) <= 0x1f || 0x7f <= (c as u32) <= 0x9f
}

/// A hexadecimal digit, in lower case.
pub open spec fn hex_digit(n: nat) -> char {
    if n < 10 {
        (48 + n) as char
    } else {
        (87 + n) as char
    }
}

/// The escape of a character below 256: two zeros and two digits.
pub open spec fn unicode_escape(n: nat) -> Seq<char> {
    seq!['\\', 'u', '0', '0', hex_digit(n / 16), hex_digit(n % 16)]
}

/// A character as it stands in a JSON string. A `<` is escaped too, so that the
/// string can stand in a script block, which ends at `</script`.
pub open spec fn json_char(c: char) -> Seq<char> {
    if c == '"' {
        "\\\""@
    } else if c == '\\' {
        "\\\\"@
    } else if c == '\n' {
        "\\n"@
    } else if c == '\r' {
        "\\r"@
    } else if c == '\t' {
        "\\t"@
    } else if is_control(c) || c == '<' {
        unicode_escape((c as u32) as nat)
    } else {
        seq![c]
    }
}

pub open spec fn json_chars(s: Seq<char>) -> Seq<char>
    decreases s.len(),
{
    if s.len() == 0 {
        seq![]
    } else {
        json_chars(s.drop_last()) + json_char(s.last())
    }
}

/// A text as a JSON string, with its quotes.
pub open spec fn json_string(s: Seq<char>) -> Seq<char> {
    seq!['"'] + json_chars(s) + seq!['"']
}

fn hex_char(n: u8) -> (r: char)
    requires
        n < 16,
    ensures
        r == hex_digit(n as nat),
{
    if n < 10 {
        (48 + n) as char
    } else {
        (87 + n) as char
    }
}

/// Writes a text as a JSON string, with its quotes. It can stand in a script block.
pub fn escape_json_string(value: &str) -> (r: String)
    ensures
        r@ == json_string(value@),
{
    let chars = chars_of(value);
    let mut out = String::new();
    out.push('"');
    assert(out@ =~= seq!['"'] + json_chars(chars@.take(0)));
    let mut i: usize = 0;
    while i < chars.len()
        invariant
            i <= chars.len(),
            out@ == seq!['"'] + json_chars(chars@.take(i as int)),
        decreases chars.len() - i,
    {
        assert(chars@.take(i + 1).drop_last() =~= chars@.take(i as int));
        assert(chars@.take(i + 1).last() == chars@[i as int]);
        let c: char = chars[i];
        let n: u32 = c as u32;
        let ghost before = out@;
        if c == '"' {
            out.push_str("\\\"");
        } else if c == '\\' {
            out.push_str("\\\\");
        } else if c == '\n' {
            out.push_str("\\n");
        } else if c == '\r' {
            out.push_str("\\r");
        } else if c == '\t' {
            out.push_str("\\t");
        } else if n <= 0x1f || 0x7f <= n && n <= 0x9f || c == '<' {
            out.push('\\');
            out.push('u');
            out.push('0');
            out.push('0');
            out.push(hex_char((n / 16) as u8));
            out.push(hex_char((n % 16) as u8));
            assert(out@ =~= before + unicode_escape(n as nat));
        } else {
            out.push(c);
            assert(out@ =~= before + seq![c]);
        }
        assert(out@ =~= before + json_char(c));
        assert(out@ =~= seq!['"'] + json_chars(chars@.take(i + 1)));
        i += 1;
    }
    assert(chars@.take(i as int) =~= value@);
    let ghost before = out@;
    out.push('"');
    assert(out@ =~= before + seq!['"']);
    out
}

/// The page of a style.
pub open spec fn preview_page(style_path: Seq<char>) -> Seq<char> {
    replaced(
        replaced(PREVIEW_HTML_TEMPLATE@, "{{style_path}}"@, html_text(style_path)),
        "{{style_path_json}}"@,
        json_string(style_path),
    )
}

/// Shows the page of a style.
pub fn preview_html(style_id: &str) -> (r: IngressResponse)
    ensures
        r@ == html_reply(200, encode_utf8(preview_page(style_id@))),
{
    let template = chars_of(PREVIEW_HTML_TEMPLATE);
    let named = replace(&template, "{{style_path}}", &chars_of(escape_html(style_id).as_str()));
    let page = replace(
        &named,
        "{{style_path_json}}",
        &chars_of(escape_json_string(style_id).as_str()),
    );
    IngressResponse::html(200, string_of(&page).as_str().as_bytes_vec())
}

/// The style segments of a preview path: one or two, before `preview`.
pub open spec fn preview_segments(path: Seq<char>) -> Option<Seq<Seq<char>>> {
    let parts = segments(path);
    if (parts.len() == 2 || parts.len() == 3) && parts.last() == "preview"@ {
        Some(parts.drop_last())
    } else {
        None
    }
}

/// The style that a preview path asks for, or the reply that refuses the path.
pub open spec fn preview_target(catalog: StyleCatalog, path: Seq<char>) -> Result<
    Seq<char>,
    ResponseView,
> {
    match preview_segments(path) {
        None => Err(
            json_reply(400, "invalid_preview_path"@, "expected /{user}/{style}/preview"@),
        ),
        Some(parts) => match style_id_fault(parts) {
            Some(text) => Err(error_reply(IngressFault::InvalidRequest(text))),
            None => if style_url_of(catalog.templates@, joined(parts)) is Some {
                Ok(joined(parts))
            } else {
                Err(error_reply(IngressFault::UnknownStyle(joined(parts))))
            },
        },
    }
}

/// Reads a preview path. The style that it names is to be checked with its
/// provider.
pub fn begin_preview(catalog: &StyleCatalog, path: &str) -> (r: Result<
    StyleRevision,
    IngressResponse,
>)
    requires
        sound(catalog.templates@),
    ensures
        match preview_target(*catalog, path@) {
            Ok(id) => r is Ok && r->Ok_0.id@ == id && r->Ok_0.version == 1,
            Err(reply) => r is Err && r->Err_0@ == reply,
        },
{
    let mut parts = path_parts(path);
    let n: usize = parts.len();
    let ghost all = views(parts@);
    let fits = if n == 2 || n == 3 {
        assert(all.last() == parts@[n - 1]@);
        spells(&parts[n - 1], "preview")
    } else {
        false
    };
    if !fits {
        return Err(
            IngressResponse::json(400, "invalid_preview_path", "expected /{user}/{style}/preview"),
        );
    }
    parts.pop();
    assert(views(parts@) =~= all.drop_last());
    let style_id = match resolve_style_id(&parts) {
        Ok(id) => id,
        Err(e) => {
            return Err(response_from_ingress_error(e));
        },
    };
    match resolve_style(catalog, style_id) {
        Ok(resolved) => Ok(resolved.revision),
        Err(e) => Err(response_from_ingress_error(e)),
    }
}

/// The reply once the provider was asked for the style.
pub open spec fn preview_reply(
    style_id: Seq<char>,
    checked: Result<(), StyleAvailabilityError>,
) -> ResponseView {
    match checked {
        Ok(()) => html_reply(200, encode_utf8(preview_page(style_id))),
        Err(StyleAvailabilityError::NotFound(_)) => error_reply(
            IngressFault::UnknownStyle(style_id),
        ),
        Err(StyleAvailabilityError::Unavailable(_)) => json_reply(
            503,
            "style_unavailable"@,
            style_id,
        ),
    }
}

/// Answers a preview request once the provider was asked for the style.
pub fn finish_preview(style_id: String, checked: Result<(), StyleAvailabilityError>) -> (r:
    IngressResponse)
    ensures
        r@ == preview_reply(style_id@, checked),
{
    match checked {
        Ok(()) => preview_html(style_id.as_str()),
        Err(StyleAvailabilityError::NotFound(_)) => response_from_ingress_error(
            IngressError::UnknownStyle(style_id),
        ),
        Err(StyleAvailabilityError::Unavailable(_)) => IngressResponse::json(
            503,
            "style_unavailable",
            style_id.as_str(),
        ),
    }
}

/// An escaped text opens and closes nothing in HTML: it holds neither angle
/// brackets nor quotes.
pub proof fn law_escaped_html_is_inert(s: Seq<char>, i: int)
    requires
        0 <= i < html_text(s).len(),
    ensures
        html_text(s)[i] != '<',
        html_text(s)[i] != '>',
        html_text(s)[i] != '"',
        html_text(s)[i] != '\'',
    decreases s.len(),
{
    let head = html_text(s.drop_last());
    if i < head.len() {
        law_escaped_html_is_inert(s.drop_last(), i);
    } else {
        reveal_strlit("&amp;");
        reveal_strlit("&lt;");
        reveal_strlit("&gt;");
        reveal_strlit("&quot;");
        reveal_strlit("&#39;");
    }
}

/// An escaped text holds no control character.
pub proof fn law_escaped_json_has_no_control_characters(s: Seq<char>, i: int)
    requires
        0 <= i < json_string(s).len(),
    ensures
        !is_control(json_string(s)[i]),
{
    let inner = json_chars(s);
    if 0 < i && i <= inner.len() {
        lemma_json_chars(s, i - 1);
        assert(json_string(s)[i] == inner[i - 1]);
    } else {
        assert(json_string(s)[i] == '"');
    }
}

/// A JSON string ends no script block that it stands in: no tag begins in it.
pub proof fn law_json_string_stays_in_its_script(s: Seq<char>, i: int)
    requires
        0 <= i < json_string(s).len(),
    ensures
        json_string(s)[i] != '<',
{
    let inner = json_chars(s);
    if 0 < i && i <= inner.len() {
        lemma_json_chars(s, i - 1);
        assert(json_string(s)[i] == inner[i - 1]);
    } else {
        assert(json_string(s)[i] == '"');
    }
}

proof fn lemma_json_chars(s: Seq<char>, i: int)
    requires
        0 <= i < json_chars(s).len(),
    ensures
        !is_control(json_chars(s)[i]),
        json_chars(s)[i] != '<',
    decreases s.len(),
{
    let head = json_chars(s.drop_last());
    if i < head.len() {
        lemma_json_chars(s.drop_last(), i);
    } else {
        reveal_strlit("\\\"");
        reveal_strlit("\\\\");
        reveal_strlit("\\n");
        reveal_strlit("\\r");
        reveal_strlit("\\t");
    }
}

/// The value of a hexadecimal digit in lower case.
pub open spec fn hex_value(c: char) -> nat {
    if '0' <= c <= '9' {
        (c as u32 - 48) as nat
    } else {
        (c as u32 - 87) as nat
    }
}

/// The character that a letter stands for behind a backslash.
pub open spec fn escaped_char(c: char) -> Option<char> {
    if c == '"' || c == '\\' {
        Some(c)
    } else if c == 'n' {
        Some('\n')
    } else if c == 'r' {
        Some('\r')
    } else if c == 't' {
        Some('\t')
    } else {
        None
    }
}

/// A character before what was read, if it could be read.
pub open spec fn with_char(c: char, rest: Option<Seq<char>>) -> Option<Seq<char>> {
    match rest {
        Some(text) => Some(seq![c] + text),
        None => None,
    }
}

/// The text that a JSON string stands for, between its quotes.
pub open spec fn json_value(s: Seq<char>) -> Option<Seq<char>>
    decreases s.len(),
{
    if s.len() == 0 {
        Some(Seq::empty())
    } else if s[0] != '\\' {
        if s[0] == '"' || (s[0] as u32) <= 0x1f {
            None
        } else {
            with_char(s[0], json_value(s.skip(1)))
        }
    } else if s.len() >= 6 && s[1] == 'u' {
        let n = hex_value(s[2]) * 4096 + hex_value(s[3]) * 256 + hex_value(s[4]) * 16 + hex_value(
            s[5],
        );
        with_char(n as char, json_value(s.skip(6)))
    } else if s.len() >= 2 {
        match escaped_char(s[1]) {
            Some(c) => with_char(c, json_value(s.skip(2))),
            None => None,
        }
    } else {
        None
    }
}

proof fn lemma_reads_char(c: char, rest: Seq<char>)
    ensures
        json_value(json_char(c) + rest) == with_char(c, json_value(rest)),
{
    reveal_strlit("\\\"");
    reveal_strlit("\\\\");
    reveal_strlit("\\n");
    reveal_strlit("\\r");
    reveal_strlit("\\t");
    let s = json_char(c) + rest;
    if c == '"' || c == '\\' || c == '\n' || c == '\r' || c == '\t' {
        assert(s[0] == '\\');
        assert(s.skip(2) =~= rest);
    } else if is_control(c) || c == '<' {
        let n = (c as u32) as nat;
        assert(s[0] == '\\' && s[1] == 'u' && s[2] == '0' && s[3] == '0');
        assert(s[4] == hex_digit(n / 16) && s[5] == hex_digit(n % 16));
        assert(hex_value(s[4]) == n / 16);
        assert(hex_value(s[5]) == n % 16);
        assert(s.skip(6) =~= rest);
    } else {
        assert(s[0] == c);
        assert(s.skip(1) =~= rest);
    }
}

proof fn lemma_reads_back(s: Seq<char>, rest: Seq<char>, text: Seq<char>)
    requires
        json_value(rest) == Some(text),
    ensures
        json_value(json_chars(s) + rest) == Some(s + text),
    decreases s.len(),
{
    if s.len() == 0 {
        assert(json_chars(s) + rest =~= rest);
        assert(s + text =~= text);
    } else {
        let last = s.last();
        lemma_reads_char(last, rest);
        lemma_reads_back(s.drop_last(), json_char(last) + rest, seq![last] + text);
        assert(json_chars(s) + rest =~= json_chars(s.drop_last()) + (json_char(last) + rest));
        assert(s + text =~= s.drop_last() + (seq![last] + text));
    }
}

/// A text as a JSON string stands for the text.
pub proof fn law_json_string_stands_for_its_text(s: Seq<char>)
    ensures
        json_string(s).len() >= 2,
        json_string(s)[0] == '"',
        json_string(s).last() == '"',
        json_value(json_string(s).subrange(1, json_string(s).len() - 1)) == Some(s),
{
    let inner = json_chars(s);
    assert(json_string(s).subrange(1, json_string(s).len() - 1) =~= inner);
    lemma_reads_back(s, Seq::empty(), Seq::empty());
    assert(inner + Seq::<char>::empty() =~= inner);
    assert(s + Seq::<char>::empty() =~= s);
}

proof fn lemma_html_concat(a: Seq<char>, b: Seq<char>)
    ensures
        html_text(a + b) == html_text(a) + html_text(b),
    decreases b.len(),
{
    if b.len() == 0 {
        assert(a + b =~= a);
        assert(html_text(a) + html_text(b) =~= html_text(a));
    } else {
        lemma_html_concat(a, b.drop_last());
        assert((a + b).drop_last() =~= a + b.drop_last());
        assert(html_text(a) + html_text(b.drop_last()) + html_char(b.last()) =~= html_text(a) + (
        html_text(b.drop_last()) + html_char(b.last())));
    }
}

/// Each of the five characters that mean something in HTML is written as its entity, and
/// every other one as it is; a text is the text of its parts.
pub proof fn law_html_is_escaped_by_character(a: Seq<char>, b: Seq<char>, c: char)
    ensures
        html_text(a + b) == html_text(a) + html_text(b),
        html_text(seq!['&']) == "&amp;"@,
        html_text(seq!['<']) == "&lt;"@,
        html_text(seq!['>']) == "&gt;"@,
        html_text(seq!['"']) == "&quot;"@,
        html_text(seq!['\'']) == "&#39;"@,
        c != '&' && c != '<' && c != '>' && c != '"' && c != '\'' ==> html_text(seq![c]) == seq![c],
{
    lemma_html_concat(a, b);
    let one = |x: char| seq![x];
    assert forall|x: char| html_text(#[trigger] one(x)) == html_char(x) by {
        assert(one(x).drop_last() =~= Seq::<char>::empty());
        assert(html_text(Seq::<char>::empty()) =~= Seq::<char>::empty());
        assert(Seq::<char>::empty() + html_char(x) =~= html_char(x));
    }
    assert(one('&') == seq!['&']);
    assert(one('<') == seq!['<']);
    assert(one('>') == seq!['>']);
    assert(one('"') == seq!['"']);
    assert(one('\'') == seq!['\'']);
    assert(one(c) == seq![c]);
}

/// A preview of a style that is there is its page, a style that is not there is not found,
/// and one that cannot be had just now is unavailable.
pub proof fn law_previews_tell_whether_the_style_is_there(
    style_id: Seq<char>,
    checked: Result<(), StyleAvailabilityError>,
)
    ensures
        checked is Ok ==> preview_reply(style_id, checked).status == 200 && preview_reply(
            style_id,
            checked,
        ).body == encode_utf8(preview_page(style_id)) && preview_reply(
            style_id,
            checked,
        ).content_type == "text/html; charset=utf-8"@,
        checked is Err && checked->Err_0 is NotFound ==> preview_reply(style_id, checked).status
            == 404,
        checked is Err && checked->Err_0 is Unavailable ==> preview_reply(style_id, checked).status
            == 503,
{
}

/// The preview of a style is asked for by the style's own path and `preview`.
pub proof fn law_previews_are_asked_for_by_style(
    catalog: StyleCatalog,
    user: Seq<char>,
    style: Seq<char>,
    path: Seq<char>,
)
    requires
        user.len() > 0 && !user.contains('/') && !occurs(user, ".."@),
        style.len() > 0 && !style.contains('/') && !occurs(style, ".."@),
        path == user.push('/') + style.push('/') + "preview"@,
    ensures
        style_url_of(catalog.templates@, user.push('/') + style) is Some ==> preview_target(
            catalog,
            path,
        ) == Ok::<Seq<char>, ResponseView>(user.push('/') + style),
        style_url_of(catalog.templates@, user.push('/') + style) is None ==> preview_target(
            catalog,
            path,
        ) is Err && preview_target(catalog, path)->Err_0.status == 404,
{
    reveal_strlit("preview");
    let id = user.push('/') + style;
    assert(path =~= id.push('/') + "preview"@);
    assert(!"preview"@.contains('/')) by {
        assert forall|i: int| 0 <= i < "preview"@.len() implies "preview"@[i] != '/' by {}
    }
    law_paths_are_cut_at_slashes(user, style);
    law_paths_are_cut_at_slashes(Seq::empty(), user);
    law_paths_are_cut_at_slashes(id, "preview"@);
    let parts = seq![user].push(style);
    assert(segments(path) =~= parts.push("preview"@));
    assert(segments(path).drop_last() =~= parts);
    law_style_ids_hold_no_dots_in_a_row(parts);
    assert(parts.drop_last() =~= seq![user]);
    assert(joined(seq![user]) == user);
    assert(joined(parts) =~= id);
}

/// A path that does not end in `preview`, or is too long or too short for one, is no
/// preview.
pub proof fn law_other_paths_are_no_previews(catalog: StyleCatalog, path: Seq<char>)
    requires
        segments(path).len() < 2 || segments(path).len() > 3 || segments(path).last()
            != "preview"@,
    ensures
        preview_target(catalog, path) is Err,
        preview_target(catalog, path)->Err_0.status == 400,
{
}

proof fn lemma_json_concat(a: Seq<char>, b: Seq<char>)
    ensures
        json_chars(a + b) == json_chars(a) + json_chars(b),
    decreases b.len(),
{
    if b.len() == 0 {
        assert(a + b =~= a);
        assert(json_chars(a) + json_chars(b) =~= json_chars(a));
    } else {
        lemma_json_concat(a, b.drop_last());
        assert((a + b).drop_last() =~= a + b.drop_last());
        assert(json_chars(a) + json_chars(b.drop_last()) + json_char(b.last()) =~= json_chars(a) + (
        json_chars(b.drop_last()) + json_char(b.last())));
    }
}

/// A text is written between quotes, part by part; printable characters other than quotes,
/// backslashes and the sign that opens a tag as they are.
pub proof fn law_json_is_escaped_by_character(a: Seq<char>, b: Seq<char>, c: char)
    ensures
        json_chars(a + b) == json_chars(a) + json_chars(b),
        json_string(a) == seq!['"'] + json_chars(a) + seq!['"'],
        0x20 <= c as u32 <= 0x7e && c != '"' && c != '\\' && c != '<' ==> json_chars(seq![c])
            == seq![c],
        json_chars(seq!['"']) == seq!['\\', '"'],
        json_chars(seq!['\\']) == seq!['\\', '\\'],
        json_chars(seq!['<']) == seq!['\\', 'u', '0', '0', '3', 'c'],
        json_chars(seq!['\n']) == seq!['\\', 'n'],
{
    lemma_json_concat(a, b);
    let one = |x: char| seq![x];
    assert forall|x: char| json_chars(#[trigger] one(x)) == json_char(x) by {
        assert(one(x).drop_last() =~= Seq::<char>::empty());
        assert(json_chars(Seq::<char>::empty()) =~= Seq::<char>::empty());
        assert(Seq::<char>::empty() + json_char(x) =~= json_char(x));
    }
    reveal_strlit("\\\"");
    reveal_strlit("\\\\");
    reveal_strlit("\\n");
    assert(one('"') == seq!['"']);
    assert(one('\\') == seq!['\\']);
    assert(one('<') == seq!['<']);
    assert(one('\n') == seq!['\n']);
    assert(one(c) == seq![c]);
    assert(json_char('"') =~= seq!['\\', '"']);
    assert(json_char('\\') =~= seq!['\\', '\\']);
    assert(json_char('\n') =~= seq!['\\', 'n']);
    assert(json_char('<') =~= seq!['\\', 'u', '0', '0', '3', 'c']);
}

} // verus!
