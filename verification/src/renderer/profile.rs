//! Getting the style of a task: what is fetched, what is refused, and what is
//! remembered of it.

use vstd::prelude::*;
use vstd::utf8::{decode_utf8, valid_utf8};
use crate::json::{json_member, json_parse, json_text, json_tree, json_trees, member, parse, JsonTree};
use crate::json::{
    array_value, compact_json, copy_value, empty_object, no_members, set_member, text_member,
    text_value, to_text, with_member,
};
use crate::renderer::StyleAvailabilityError;
use crate::text::{
    begins_with, chars_of, law_nothing_is_replaced_without_the_pattern,
    law_the_pattern_is_replaced, numeral, numeral_text, replace, replaced, same_text,
    string_from_utf8, string_of, utf8_error,
};
use crate::types::{AddLayerSource, InternalTask, RenderRequest, RendererError, StyleRevision};
use crate::url::{join, url_join, url_parse, url_parses, UrlParts, UrlView};

verus! {

/// The largest style document, in bytes.
pub const MAX_STYLE_JSON_BYTES: usize = 2 * 1024 * 1024;

/// The largest TileJSON document, in bytes.
pub const MAX_TILESET_JSON_BYTES: usize = 1024 * 1024;

/// Whether a status means that asking again would give the same answer: a client
/// error that is neither a timeout nor a rate limit.
pub fn is_permanent_profile_http_status(status: u16) -> (r: bool)
    ensures
        r == (400 <= status <= 499 && status != 408 && status != 429),
{
    400 <= status && status <= 499 && status != 408 && status != 429
}

/// A failed fetch, and whether it may be remembered: a failure that would come
/// again may, one that may pass may not.
#[derive(Clone, Debug)]
pub struct ProfileFetchError {
    pub error: RendererError,
    pub negative_cacheable: bool,
}

impl ProfileFetchError {
    pub fn permanent(error: RendererError) -> (r: ProfileFetchError)
        ensures
            r == (ProfileFetchError { error, negative_cacheable: true }),
    {
        ProfileFetchError { error, negative_cacheable: true }
    }

    pub fn transient(error: RendererError) -> (r: ProfileFetchError)
        ensures
            r == (ProfileFetchError { error, negative_cacheable: false }),
    {
        ProfileFetchError { error, negative_cacheable: false }
    }

    /// A style whose fetch fails for good is missing, any other is unavailable.
    pub fn into_availability_error(self) -> (r: StyleAvailabilityError)
        ensures
            r == if self.negative_cacheable {
                StyleAvailabilityError::NotFound(self.error)
            } else {
                StyleAvailabilityError::Unavailable(self.error)
            },
    {
        if self.negative_cacheable {
            StyleAvailabilityError::NotFound(self.error)
        } else {
            StyleAvailabilityError::Unavailable(self.error)
        }
    }
}

/// The error says that the style did not load, and why.
pub open spec fn load_failed(e: RendererError, style_id: Seq<char>, why: Seq<char>) -> bool {
    match e {
        RendererError::StyleLoadFailed { style_id: id, source } => id@ == style_id && source@
            == why,
        _ => false,
    }
}

/// A failure that would come again.
pub open spec fn fails_for_good(e: ProfileFetchError, style_id: Seq<char>, why: Seq<char>) -> bool {
    e.negative_cacheable && load_failed(e.error, style_id, why)
}

/// A failure that may pass.
pub open spec fn fails_for_now(e: ProfileFetchError, style_id: Seq<char>, why: Seq<char>) -> bool {
    !e.negative_cacheable && load_failed(e.error, style_id, why)
}

fn load_error(style_id: &str, why: String) -> (r: RendererError)
    ensures
        load_failed(r, style_id@, why@),
{
    RendererError::StyleLoadFailed { style_id: style_id.to_owned(), source: why }
}

fn load_error_of(style_id: &str, head: &str, tail: &str) -> (r: RendererError)
    ensures
        load_failed(r, style_id@, head@ + tail@),
{
    let mut why = head.to_owned();
    why.push_str(tail);
    load_error(style_id, why)
}

/// What is fetched.
#[derive(Clone, Copy, Debug, PartialEq, Eq, Structural)]
pub enum Document {
    Style,
    Tileset,
}

impl Document {
    pub open spec fn text(self) -> Seq<char> {
        match self {
            Document::Style => "style"@,
            Document::Tileset => "tileset"@,
        }
    }

    /// The most bytes that a document may have.
    pub open spec fn most_bytes(self) -> nat {
        match self {
            Document::Style => MAX_STYLE_JSON_BYTES as nat,
            Document::Tileset => MAX_TILESET_JSON_BYTES as nat,
        }
    }

    /// The most bytes that a document may have.
    pub fn max_bytes(self) -> (r: usize)
        ensures
            r == self.most_bytes(),
    {
        match self {
            Document::Style => MAX_STYLE_JSON_BYTES,
            Document::Tileset => MAX_TILESET_JSON_BYTES,
        }
    }

    fn name(self) -> (r: &'static str)
        ensures
            r@ == self.text(),
    {
        match self {
            Document::Style => "style",
            Document::Tileset => "tileset",
        }
    }
}

/// The failure of a style that the catalog does not know at that version.
pub fn unregistered(style: &StyleRevision) -> (r: ProfileFetchError)
    ensures
        fails_for_good(
            r,
            style.id@,
            "style definition for version "@ + numeral(style.version as nat)
                + " is not registered"@,
        ),
{
    let mut why = "style definition for version ".to_owned();
    why.push_str(numeral_text(style.version as u128).as_str());
    why.push_str(" is not registered");
    ProfileFetchError::permanent(load_error(style.id.as_str(), why))
}

/// Where a style document is.
#[derive(Clone, Copy, Debug, PartialEq, Eq, Structural)]
pub enum StyleLocation {
    /// It is fetched over HTTP.
    Http,
    /// It is a file that a URL names.
    FileUrl,
    /// It is a file that the text names.
    Path,
}

/// Where a style document is, or the scheme that is not supported.
pub open spec fn location_of(style_url: Seq<char>) -> Result<StyleLocation, Seq<char>> {
    match url_parse(style_url) {
        Ok(url) => if url.scheme == "http"@ || url.scheme == "https"@ {
            Ok(StyleLocation::Http)
        } else if url.scheme == "file"@ {
            Ok(StyleLocation::FileUrl)
        } else {
            Err(url.scheme)
        },
        Err(_) => Ok(StyleLocation::Path),
    }
}

/// Finds out where a style document is.
pub fn style_location(style_id: &str, style_url: &str) -> (r: Result<
    StyleLocation,
    ProfileFetchError,
>)
    ensures
        match location_of(style_url@) {
            Ok(location) => r is Ok && r->Ok_0 == location,
            Err(scheme) => r is Err && fails_for_good(
                r->Err_0,
                style_id@,
                "unsupported style URL scheme: "@ + scheme,
            ),
        },
{
    match crate::url::parse(style_url) {
        Ok(url) => if same_text(url.scheme.as_str(), "http") || same_text(
            url.scheme.as_str(),
            "https",
        ) {
            Ok(StyleLocation::Http)
        } else if same_text(url.scheme.as_str(), "file") {
            Ok(StyleLocation::FileUrl)
        } else {
            Err(
                ProfileFetchError::permanent(
                    load_error_of(
                        style_id,
                        "unsupported style URL scheme: ",
                        url.scheme.as_str(),
                    ),
                ),
            )
        },
        Err(_) => Ok(StyleLocation::Path),
    }
}

/// The failure of a file URL that names no local path.
pub fn not_a_local_path(style_id: &str, style_url: &str) -> (r: ProfileFetchError)
    ensures
        fails_for_good(r, style_id@, "style file URL is not a local path: "@ + style_url@),
{
    ProfileFetchError::permanent(
        load_error_of(style_id, "style file URL is not a local path: ", style_url),
    )
}

/// Refuses a destination that the policy does not permit. `safe_url` is the URL
/// without its secrets.
pub fn check_destination(document: Document, style_id: &str, safe_url: &str, permitted: bool) -> (r:
    Result<(), ProfileFetchError>)
    ensures
        r is Ok == permitted,
        r matches Err(e) ==> fails_for_good(
            e,
            style_id@,
            "blocked "@ + document.text() + " URL destination: "@ + safe_url@,
        ),
{
    if permitted {
        return Ok(());
    }
    let mut why = "blocked ".to_owned();
    why.push_str(document.name());
    why.push_str(" URL destination: ");
    why.push_str(safe_url);
    Err(ProfileFetchError::permanent(load_error(style_id, why)))
}

/// Refuses a tileset URL that is no URL of the web.
pub fn check_tileset_url(style_id: &str, tileset_url: &str, safe_url: &str) -> (r: Result<
    (),
    ProfileFetchError,
>)
    ensures
        match url_parse(tileset_url@) {
            Ok(url) => if url.scheme == "http"@ || url.scheme == "https"@ {
                r is Ok
            } else {
                r is Err && fails_for_good(
                    r->Err_0,
                    style_id@,
                    "unsupported tileset URL scheme: "@ + url.scheme,
                )
            },
            Err(text) => r is Err && fails_for_good(
                r->Err_0,
                style_id@,
                "tileset URL parse failed for "@ + safe_url@ + ": "@ + text,
            ),
        },
{
    match crate::url::parse(tileset_url) {
        Ok(url) => {
            if same_text(url.scheme.as_str(), "http") || same_text(url.scheme.as_str(), "https") {
                return Ok(());
            }
            Err(
                ProfileFetchError::permanent(
                    load_error_of(
                        style_id,
                        "unsupported tileset URL scheme: ",
                        url.scheme.as_str(),
                    ),
                ),
            )
        },
        Err(text) => Err(
            ProfileFetchError::permanent(bad_tileset_url(style_id, safe_url, text.as_str())),
        ),
    }
}

fn bad_tileset_url(style_id: &str, safe_url: &str, text: &str) -> (r: RendererError)
    ensures
        load_failed(r, style_id@, "tileset URL parse failed for "@ + safe_url@ + ": "@ + text@),
{
    let mut why = "tileset URL parse failed for ".to_owned();
    why.push_str(safe_url);
    why.push_str(": ");
    why.push_str(text);
    load_error(style_id, why)
}

/// The failure of a request that was not answered.
pub fn on_send_failed(document: Document, style_id: &str, safe_url: &str, error_kind: &str) -> (r:
    ProfileFetchError)
    ensures
        fails_for_now(
            r,
            style_id@,
            document.text() + " GET failed for "@ + safe_url@ + " ("@ + error_kind@ + ")"@,
        ),
{
    let mut why = document.name().to_owned();
    why.push_str(" GET failed for ");
    why.push_str(safe_url);
    why.push_str(" (");
    why.push_str(error_kind);
    why.push_str(")");
    ProfileFetchError::transient(load_error(style_id, why))
}

/// Decides on the status of an answer. `status_text` is how the status reads.
pub fn on_status(
    document: Document,
    style_id: &str,
    safe_url: &str,
    status: u16,
    status_text: &str,
) -> (r: Result<(), ProfileFetchError>)
    ensures
        r is Ok == (200 <= status <= 299),
        r matches Err(e) ==> e.negative_cacheable == (400 <= status <= 499 && status != 408
            && status != 429) && load_failed(
            e.error,
            style_id@,
            document.text() + " GET failed for "@ + safe_url@ + ": HTTP status code "@
                + status_text@,
        ),
{
    if 200 <= status && status <= 299 {
        return Ok(());
    }
    let mut why = document.name().to_owned();
    why.push_str(" GET failed for ");
    why.push_str(safe_url);
    why.push_str(": HTTP status code ");
    why.push_str(status_text);
    let error = load_error(style_id, why);
    Err(
        if is_permanent_profile_http_status(status) {
            ProfileFetchError::permanent(error)
        } else {
            ProfileFetchError::transient(error)
        },
    )
}

/// How reading a body failed, with the text of the error.
#[derive(Clone, Debug)]
pub enum BodyReadError {
    Timeout,
    Transport(String),
    TooLarge(String),
}

/// The failure of an answer whose body could not be read.
pub fn on_body_error(document: Document, style_id: &str, safe_url: &str, error: BodyReadError) -> (r:
    ProfileFetchError)
    ensures
        match error {
            BodyReadError::Timeout => r == (ProfileFetchError {
                error: RendererError::Timeout,
                negative_cacheable: false,
            }),
            BodyReadError::Transport(text) => fails_for_now(
                r,
                style_id@,
                document.text() + " body read failed for "@ + safe_url@ + ": "@ + text@,
            ),
            BodyReadError::TooLarge(text) => fails_for_good(r, style_id@, text@),
        },
{
    match error {
        BodyReadError::Timeout => ProfileFetchError::transient(RendererError::Timeout),
        BodyReadError::Transport(text) => {
            let mut why = document.name().to_owned();
            why.push_str(" body read failed for ");
            why.push_str(safe_url);
            why.push_str(": ");
            why.push_str(text.as_str());
            ProfileFetchError::transient(load_error(style_id, why))
        },
        BodyReadError::TooLarge(text) => ProfileFetchError::permanent(load_error(style_id, text)),
    }
}

/// The text of a body, which must be UTF-8.
pub fn body_text(document: Document, style_id: &str, bytes: Vec<u8>) -> (r: Result<
    String,
    ProfileFetchError,
>)
    ensures
        match r {
            Ok(text) => valid_utf8(bytes@) && text@ == decode_utf8(bytes@),
            Err(e) => !valid_utf8(bytes@) && fails_for_good(
                e,
                style_id@,
                document.text() + " JSON is not UTF-8: "@ + utf8_error(bytes@),
            ),
        },
{
    match string_from_utf8(bytes) {
        Ok(text) => Ok(text),
        Err(e) => {
            let mut why = document.name().to_owned();
            why.push_str(" JSON is not UTF-8: ");
            why.push_str(e.as_str());
            Err(ProfileFetchError::permanent(load_error(style_id, why)))
        },
    }
}

/// Reads the body of a document, up to the most that it may have.
#[derive(Debug)]
pub struct DocumentReader {
    document: Document,
    bytes: Vec<u8>,
}

impl DocumentReader {
    /// What was received is no more than the document may have.
    pub closed spec fn wf(&self) -> bool {
        self.bytes@.len() <= self.document.most_bytes()
    }

    pub closed spec fn document(&self) -> Document {
        self.document
    }

    /// What was received.
    pub closed spec fn received(&self) -> Seq<u8> {
        self.bytes@
    }

    pub fn new(document: Document) -> (r: DocumentReader)
        ensures
            r.wf(),
            r.document() == document,
            r.received().len() == 0,
    {
        DocumentReader { document, bytes: Vec::new() }
    }

    /// Takes a piece of the body. A body that grows beyond the limit is refused for
    /// good, and nothing of the piece is kept.
    pub fn on_chunk(&mut self, style_id: &str, safe_url: &str, chunk: &[u8]) -> (r: Result<
        (),
        ProfileFetchError,
    >)
        requires
            old(self).wf(),
        ensures
            final(self).wf(),
            final(self).document() == old(self).document(),
            r is Ok == (old(self).received().len() + chunk@.len() <= old(
                self,
            ).document().most_bytes()),
            match r {
                Ok(()) => final(self).received() == old(self).received() + chunk@,
                Err(e) => final(self).received() == old(self).received() && fails_for_good(
                    e,
                    style_id@,
                    "body exceeds "@ + numeral(old(self).document().most_bytes()) + " bytes"@,
                ),
            },
    {
        let most: usize = self.document.max_bytes();
        if chunk.len() > most - self.bytes.len() {
            let mut why = "body exceeds ".to_owned();
            why.push_str(numeral_text(most as u128).as_str());
            why.push_str(" bytes");
            let error = BodyReadError::TooLarge(why);
            return Err(on_body_error(self.document, style_id, safe_url, error));
        }
        self.bytes.extend_from_slice(chunk);
        assert(self.bytes@ =~= old(self).bytes@ + chunk@);
        Ok(())
    }

    /// The text of the body, now that it is complete.
    pub fn finish(self, style_id: &str) -> (r: Result<String, ProfileFetchError>)
        ensures
            match r {
                Ok(text) => valid_utf8(self.received()) && text@ == decode_utf8(self.received()),
                Err(e) => !valid_utf8(self.received()) && fails_for_good(
                    e,
                    style_id@,
                    self.document().text() + " JSON is not UTF-8: "@ + utf8_error(self.received()),
                ),
            },
    {
        body_text(self.document, style_id, self.bytes)
    }
}

/// Refuses a style document that is not JSON.
pub fn check_style_json(style_id: &str, json: &str) -> (r: Result<(), ProfileFetchError>)
    ensures
        match json_parse(json@) {
            Ok(_) => r is Ok,
            Err(text) => r is Err && fails_for_good(
                r->Err_0,
                style_id@,
                "style JSON parse failed: "@ + text,
            ),
        },
{
    match parse(json) {
        Ok(_) => Ok(()),
        Err(text) => Err(
            ProfileFetchError::permanent(
                load_error_of(style_id, "style JSON parse failed: ", text.as_str()),
            ),
        ),
    }
}

/// Refuses a style file that is no file or too large. `path` is how the path
/// reads.
pub fn check_style_file(style_id: &str, path: &str, is_file: bool, len: u64) -> (r: Result<
    (),
    ProfileFetchError,
>)
    ensures
        r is Ok == (is_file && len <= MAX_STYLE_JSON_BYTES),
        r matches Err(e) ==> fails_for_good(
            e,
            style_id@,
            if !is_file {
                "style path is not a file: "@ + path@
            } else {
                "style JSON exceeds 2097152 bytes"@
            },
        ),
{
    if !is_file {
        return Err(
            ProfileFetchError::permanent(
                load_error_of(style_id, "style path is not a file: ", path),
            ),
        );
    }
    if len > MAX_STYLE_JSON_BYTES as u64 {
        return Err(
            ProfileFetchError::permanent(
                load_error(style_id, "style JSON exceeds 2097152 bytes".to_owned()),
            ),
        );
    }
    Ok(())
}

/// The failure of a style file that could not be read. `step` says what was
/// tried.
pub fn on_file_error(style_id: &str, step: &str, path: &str, error: &str) -> (r: ProfileFetchError)
    ensures
        fails_for_now(
            r,
            style_id@,
            "style file "@ + step@ + " failed for "@ + path@ + ": "@ + error@,
        ),
{
    let mut why = "style file ".to_owned();
    why.push_str(step);
    why.push_str(" failed for ");
    why.push_str(path);
    why.push_str(": ");
    why.push_str(error);
    ProfileFetchError::transient(load_error(style_id, why))
}

/// Every element is a text.
pub open spec fn all_texts(items: Seq<JsonTree>) -> bool {
    forall|i: int| 0 <= i < items.len() ==> #[trigger] items[i] is Text
}

/// What is wrong with a TileJSON document.
pub open spec fn tileset_fault(json: Seq<char>) -> Option<Seq<char>> {
    match json_parse(json) {
        Err(text) => Some("tileset JSON parse failed: "@ + text),
        Ok(tree) => match json_member(tree, "tiles"@) {
            Some(JsonTree::Array(items)) => if items.len() == 0 {
                Some("tileset JSON must contain a non-empty `tiles` array"@)
            } else if !all_texts(items) {
                Some("tileset JSON contains a non-string tile URL"@)
            } else {
                None
            },
            _ => Some("tileset JSON must contain a non-empty `tiles` array"@),
        },
    }
}

/// Refuses a TileJSON document without a list of tile URLs.
pub fn validate_tileset_json(style_id: &str, json: &str) -> (r: Result<(), ProfileFetchError>)
    ensures
        match tileset_fault(json@) {
            Some(why) => r is Err && fails_for_good(r->Err_0, style_id@, why),
            None => r is Ok,
        },
{
    let value = match parse(json) {
        Ok(value) => value,
        Err(text) => {
            return Err(
                ProfileFetchError::permanent(
                    load_error_of(style_id, "tileset JSON parse failed: ", text.as_str()),
                ),
            );
        },
    };
    let tiles = match member(&value, "tiles") {
        Some(tiles) => tiles.as_array(),
        None => None,
    };
    let ghost tree = json_tree(value);
    match tiles {
        Some(items) => {
            let ghost trees = json_trees(items@);
            if items.len() == 0 {
                return Err(
                    ProfileFetchError::permanent(
                        load_error(
                            style_id,
                            "tileset JSON must contain a non-empty `tiles` array".to_owned(),
                        ),
                    ),
                );
            }
            let mut i: usize = 0;
            while i < items.len()
                invariant
                    i <= items.len(),
                    trees == json_trees(items@),
                    items@.len() > 0,
                    json_parse(json@) == Ok::<JsonTree, Seq<char>>(tree),
                    json_member(tree, "tiles"@) == Some(JsonTree::Array(trees)),
                    forall|j: int| 0 <= j < i ==> #[trigger] trees[j] is Text,
                decreases items.len() - i,
            {
                assert(trees[i as int] == json_tree(items@[i as int]));
                if items[i].as_str().is_none() {
                    assert(!(trees[i as int] is Text));
                    return Err(
                        ProfileFetchError::permanent(
                            load_error(
                                style_id,
                                "tileset JSON contains a non-string tile URL".to_owned(),
                            ),
                        ),
                    );
                }
                i += 1;
            }
            Ok(())
        },
        None => Err(
            ProfileFetchError::permanent(
                load_error(
                    style_id,
                    "tileset JSON must contain a non-empty `tiles` array".to_owned(),
                ),
            ),
        ),
    }
}

/// The source that a task's layer adds, if it adds one.
pub open spec fn added_source(request: RenderRequest) -> Option<AddLayerSource> {
    match request {
        RenderRequest::StaticImage { addlayer: Some(addlayer), .. } => addlayer.source,
        _ => None,
    }
}

/// The source that a task's layer adds, if it adds one.
pub fn addlayer_source_from_task(task: &InternalTask) -> (r: Option<&AddLayerSource>)
    ensures
        match r {
            Some(source) => added_source(task.request) == Some(*source),
            None => added_source(task.request) is None,
        },
{
    match &task.request {
        RenderRequest::StaticImage { addlayer: Some(addlayer), .. } => addlayer.source.as_ref(),
        _ => None,
    }
}

/// The TileJSON URL of a source, or what is wrong with the source.
pub open spec fn source_url_of(json: Seq<char>) -> Result<Seq<char>, Seq<char>> {
    match json_parse(json) {
        Err(text) => Err("addlayer source JSON parse failed: "@ + text),
        Ok(tree) => match json_text(json_member(tree, "url"@)) {
            Some(url) => Ok(url),
            None => Err("addlayer source JSON is missing TileJSON URL"@),
        },
    }
}

/// Reads the TileJSON URL of a source.
pub fn source_url_from_addlayer_source(style_id: &str, source: &AddLayerSource) -> (r: Result<
    String,
    RendererError,
>)
    ensures
        match source_url_of(source.json@) {
            Ok(url) => r is Ok && r->Ok_0@ == url,
            Err(why) => r is Err && load_failed(r->Err_0, style_id@, why),
        },
{
    let value = match parse(source.json.as_str()) {
        Ok(value) => value,
        Err(text) => {
            return Err(
                load_error_of(style_id, "addlayer source JSON parse failed: ", text.as_str()),
            );
        },
    };
    match text_member(&value, "url") {
        Some(url) => Ok(url.to_owned()),
        None => Err(
            load_error(style_id, "addlayer source JSON is missing TileJSON URL".to_owned()),
        ),
    }
}

/// A tile template whose placeholders survive as parts of a URL.
pub open spec fn protected(tile: Seq<char>) -> Seq<char> {
    replaced(
        replaced(
            replaced(tile, "{z}"@, "__BIEI_TILE_Z__"@),
            "{x}"@,
            "__BIEI_TILE_X__"@,
        ),
        "{y}"@,
        "__BIEI_TILE_Y__"@,
    )
}

/// The template again.
pub open spec fn unprotected(url: Seq<char>) -> Seq<char> {
    replaced(
        replaced(replaced(url, "__BIEI_TILE_Z__"@, "{z}"@), "__BIEI_TILE_X__"@, "{x}"@),
        "__BIEI_TILE_Y__"@,
        "{y}"@,
    )
}

pub fn protect_tile_template_placeholders(tile: &str) -> (r: String)
    ensures
        r@ == protected(tile@),
{
    let a = replace(&chars_of(tile), "{z}", &chars_of("__BIEI_TILE_Z__"));
    let b = replace(&a, "{x}", &chars_of("__BIEI_TILE_X__"));
    string_of(&replace(&b, "{y}", &chars_of("__BIEI_TILE_Y__")))
}

pub fn unprotect_tile_template_placeholders(url: &str) -> (r: String)
    ensures
        r@ == unprotected(url@),
{
    let a = replace(&chars_of(url), "__BIEI_TILE_Z__", &chars_of("{z}"));
    let b = replace(&a, "__BIEI_TILE_X__", &chars_of("{x}"));
    string_of(&replace(&b, "__BIEI_TILE_Y__", &chars_of("{y}")))
}

/// The URL of a tile template: absolute, or relative to the tileset.
pub open spec fn tile_target(base: Seq<char>, tile: Seq<char>) -> Result<UrlView, Seq<char>> {
    match url_parse(protected(tile)) {
        Ok(url) => Ok(url),
        Err(_) => url_join(base, protected(tile)),
    }
}

/// The URL template of a tile, or what is wrong with it.
pub open spec fn tile_url_of(base: Seq<char>, tile: Seq<char>) -> Result<Seq<char>, Seq<char>> {
    match tile_target(base, tile) {
        Ok(url) => if url.scheme == "http"@ || url.scheme == "https"@ {
            Ok(unprotected(url.text))
        } else {
            Err("unsupported tile URL scheme: "@ + url.scheme)
        },
        Err(text) => Err("relative tile URL resolve failed: "@ + text),
    }
}

fn finish_tile_url(style_id: &str, url: UrlParts) -> (r: Result<String, RendererError>)
    ensures
        if url.scheme@ == "http"@ || url.scheme@ == "https"@ {
            r is Ok && r->Ok_0@ == unprotected(url.text@)
        } else {
            r is Err && load_failed(
                r->Err_0,
                style_id@,
                "unsupported tile URL scheme: "@ + url.scheme@,
            )
        },
{
    if !same_text(url.scheme.as_str(), "http") && !same_text(url.scheme.as_str(), "https") {
        return Err(
            load_error_of(style_id, "unsupported tile URL scheme: ", url.scheme.as_str()),
        );
    }
    Ok(unprotect_tile_template_placeholders(url.text.as_str()))
}

/// Resolves the URL template of a tile against the URL of its tileset. None if
/// the tileset's URL is no URL.
pub fn resolve_tile_url(style_id: &str, base: &str, tile: &str) -> (r: Option<
    Result<String, RendererError>,
>)
    ensures
        r is Some == url_parses(base@),
        r matches Some(resolved) ==> match tile_url_of(base@, tile@) {
            Ok(url) => resolved is Ok && resolved->Ok_0@ == url,
            Err(why) => resolved is Err && load_failed(resolved->Err_0, style_id@, why),
        },
{
    if crate::url::parse(base).is_err() {
        return None;
    }
    let tile = protect_tile_template_placeholders(tile);
    let url = match crate::url::parse(tile.as_str()) {
        Ok(url) => url,
        Err(_) => match join(base, tile.as_str()) {
            Ok(url) => url,
            Err(text) => {
                return Some(
                    Err(
                        load_error_of(
                            style_id,
                            "relative tile URL resolve failed: ",
                            text.as_str(),
                        ),
                    ),
                );
            },
        },
    };
    Some(finish_tile_url(style_id, url))
}

/// The tile URLs of a TileJSON document, resolved, or what is wrong with the
/// first bad one.
pub open spec fn resolved_tiles(items: Seq<JsonTree>, base: Seq<char>, tileset_id: Seq<char>) -> Result<
    Seq<JsonTree>,
    Seq<char>,
>
    decreases items.len(),
{
    if items.len() == 0 {
        Ok(seq![])
    } else {
        match resolved_tiles(items.drop_last(), base, tileset_id) {
            Err(why) => Err(why),
            Ok(done) => match items.last() {
                JsonTree::Text(tile) => match tile_url_of(base, tile) {
                    Ok(url) => Ok(done.push(JsonTree::Text(url))),
                    Err(why) => Err(why),
                },
                _ => Err("tileset JSON for "@ + tileset_id + " has non-string tile URL"@),
            },
        }
    }
}

/// The object with a member of another object, if that has it.
pub open spec fn carried(tree: JsonTree, from: JsonTree, key: Seq<char>) -> JsonTree {
    match json_member(from, key) {
        Some(value) => with_member(tree, key, value),
        None => tree,
    }
}

/// The object with what another object says of zooms, attribution, bounds and
/// scheme.
pub open spec fn carried_all(tree: JsonTree, from: JsonTree) -> JsonTree {
    carried(
        carried(
            carried(
                carried(carried(tree, from, "minzoom"@), from, "maxzoom"@),
                from,
                "attribution"@,
            ),
            from,
            "bounds"@,
        ),
        from,
        "scheme"@,
    )
}

/// A vector source with the given tiles. What the request's source says goes
/// before what the tileset says.
pub open spec fn vector_source(
    tiles: Seq<JsonTree>,
    tileset: JsonTree,
    original: JsonTree,
) -> JsonTree {
    let bare = with_member(
        with_member(no_members(), "type"@, JsonTree::Text("vector"@)),
        "tiles"@,
        JsonTree::Array(tiles),
    );
    carried_all(carried_all(bare, tileset), original)
}

/// The source that a request adds, with the tiles of its TileJSON document in
/// place of the document's URL; or what is wrong.
pub open spec fn rewritten(
    source: Seq<char>,
    tileset_id: Seq<char>,
    tileset_url: Seq<char>,
    safe_url: Seq<char>,
    tilejson: Seq<char>,
) -> Result<JsonTree, Seq<char>> {
    match (json_parse(source), json_parse(tilejson), url_parse(tileset_url)) {
        (Err(text), _, _) => Err("addlayer source JSON parse failed: "@ + text),
        (Ok(original), tileset, base) => if !(original is Object) {
            Err("addlayer source JSON must be an object"@)
        } else {
            match tileset {
                Err(text) => Err(
                    "tileset JSON parse failed for "@ + tileset_id + ": "@ + text,
                ),
                Ok(tileset) => if !(tileset is Object) {
                    Err("tileset JSON for "@ + tileset_id + " must be an object"@)
                } else {
                    match base {
                        Err(text) => Err(
                            "tileset URL parse failed for "@ + safe_url + ": "@ + text,
                        ),
                        Ok(_) => match json_member(tileset, "tiles"@) {
                            Some(JsonTree::Array(items)) => if items.len() == 0 {
                                Err("tileset JSON for "@ + tileset_id + " has no tile URLs"@)
                            } else {
                                match resolved_tiles(items, tileset_url, tileset_id) {
                                    Ok(tiles) => Ok(vector_source(tiles, tileset, original)),
                                    Err(why) => Err(why),
                                }
                            },
                            _ => Err("tileset JSON for "@ + tileset_id + " is missing `tiles`"@),
                        },
                    }
                },
            }
        },
    }
}

fn about_tileset(style_id: &str, tileset_id: &str, tail: &str) -> (r: RendererError)
    ensures
        load_failed(r, style_id@, "tileset JSON for "@ + tileset_id@ + tail@),
{
    let mut why = "tileset JSON for ".to_owned();
    why.push_str(tileset_id);
    why.push_str(tail);
    load_error(style_id, why)
}

fn resolve_tiles(
    style_id: &str,
    items: &Vec<serde_json::Value>,
    base: &str,
    tileset_id: &str,
) -> (r: Result<Vec<serde_json::Value>, RendererError>)
    requires
        url_parses(base@),
    ensures
        match resolved_tiles(json_trees(items@), base@, tileset_id@) {
            Ok(tiles) => r is Ok && json_trees(r->Ok_0@) == tiles,
            Err(why) => r is Err && load_failed(r->Err_0, style_id@, why),
        },
{
    let ghost all = json_trees(items@);
    let mut out: Vec<serde_json::Value> = Vec::new();
    let mut i: usize = 0;
    assert(json_trees(out@) =~= seq![]);
    assert(all.take(0) =~= seq![]);
    while i < items.len()
        invariant
            i <= items.len(),
            all == json_trees(items@),
            url_parses(base@),
            resolved_tiles(all.take(i as int), base@, tileset_id@) == Ok::<
                Seq<JsonTree>,
                Seq<char>,
            >(json_trees(out@)),
        decreases items.len() - i,
    {
        let ghost done = json_trees(out@);
        assert(all.take(i + 1).drop_last() =~= all.take(i as int));
        assert(all.take(i + 1).last() == json_tree(items@[i as int]));
        let tile = match items[i].as_str() {
            Some(tile) => tile,
            None => {
                proof {
                    lemma_first_bad_tile(all, base@, tileset_id@, i + 1);
                }
                return Err(about_tileset(style_id, tileset_id, " has non-string tile URL"));
            },
        };
        match resolve_tile_url(style_id, base, tile) {
            Some(Ok(url)) => {
                let value = text_value(url);
                let ghost held = json_tree(value);
                out.push(value);
                assert(json_trees(out@) =~= done.push(held));
            },
            Some(Err(e)) => {
                proof {
                    lemma_first_bad_tile(all, base@, tileset_id@, i + 1);
                }
                return Err(e);
            },
            None => {
                assert(false);
            },
        }
        i += 1;
    }
    assert(all.take(i as int) =~= all);
    Ok(out)
}

proof fn lemma_first_bad_tile(items: Seq<JsonTree>, base: Seq<char>, id: Seq<char>, n: int)
    requires
        0 <= n <= items.len(),
        resolved_tiles(items.take(n), base, id) is Err,
    ensures
        resolved_tiles(items, base, id) == resolved_tiles(items.take(n), base, id),
    decreases items.len() - n,
{
    if n == items.len() {
        assert(items.take(n) =~= items);
    } else {
        assert(items.take(n + 1).drop_last() =~= items.take(n));
        lemma_first_bad_tile(items, base, id, n + 1);
    }
}

fn carry(object: &mut serde_json::Value, from: &serde_json::Value, key: &str)
    requires
        json_tree(*old(object)) is Object,
    ensures
        json_tree(*final(object)) is Object,
        json_tree(*final(object)) == carried(json_tree(*old(object)), json_tree(*from), key@),
{
    if let Some(value) = member(from, key) {
        set_member(object, key, copy_value(value));
    }
}

fn carry_all(object: &mut serde_json::Value, from: &serde_json::Value)
    requires
        json_tree(*old(object)) is Object,
    ensures
        json_tree(*final(object)) is Object,
        json_tree(*final(object)) == carried_all(json_tree(*old(object)), json_tree(*from)),
{
    carry(object, from, "minzoom");
    carry(object, from, "maxzoom");
    carry(object, from, "attribution");
    carry(object, from, "bounds");
    carry(object, from, "scheme");
}

/// Writes the tiles of a TileJSON document into the source that a request adds.
/// `safe_url` is the document's URL without its secrets.
pub fn rewrite_tileset_source_json(
    style_id: &str,
    source: &AddLayerSource,
    tileset_url: &str,
    safe_url: &str,
    tilejson: &str,
) -> (r: Result<String, RendererError>)
    ensures
        match rewritten(source.json@, source.tileset_id@, tileset_url@, safe_url@, tilejson@) {
            Ok(tree) => r is Ok && r->Ok_0@ == compact_json(tree),
            Err(why) => r is Err && load_failed(r->Err_0, style_id@, why),
        },
{
    let original = match parse(source.json.as_str()) {
        Ok(value) => value,
        Err(text) => {
            return Err(
                load_error_of(style_id, "addlayer source JSON parse failed: ", text.as_str()),
            );
        },
    };
    if !original.is_object() {
        return Err(load_error(style_id, "addlayer source JSON must be an object".to_owned()));
    }
    let tileset = match parse(tilejson) {
        Ok(value) => value,
        Err(text) => {
            let mut why = "tileset JSON parse failed for ".to_owned();
            why.push_str(source.tileset_id.as_str());
            why.push_str(": ");
            why.push_str(text.as_str());
            return Err(load_error(style_id, why));
        },
    };
    if !tileset.is_object() {
        return Err(about_tileset(style_id, source.tileset_id.as_str(), " must be an object"));
    }
    match crate::url::parse(tileset_url) {
        Ok(_) => {},
        Err(text) => {
            return Err(bad_tileset_url(style_id, safe_url, text.as_str()));
        },
    }
    let items = match member(&tileset, "tiles") {
        Some(tiles) => tiles.as_array(),
        None => None,
    };
    let items = match items {
        Some(items) => items,
        None => {
            return Err(
                about_tileset(style_id, source.tileset_id.as_str(), " is missing `tiles`"),
            );
        },
    };
    if items.len() == 0 {
        assert(json_trees(items@).len() == 0);
        return Err(about_tileset(style_id, source.tileset_id.as_str(), " has no tile URLs"));
    }
    assert(json_trees(items@).len() > 0);
    let tiles = match resolve_tiles(style_id, items, tileset_url, source.tileset_id.as_str()) {
        Ok(tiles) => tiles,
        Err(e) => {
            return Err(e);
        },
    };
    let mut resolved = empty_object();
    set_member(&mut resolved, "type", text_value("vector".to_owned()));
    set_member(&mut resolved, "tiles", array_value(tiles));
    carry_all(&mut resolved, &tileset);
    carry_all(&mut resolved, &original);
    Ok(to_text(&resolved))
}

proof fn lemma_carried(tree: JsonTree, from: JsonTree, key: Seq<char>, asked: Seq<char>)
    requires
        tree is Object,
    ensures
        carried(tree, from, key) is Object,
        json_member(carried(tree, from, key), asked) == if asked == key && json_member(
            from,
            key,
        ) is Some {
            json_member(from, key)
        } else {
            json_member(tree, asked)
        },
{
}

/// A rewritten source is a vector source with the tileset's tiles and without its
/// URL, and its zooms are the request's where the request gives them.
pub proof fn law_rewritten_source_has_tiles_and_no_url(
    tiles: Seq<JsonTree>,
    tileset: JsonTree,
    original: JsonTree,
)
    ensures
        json_member(vector_source(tiles, tileset, original), "type"@) == Some(
            JsonTree::Text("vector"@),
        ),
        json_member(vector_source(tiles, tileset, original), "tiles"@) == Some(
            JsonTree::Array(tiles),
        ),
        json_member(vector_source(tiles, tileset, original), "url"@) is None,
        json_member(vector_source(tiles, tileset, original), "minzoom"@) == if json_member(
            original,
            "minzoom"@,
        ) is Some {
            json_member(original, "minzoom"@)
        } else {
            json_member(tileset, "minzoom"@)
        },
{
    reveal_strlit("type");
    reveal_strlit("tiles");
    reveal_strlit("url");
    reveal_strlit("minzoom");
    reveal_strlit("maxzoom");
    reveal_strlit("attribution");
    reveal_strlit("bounds");
    reveal_strlit("scheme");
    assert("type"@.len() == 4 && "tiles"@.len() == 5 && "url"@.len() == 3);
    let bare = with_member(
        with_member(no_members(), "type"@, JsonTree::Text("vector"@)),
        "tiles"@,
        JsonTree::Array(tiles),
    );
    lemma_carried_all(bare, tileset, "type"@);
    lemma_carried_all(bare, tileset, "tiles"@);
    lemma_carried_all(bare, tileset, "url"@);
    lemma_carried_all(bare, tileset, "minzoom"@);
    let middle = carried_all(bare, tileset);
    lemma_carried_all(middle, original, "type"@);
    lemma_carried_all(middle, original, "tiles"@);
    lemma_carried_all(middle, original, "url"@);
    lemma_carried_all(middle, original, "minzoom"@);
    assert("minzoom"@.len() == 7 && "maxzoom"@.len() == 7);
    assert("bounds"@.len() == 6 && "scheme"@.len() == 6 && "attribution"@.len() == 11);
}

pub open spec fn is_carried(key: Seq<char>) -> bool {
    key == "minzoom"@ || key == "maxzoom"@ || key == "attribution"@ || key == "bounds"@ || key
        == "scheme"@
}

proof fn lemma_carried_all(tree: JsonTree, from: JsonTree, asked: Seq<char>)
    requires
        tree is Object,
    ensures
        carried_all(tree, from) is Object,
        json_member(carried_all(tree, from), asked) == if is_carried(asked) && json_member(
            from,
            asked,
        ) is Some {
            json_member(from, asked)
        } else {
            json_member(tree, asked)
        },
{
    let a = carried(tree, from, "minzoom"@);
    let b = carried(a, from, "maxzoom"@);
    let c = carried(b, from, "attribution"@);
    let d = carried(c, from, "bounds"@);
    lemma_carried(tree, from, "minzoom"@, asked);
    lemma_carried(a, from, "maxzoom"@, asked);
    lemma_carried(b, from, "attribution"@, asked);
    lemma_carried(c, from, "bounds"@, asked);
    lemma_carried(d, from, "scheme"@, asked);
}

/// The zooms, the attribution, the bounds and the scheme of a rewritten source are the
/// request's where the request gives them, and else the tileset's. It has nothing else of
/// either.
pub proof fn law_rewritten_sources_carry_what_is_known(
    tiles: Seq<JsonTree>,
    tileset: JsonTree,
    original: JsonTree,
    key: Seq<char>,
)
    ensures
        ({
            let carried = key == "minzoom"@ || key == "maxzoom"@ || key == "attribution"@ || key
                == "bounds"@ || key == "scheme"@;
            let source = vector_source(tiles, tileset, original);
            &&& carried && json_member(original, key) is Some ==> json_member(source, key)
                == json_member(original, key)
            &&& carried && json_member(original, key) is None ==> json_member(source, key)
                == json_member(tileset, key)
            &&& !carried && key != "type"@ && key != "tiles"@ ==> json_member(source, key) is None
        }),
{
    reveal_strlit("type");
    reveal_strlit("tiles");
    reveal_strlit("minzoom");
    reveal_strlit("maxzoom");
    reveal_strlit("attribution");
    reveal_strlit("bounds");
    reveal_strlit("scheme");
    assert("type"@.len() == 4 && "tiles"@.len() == 5);
    assert("minzoom"@.len() == 7 && "maxzoom"@.len() == 7);
    assert("bounds"@.len() == 6 && "scheme"@.len() == 6 && "attribution"@.len() == 11);
    let bare = with_member(
        with_member(no_members(), "type"@, JsonTree::Text("vector"@)),
        "tiles"@,
        JsonTree::Array(tiles),
    );
    lemma_carried_all(bare, tileset, key);
    lemma_carried_all(carried_all(bare, tileset), original, key);
}

/// Each tile address of a rewritten source is the one that stands in the same place in
/// the tileset, resolved.
pub proof fn law_tiles_are_resolved_in_place(
    items: Seq<JsonTree>,
    base: Seq<char>,
    tileset_id: Seq<char>,
    i: int,
)
    requires
        resolved_tiles(items, base, tileset_id) is Ok,
        0 <= i < items.len(),
    ensures
        resolved_tiles(items, base, tileset_id)->Ok_0.len() == items.len(),
        items[i] matches JsonTree::Text(tile) && tile_url_of(base, tile) matches Ok(url)
            && resolved_tiles(items, base, tileset_id)->Ok_0[i] == JsonTree::Text(url),
    decreases items.len(),
{
    let front = items.drop_last();
    lemma_as_many_tiles(items, base, tileset_id);
    if i < items.len() - 1 {
        assert(front[i] == items[i]);
        law_tiles_are_resolved_in_place(front, base, tileset_id, i);
    }
}

proof fn lemma_as_many_tiles(items: Seq<JsonTree>, base: Seq<char>, tileset_id: Seq<char>)
    requires
        resolved_tiles(items, base, tileset_id) is Ok,
    ensures
        resolved_tiles(items, base, tileset_id)->Ok_0.len() == items.len(),
    decreases items.len(),
{
    if items.len() > 0 {
        lemma_as_many_tiles(items.drop_last(), base, tileset_id);
    }
}

/// A tile address is the tile's own where it is one of the web, and else what it is
/// relative to the tileset's; one of any other scheme is refused.
pub proof fn law_tile_addresses_are_of_the_web(base: Seq<char>, tile: Seq<char>)
    ensures
        url_parse(protected(tile)) matches Ok(url) ==> {
            &&& url.scheme == "http"@ || url.scheme == "https"@ ==> tile_url_of(base, tile) == Ok::<
                Seq<char>,
                Seq<char>,
            >(unprotected(url.text))
            &&& url.scheme != "http"@ && url.scheme != "https"@ ==> tile_url_of(base, tile) is Err
        },
        url_parse(protected(tile)) is Err ==> match url_join(base, protected(tile)) {
            Ok(url) => (url.scheme == "http"@ || url.scheme == "https"@) == (tile_url_of(base, tile)
                is Ok) && (tile_url_of(base, tile) is Ok ==> tile_url_of(base, tile)->Ok_0
                == unprotected(url.text)),
            Err(_) => tile_url_of(base, tile) is Err,
        },
{
}

/// A style of the web is fetched, one with the scheme of files and one that is no address
/// is read, and one of any other scheme is refused.
pub proof fn law_styles_are_got_from_where_they_are(address: Seq<char>)
    ensures
        url_parse(address) matches Ok(url) ==> {
            &&& location_of(address) == Ok::<StyleLocation, Seq<char>>(StyleLocation::Http)
                <==> url.scheme == "http"@ || url.scheme == "https"@
            &&& url.scheme == "file"@ ==> location_of(address) == Ok::<StyleLocation, Seq<char>>(
                StyleLocation::FileUrl,
            )
            &&& location_of(address) is Err <==> url.scheme != "http"@ && url.scheme != "https"@
                && url.scheme != "file"@
        },
        url_parse(address) is Err ==> location_of(address) == Ok::<StyleLocation, Seq<char>>(
            StyleLocation::Path,
        ),
{
    reveal_strlit("http");
    reveal_strlit("https");
    reveal_strlit("file");
    assert("http"@[0] == 'h' && "https"@[0] == 'h' && "file"@[0] == 'f');
}

/// A tileset is accepted just if it names tiles, at least one, and each by its address.
pub proof fn law_tilesets_name_their_tiles(json: Seq<char>)
    ensures
        tileset_fault(json) is None <==> (json_parse(json) matches Ok(tree) && json_member(
            tree,
            "tiles"@,
        ) matches Some(tiles) && tiles is Array && tiles->Array_0.len() > 0 && forall|i: int|
            0 <= i < tiles->Array_0.len() ==> #[trigger] tiles->Array_0[i] is Text),
{
}

/// The source that a request adds is the one of its layer, and tiles add none.
pub proof fn law_layers_bring_their_source(request: RenderRequest)
    ensures
        request is Tile ==> added_source(request) is None,
        request is StaticImage && request->addlayer is None ==> added_source(request) is None,
        request is StaticImage && request->addlayer is Some ==> added_source(request)
            == request->addlayer->0.source,
{
}

/// The address of a source is the text of its `url`.
pub proof fn law_sources_have_their_address(json: Seq<char>, url: Seq<char>)
    ensures
        source_url_of(json) == Ok::<Seq<char>, Seq<char>>(url) <==> (json_parse(json) matches Ok(
            tree,
        ) && json_member(tree, "url"@) == Some(JsonTree::Text(url))),
{
}

/// A failure names the style and says why, and whether asking again would help.
pub proof fn law_failures_name_style_and_cause(
    e: ProfileFetchError,
    style_id: Seq<char>,
    why: Seq<char>,
)
    ensures
        fails_for_good(e, style_id, why) ==> e.negative_cacheable && (
        e.error matches RendererError::StyleLoadFailed { style_id: id, source } && id@ == style_id
            && source@ == why),
        fails_for_now(e, style_id, why) ==> !e.negative_cacheable && (
        e.error matches RendererError::StyleLoadFailed { style_id: id, source } && id@ == style_id
            && source@ == why),
{
}

/// A style may have 2 MiB, and a tileset 1 MiB.
pub proof fn law_documents_are_limited()
    ensures
        Document::Style.most_bytes() == 2_097_152,
        Document::Tileset.most_bytes() == 1_048_576,
        Document::Style.text() == "style"@,
        Document::Tileset.text() == "tileset"@,
{
}

/// A source is rewritten just if it and the tileset are objects, the tileset's address is
/// one, and the tileset has tiles, each with an address that can be resolved. It is then a
/// vector source of these.
pub proof fn law_sources_are_rewritten_with_their_tiles(
    source: Seq<char>,
    tileset_id: Seq<char>,
    tileset_url: Seq<char>,
    safe_url: Seq<char>,
    tilejson: Seq<char>,
    original: JsonTree,
    tileset: JsonTree,
    items: Seq<JsonTree>,
    tiles: Seq<JsonTree>,
)
    requires
        json_parse(source) == Ok::<JsonTree, Seq<char>>(original),
        json_parse(tilejson) == Ok::<JsonTree, Seq<char>>(tileset),
    ensures
        original is Object && tileset is Object && url_parse(tileset_url) is Ok && json_member(
            tileset,
            "tiles"@,
        ) == Some(JsonTree::Array(items)) && items.len() > 0 && resolved_tiles(
            items,
            tileset_url,
            tileset_id,
        ) == Ok::<Seq<JsonTree>, Seq<char>>(tiles) ==> rewritten(
            source,
            tileset_id,
            tileset_url,
            safe_url,
            tilejson,
        ) == Ok::<JsonTree, Seq<char>>(vector_source(tiles, tileset, original)),
        !(original is Object) || !(tileset is Object) || url_parse(tileset_url) is Err
            || json_member(tileset, "tiles"@) is None || json_member(tileset, "tiles"@) == Some(
            JsonTree::Array(Seq::empty()),
        ) ==> rewritten(source, tileset_id, tileset_url, safe_url, tilejson) is Err,
{
}

proof fn lemma_mark_replaced(
    head: Seq<char>,
    pattern: Seq<char>,
    tail: Seq<char>,
    with: Seq<char>,
)
    requires
        pattern.len() > 0,
        !head.contains(pattern[0]),
    ensures
        replaced(head + pattern + tail, pattern, with) == head + with + replaced(
            tail,
            pattern,
            with,
        ),
{
    let s = head + pattern + tail;
    assert forall|i: int| 0 <= i < head.len() implies !begins_with(#[trigger] s.skip(i), pattern) by {
        if begins_with(s.skip(i), pattern) {
            assert(s.skip(i).take(pattern.len() as int)[0] == head[i]);
            assert(head.contains(head[i]));
        }
    }
    law_the_pattern_is_replaced(head, pattern, tail, with);
}

proof fn lemma_left_alone(s: Seq<char>, pattern: Seq<char>, with: Seq<char>)
    requires
        pattern.len() > 1,
        forall|i: int|
            0 <= i < s.len() - 1 ==> !(#[trigger] s[i] == pattern[0] && s[i + 1] == pattern[1]),
    ensures
        replaced(s, pattern, with) == s,
{
    assert forall|i: int| 0 <= i <= s.len() - pattern.len() implies #[trigger] s.subrange(
        i,
        i + pattern.len(),
    ) != pattern by {
        if s.subrange(i, i + pattern.len()) == pattern {
            assert(s.subrange(i, i + pattern.len())[0] == s[i]);
            assert(s.subrange(i, i + pattern.len())[1] == s[i + 1]);
        }
    }
    law_nothing_is_replaced_without_the_pattern(s, pattern, with);
}

/// Each placeholder of a tile address is replaced by a mark of its own, and the text
/// around the placeholders stays.
pub proof fn law_placeholders_are_protected(
    a: Seq<char>,
    b: Seq<char>,
    c: Seq<char>,
    d: Seq<char>,
)
    requires
        !a.contains('{'),
        !b.contains('{'),
        !c.contains('{'),
        !d.contains('{'),
    ensures
        protected(a + "{z}"@ + b + "{x}"@ + c + "{y}"@ + d) == a + "__BIEI_TILE_Z__"@ + b
            + "__BIEI_TILE_X__"@ + c + "__BIEI_TILE_Y__"@ + d,
{
    reveal_strlit("{z}");
    reveal_strlit("{x}");
    reveal_strlit("{y}");
    reveal_strlit("__BIEI_TILE_Z__");
    reveal_strlit("__BIEI_TILE_X__");
    reveal_strlit("__BIEI_TILE_Y__");
    let (z, x, y) = ("{z}"@, "{x}"@, "{y}"@);
    let (mz, mx, my) = ("__BIEI_TILE_Z__"@, "__BIEI_TILE_X__"@, "__BIEI_TILE_Y__"@);
    let s = a + z + b + x + c + y + d;
    let behind_z = b + x + c + y + d;
    assert(s =~= a + z + behind_z);
    lemma_none_in(b, '{');
    lemma_none_in(c, '{');
    lemma_none_in(d, '{');
    lemma_left_alone(behind_z, z, mz);
    lemma_mark_replaced(a, z, behind_z, mz);
    let before_x = a + mz + b;
    let behind_x = c + y + d;
    assert(a + mz + behind_z =~= before_x + x + behind_x);
    assert(!before_x.contains('{')) by {
        lemma_none_in(a, '{');
        lemma_none_in(mz, '{');
    }
    lemma_left_alone(behind_x, x, mx);
    lemma_mark_replaced(before_x, x, behind_x, mx);
    let before_y = before_x + mx + c;
    assert(before_x + mx + behind_x =~= before_y + y + d);
    assert(!before_y.contains('{')) by {
        lemma_none_in(before_x, '{');
        lemma_none_in(mx, '{');
    }
    lemma_left_alone(d, y, my);
    lemma_mark_replaced(before_y, y, d, my);
    assert(before_y + my + d =~= a + mz + b + mx + c + my + d);
}

proof fn lemma_none_in(s: Seq<char>, c: char)
    requires
        !s.contains(c),
    ensures
        forall|i: int| 0 <= i < s.len() ==> #[trigger] s[i] != c,
{
    assert forall|i: int| 0 <= i < s.len() implies #[trigger] s[i] != c by {
        assert(s.contains(s[i]));
    }
}

proof fn lemma_other_mark(a: Seq<char>, m: Seq<char>, b: Seq<char>, p: Seq<char>, with: Seq<char>)
    requires
        m.len() == 15,
        p.len() == 15,
        p[0] == '_',
        p[1] == '_',
        p[6] == '_',
        m[12] != p[12],
        forall|j: int|
            0 <= j < 15 && #[trigger] m[j] == '_' ==> j == 0 || j == 1 || j == 6 || j == 11 || j
                == 13 || j == 14,
        !a.contains('_'),
        !b.contains('_'),
    ensures
        replaced(a + m + b, p, with) == a + m + b,
{
    let s = a + m + b;
    let k = a.len() as int;
    lemma_none_in(a, '_');
    lemma_none_in(b, '_');
    assert forall|i: int| 0 <= i <= s.len() - p.len() implies #[trigger] s.subrange(i, i + p.len())
        != p by {
        let t = s.subrange(i, i + p.len());
        if t == p {
            assert(t[0] == s[i] && t[1] == s[i + 1] && t[6] == s[i + 6] && t[12] == s[i + 12]);
            assert(k <= i < k + 15 && s[i] == m[i - k]);
            assert(k <= i + 1 < k + 15 && s[i + 1] == m[i + 1 - k]);
            assert(k <= i + 6 < k + 15 && s[i + 6] == m[i + 6 - k]);
            assert(i == k);
            assert(s[i + 12] == m[12]);
        }
    }
    law_nothing_is_replaced_without_the_pattern(s, p, with);
}

/// Each mark becomes the placeholder again that it stands for.
pub proof fn law_placeholders_come_back(a: Seq<char>, b: Seq<char>)
    requires
        !a.contains('_'),
        !b.contains('_'),
    ensures
        unprotected(a + "__BIEI_TILE_Z__"@ + b) == a + "{z}"@ + b,
        unprotected(a + "__BIEI_TILE_X__"@ + b) == a + "{x}"@ + b,
        unprotected(a + "__BIEI_TILE_Y__"@ + b) == a + "{y}"@ + b,
        unprotected(a) == a,
{
    reveal_strlit("{z}");
    reveal_strlit("{x}");
    reveal_strlit("{y}");
    reveal_strlit("__BIEI_TILE_Z__");
    reveal_strlit("__BIEI_TILE_X__");
    reveal_strlit("__BIEI_TILE_Y__");
    let (z, x, y) = ("{z}"@, "{x}"@, "{y}"@);
    let (mz, mx, my) = ("__BIEI_TILE_Z__"@, "__BIEI_TILE_X__"@, "__BIEI_TILE_Y__"@);
    lemma_none_in(a, '_');
    lemma_none_in(b, '_');
    lemma_left_alone(a, mz, z);
    lemma_left_alone(a, mx, x);
    lemma_left_alone(a, my, y);
    lemma_left_alone(b, mz, z);
    lemma_left_alone(b, mx, x);
    lemma_left_alone(b, my, y);
    lemma_mark_replaced(a, mz, b, z);
    lemma_mark_replaced(a, mx, b, x);
    lemma_mark_replaced(a, my, b, y);
    lemma_left_alone(a + z + b, mx, x);
    lemma_left_alone(a + z + b, my, y);
    lemma_left_alone(a + x + b, my, y);
    lemma_other_mark(a, mx, b, mz, z);
    lemma_other_mark(a, my, b, mz, z);
    lemma_other_mark(a, my, b, mx, x);
}

} // verus!
