//! Fetching the resources of a style: what is asked, what is kept, and when a
//! fetch is tried again.
//!
//! Spans are in nanoseconds and dates in seconds since 1970.

use vstd::prelude::*;
use std::time::{Duration, SystemTime};
use crate::text::{numeral, numeral_text, same_text};
use crate::url::{parses, url_parses};

verus! {

/// Fetches for renders that may be under way at once, at least.
pub const DEFAULT_REGULAR_PERMITS: usize = 64;

/// Background refreshes that may be under way at once.
pub const LOW_PRIORITY_PERMITS: usize = 8;

/// Bodies that may be read at once, at least.
pub const DEFAULT_BODY_PERMITS: usize = 24;

/// Bodies that each render may read at once.
pub const BODY_PERMITS_PER_RENDER: usize = 4;

/// The longest that a background refresh waits.
pub const MAX_REFRESH_DEFERRAL: u64 = 300_000_000_000;

/// How long a missing resource is remembered.
pub const NEGATIVE_CACHE_TTL: u64 = 15_000_000_000;

/// An attempt that spent this long on the network counts as slow.
pub const SLOW_PROVIDER_ATTEMPT_THRESHOLD: u64 = 1_000_000_000;

/// The first second of the year 10000.
pub const END_OF_HTTP_DATES: u64 = 253_402_300_800;

#[derive(Clone, Copy, Debug, PartialEq, Eq, Hash, Structural)]
pub enum ResourceKind {
    Unknown,
    Style,
    Source,
    Tile,
    Glyphs,
    SpriteImage,
    SpriteJson,
    Image,
}

#[derive(Clone, Copy, Debug, PartialEq, Eq, Hash, Structural)]
pub enum Priority {
    Regular,
    Low,
}

#[derive(Clone, Copy, Debug, PartialEq, Eq, Structural)]
pub enum StoragePolicy {
    Permanent,
    Volatile,
}

/// Network time of one attempt.
#[derive(Clone, Copy, Debug, PartialEq, Eq, Structural)]
pub struct NetworkIoObservation {
    /// Whether a slow attempt is evidence against the provider.
    pub enabled: bool,
    pub elapsed: u64,
}

impl NetworkIoObservation {
    pub fn new(enabled: bool) -> (r: NetworkIoObservation)
        ensures
            r.enabled == enabled,
            r.elapsed == 0,
    {
        NetworkIoObservation { enabled, elapsed: 0 }
    }

    /// How much longer an operation may take before the attempt counts as slow;
    /// nothing if slowness is not watched.
    pub fn slow_after(&self) -> (r: Option<u64>)
        ensures
            match r {
                Some(rest) => self.enabled && rest == if self.elapsed
                    >= SLOW_PROVIDER_ATTEMPT_THRESHOLD {
                    0
                } else {
                    SLOW_PROVIDER_ATTEMPT_THRESHOLD - self.elapsed
                },
                None => !self.enabled,
            },
    {
        if self.enabled {
            Some(SLOW_PROVIDER_ATTEMPT_THRESHOLD.saturating_sub(self.elapsed))
        } else {
            None
        }
    }

    /// Adds the time of an operation.
    pub fn record(&mut self, duration: u64)
        ensures
            final(self).enabled == old(self).enabled,
            final(self).elapsed == if old(self).elapsed + duration > u64::MAX {
                u64::MAX as int
            } else {
                old(self).elapsed + duration
            },
    {
        self.elapsed = self.elapsed.saturating_add(duration);
    }

    pub fn elapsed(&self) -> (r: u64)
        ensures
            r == self.elapsed,
    {
        self.elapsed
    }
}

/// The largest body that is read of a kind of resource, in bytes.
pub open spec fn body_limit(kind: ResourceKind) -> u64 {
    match kind {
        ResourceKind::Glyphs => 4_194_304,
        ResourceKind::SpriteJson => 4_194_304,
        ResourceKind::Source => 4_194_304,
        ResourceKind::Style => 4_194_304,
        ResourceKind::Tile => 16_777_216,
        ResourceKind::SpriteImage => 16_777_216,
        ResourceKind::Image => 16_777_216,
        ResourceKind::Unknown => 8_388_608,
    }
}

/// The largest body that is read of a kind of resource.
pub fn max_resource_bytes(kind: ResourceKind) -> (r: u64)
    ensures
        r == body_limit(kind),
{
    match kind {
        ResourceKind::Glyphs
        | ResourceKind::SpriteJson
        | ResourceKind::Source
        | ResourceKind::Style => 4_194_304,
        ResourceKind::Tile | ResourceKind::SpriteImage | ResourceKind::Image => 16_777_216,
        ResourceKind::Unknown => 8_388_608,
    }
}

/// How many fetches and bodies may be under way at once.
#[derive(Clone, Copy, Debug, PartialEq, Eq, Structural)]
pub struct FileSourceIoPermits {
    pub regular: usize,
    pub body: usize,
}

pub open spec fn at_least(n: nat, least: nat) -> nat {
    if n >= least {
        n
    } else {
        least
    }
}

pub open spec fn capped_at_max(n: nat) -> nat {
    if n > usize::MAX {
        usize::MAX as nat
    } else {
        n
    }
}

fn no_less(n: usize, least: usize) -> (r: usize)
    ensures
        r == at_least(n as nat, least as nat),
{
    if n >= least {
        n
    } else {
        least
    }
}

fn times(n: usize, k: usize) -> (r: usize)
    ensures
        r == capped_at_max((n * k) as nat),
{
    match n.checked_mul(k) {
        Some(p) => p,
        None => usize::MAX,
    }
}

impl Default for FileSourceIoPermits {
    fn default() -> (r: FileSourceIoPermits)
        ensures
            r == (FileSourceIoPermits {
                regular: DEFAULT_REGULAR_PERMITS,
                body: DEFAULT_BODY_PERMITS,
            }),
    {
        FileSourceIoPermits { regular: DEFAULT_REGULAR_PERMITS, body: DEFAULT_BODY_PERMITS }
    }
}

impl FileSourceIoPermits {
    /// The permits of a node on which so many renders may execute.
    pub fn for_render_permits(render_permits: usize) -> (r: FileSourceIoPermits)
        ensures
            r.body == at_least(
                capped_at_max((render_permits * BODY_PERMITS_PER_RENDER) as nat),
                DEFAULT_BODY_PERMITS as nat,
            ),
            r.regular == at_least(
                capped_at_max((r.body * 2) as nat),
                DEFAULT_REGULAR_PERMITS as nat,
            ),
    {
        let body: usize = no_less(
            times(render_permits, BODY_PERMITS_PER_RENDER),
            DEFAULT_BODY_PERMITS,
        );
        let regular: usize = no_less(times(body, 2), DEFAULT_REGULAR_PERMITS);
        FileSourceIoPermits { regular, body }
    }

    /// At least one of each, and never fewer fetches than bodies.
    pub fn clamped(self) -> (r: FileSourceIoPermits)
        ensures
            r.body == at_least(self.body as nat, 1),
            r.regular == at_least(at_least(self.regular as nat, self.body as nat), 1),
            1 <= r.body <= r.regular,
    {
        FileSourceIoPermits {
            regular: no_less(no_less(self.regular, self.body), 1),
            body: no_less(self.body, 1),
        }
    }
}

/// A tile of a tileset.
#[derive(Clone, Debug, PartialEq, Eq, Hash)]
pub struct ResourceTileKey {
    pub url_template: String,
    pub pixel_ratio: u8,
    pub x: i32,
    pub y: i32,
    pub z: i8,
}

/// What identifies a resource.
#[derive(Clone, Debug, PartialEq, Eq, Hash)]
pub struct ResourceRequestKey {
    pub url: String,
    pub kind: &'static str,
    pub range: Option<(u64, u64)>,
    pub tile: Option<ResourceTileKey>,
}

/// A request for a resource.
#[derive(Debug)]
pub struct ResourceRequest {
    pub url: String,
    pub kind: ResourceKind,
    pub priority: Priority,
    pub storage_policy: StoragePolicy,
    pub has_cache: bool,
    pub has_network: bool,
    /// The first and the last byte that are asked for.
    pub data_range: Option<(u64, u64)>,
    pub tile: Option<ResourceTileKey>,
    pub minimum_update_interval: u64,
}

pub open spec fn kind_text(kind: ResourceKind) -> Seq<char> {
    match kind {
        ResourceKind::Unknown => "unknown"@,
        ResourceKind::Style => "style"@,
        ResourceKind::Source => "source"@,
        ResourceKind::Tile => "tile"@,
        ResourceKind::Glyphs => "glyphs"@,
        ResourceKind::SpriteImage => "sprite_image"@,
        ResourceKind::SpriteJson => "sprite_json"@,
        ResourceKind::Image => "image"@,
    }
}

/// How a kind is written in keys and labels.
pub fn kind_label(kind: ResourceKind) -> (r: &'static str)
    ensures
        r@ == kind_text(kind),
{
    match kind {
        ResourceKind::Unknown => "unknown",
        ResourceKind::Style => "style",
        ResourceKind::Source => "source",
        ResourceKind::Tile => "tile",
        ResourceKind::Glyphs => "glyphs",
        ResourceKind::SpriteImage => "sprite_image",
        ResourceKind::SpriteJson => "sprite_json",
        ResourceKind::Image => "image",
    }
}

impl ResourceTileKey {
    fn copied(&self) -> (r: ResourceTileKey)
        ensures
            r == *self,
    {
        ResourceTileKey {
            url_template: self.url_template.clone(),
            pixel_ratio: self.pixel_ratio,
            x: self.x,
            y: self.y,
            z: self.z,
        }
    }
}

impl ResourceRequestKey {
    /// The key of a request.
    pub fn from_request(request: &ResourceRequest) -> (r: ResourceRequestKey)
        ensures
            r.url == request.url,
            r.kind@ == kind_text(request.kind),
            r.range == request.data_range,
            r.tile == request.tile,
    {
        ResourceRequestKey {
            url: request.url.clone(),
            kind: kind_label(request.kind),
            range: request.data_range,
            tile: match &request.tile {
                Some(tile) => Some(tile.copied()),
                None => None,
            },
        }
    }
}

/// What was known of a resource before.
#[derive(Clone, Debug)]
pub struct PriorResponse {
    pub etag: Option<String>,
    pub modified: Option<u64>,
}

/// What a provider can compare its resource with.
#[derive(Debug, PartialEq, Eq)]
pub enum ConditionalValidator {
    Etag(String),
    Modified(u64),
}

pub open spec fn validator_of(prior: PriorResponse) -> Option<ConditionalValidator> {
    match prior.etag {
        Some(etag) => Some(ConditionalValidator::Etag(etag)),
        None => match prior.modified {
            Some(date) => Some(ConditionalValidator::Modified(date)),
            None => None,
        },
    }
}

/// An entity tag is preferred to a date.
pub fn conditional_validator(prior: &PriorResponse) -> (r: Option<ConditionalValidator>)
    ensures
        r == validator_of(*prior),
{
    match &prior.etag {
        Some(etag) => Some(ConditionalValidator::Etag(etag.clone())),
        None => match prior.modified {
            Some(date) => Some(ConditionalValidator::Modified(date)),
            None => None,
        },
    }
}

/// What `httpdate::fmt_http_date` writes of a date, given in seconds since 1970.
pub uninterp spec fn http_date(date: u64) -> Seq<char>;

/// `httpdate::fmt_http_date`: a date in the form of HTTP headers. Panics from the
/// year 10000 on.
#[verifier::external_body]
fn fmt_http_date(date: u64) -> (r: String)
    requires
        date < END_OF_HTTP_DATES,
    ensures
        r@ == http_date(date),
{
    httpdate::fmt_http_date(SystemTime::UNIX_EPOCH + Duration::from_secs(date))
}

/// A header of a request.
#[derive(Debug, PartialEq, Eq)]
pub struct Header {
    pub name: &'static str,
    pub value: String,
}

pub open spec fn header_views(headers: Seq<Header>) -> Seq<(Seq<char>, Seq<char>)> {
    Seq::new(headers.len(), |i: int| (headers[i].name@, headers[i].value@))
}

/// The range header of a request.
pub open spec fn range_header(range: Option<(u64, u64)>) -> Seq<(Seq<char>, Seq<char>)> {
    match range {
        Some((first, last)) => seq![
            ("range"@, "bytes="@ + numeral(first as nat) + "-"@ + numeral(last as nat)),
        ],
        None => Seq::empty(),
    }
}

/// The header that makes a request conditional, given how dates are written.
pub open spec fn validator_header(
    validator: Option<ConditionalValidator>,
    written: spec_fn(u64) -> Seq<char>,
) -> Seq<(Seq<char>, Seq<char>)> {
    match validator {
        Some(ConditionalValidator::Etag(etag)) => seq![("if-none-match"@, etag@)],
        Some(ConditionalValidator::Modified(date)) => seq![("if-modified-since"@, written(date))],
        None => Seq::empty(),
    }
}

/// The headers of a request: its range, and the validator of what is known.
pub fn request_headers(range: Option<(u64, u64)>, prior: &PriorResponse) -> (r: Vec<Header>)
    requires
        prior.modified matches Some(date) ==> date < END_OF_HTTP_DATES,
    ensures
        header_views(r@) == range_header(range) + validator_header(
            validator_of(*prior),
            |date: u64| http_date(date),
        ),
{
    let mut out: Vec<Header> = Vec::new();
    if let Some((first, last)) = range {
        let mut value = String::new();
        value.push_str("bytes=");
        value.push_str(numeral_text(first as u128).as_str());
        value.push_str("-");
        value.push_str(numeral_text(last as u128).as_str());
        assert(value@ =~= "bytes="@ + numeral(first as nat) + "-"@ + numeral(last as nat));
        out.push(Header { name: "range", value });
    }
    assert(header_views(out@) =~= range_header(range));
    match conditional_validator(prior) {
        Some(ConditionalValidator::Etag(etag)) => {
            out.push(Header { name: "if-none-match", value: etag });
        },
        Some(ConditionalValidator::Modified(date)) => {
            out.push(Header { name: "if-modified-since", value: fmt_http_date(date) });
        },
        None => {},
    }
    assert(header_views(out@) =~= range_header(range) + validator_header(
        validator_of(*prior),
        |date: u64| http_date(date),
    ));
    out
}

/// Only permanent resources are shared between renderers.
pub fn uses_shared_cache(storage_policy: StoragePolicy) -> (r: bool)
    ensures
        r == (storage_policy == StoragePolicy::Permanent),
{
    match storage_policy {
        StoragePolicy::Permanent => true,
        StoragePolicy::Volatile => false,
    }
}

/// Background refreshes say nothing of a provider's health.
pub fn tracks_provider_health(priority: Priority) -> (r: bool)
    ensures
        r == (priority != Priority::Low),
{
    match priority {
        Priority::Low => false,
        Priority::Regular => true,
    }
}

/// A request that excludes the cache does not read the shared one either.
pub fn may_consult_shared_cache(storage_policy: StoragePolicy, cache_loading_allowed: bool) -> (r:
    bool)
    ensures
        r == (cache_loading_allowed && storage_policy == StoragePolicy::Permanent),
{
    cache_loading_allowed && uses_shared_cache(storage_policy)
}

/// Whether the network leaf takes a request: it loads from the network, and from
/// a URL that parses and that the policy permits.
pub fn can_request(request: &ResourceRequest, permitted: bool) -> (r: bool)
    ensures
        r == (request.has_network && url_parses(request.url@) && permitted),
{
    request.has_network && parses(request.url.as_str()) && permitted
}

/// What becomes of a redirect.
#[derive(Clone, Copy, Debug, PartialEq, Eq, Structural)]
pub enum RedirectStep {
    Follow,
    TooMany,
    Blocked,
}

/// Redirects that are followed for one resource.
pub const MAX_REDIRECTS: usize = 10;

/// Decides on a redirect after `previous` URLs were visited, by whether the
/// policy permits its target.
pub fn redirect_step(previous: usize, permitted: bool) -> (r: RedirectStep)
    ensures
        r == if previous >= MAX_REDIRECTS {
            RedirectStep::TooMany
        } else if permitted {
            RedirectStep::Follow
        } else {
            RedirectStep::Blocked
        },
{
    if previous >= MAX_REDIRECTS {
        RedirectStep::TooMany
    } else if permitted {
        RedirectStep::Follow
    } else {
        RedirectStep::Blocked
    }
}

/// What becomes of the cached resource.
#[derive(Clone, Copy, Debug, PartialEq, Eq, Structural)]
pub enum CachePolicy {
    Store,
    Remove,
    Unchanged,
}

/// Why and when a fetch is tried again.
#[derive(Clone, Copy, Debug, PartialEq, Eq)]
pub struct RetryDirective {
    pub reason: &'static str,
    /// The provider's own delay, if it gave one.
    pub delay: Option<u64>,
}

/// What a fetch gives back.
#[derive(Debug, PartialEq, Eq)]
pub enum FetchReply {
    /// The provider's answer, with the body that was read.
    Http { status: u16, body: Vec<u8> },
    TransportError,
    TimedOut,
    Error(String),
}

/// One attempt to fetch a resource.
#[derive(Debug, PartialEq, Eq)]
pub struct FetchAttempt {
    pub response: FetchReply,
    pub retry: Option<RetryDirective>,
    pub negative_cache_ttl: Option<u64>,
    pub cache_policy: CachePolicy,
    /// Whether the cache takes the materialized resource in place of the
    /// response.
    pub cache_materialized: bool,
}

impl FetchAttempt {
    pub open spec fn finished(response: FetchReply, cache_policy: CachePolicy) -> FetchAttempt {
        FetchAttempt {
            response,
            retry: None,
            negative_cache_ttl: None,
            cache_policy,
            cache_materialized: false,
        }
    }

    /// A failure with this text that is not tried again and changes no cache.
    pub open spec fn is_error(self, text: Seq<char>) -> bool {
        &&& self.response matches FetchReply::Error(message) && message@ == text
        &&& self.retry is None
        &&& self.negative_cache_ttl is None
        &&& self.cache_policy == CachePolicy::Unchanged
        &&& !self.cache_materialized
    }

    pub fn done(response: FetchReply) -> (r: FetchAttempt)
        ensures
            r == FetchAttempt::finished(response, CachePolicy::Unchanged),
    {
        FetchAttempt::done_with_cache(response, CachePolicy::Unchanged)
    }

    pub fn done_with_cache(response: FetchReply, cache_policy: CachePolicy) -> (r: FetchAttempt)
        ensures
            r == FetchAttempt::finished(response, cache_policy),
    {
        FetchAttempt {
            response,
            retry: None,
            negative_cache_ttl: None,
            cache_policy,
            cache_materialized: false,
        }
    }

    pub fn retryable(response: FetchReply, reason: &'static str, delay: Option<u64>) -> (r:
        FetchAttempt)
        ensures
            r == (FetchAttempt {
                retry: Some(RetryDirective { reason, delay }),
                ..FetchAttempt::finished(response, CachePolicy::Unchanged)
            }),
    {
        FetchAttempt {
            response,
            retry: Some(RetryDirective { reason, delay }),
            negative_cache_ttl: None,
            cache_policy: CachePolicy::Unchanged,
            cache_materialized: false,
        }
    }
}

fn error_attempt(text: String) -> (r: FetchAttempt)
    ensures
        r.is_error(text@),
{
    FetchAttempt::done(FetchReply::Error(text))
}

/// An attempt that broke off on the network, before or within its body: it is
/// tried again.
pub fn interrupted(timed_out: bool) -> (r: FetchAttempt)
    ensures
        r.retry is Some,
        r.retry->0.delay is None,
        r.retry->0.reason@ == if timed_out {
            "timeout"@
        } else {
            "transport"@
        },
        r.response == if timed_out {
            FetchReply::TimedOut
        } else {
            FetchReply::TransportError
        },
        r.negative_cache_ttl is None,
        r.cache_policy == CachePolicy::Unchanged,
        !r.cache_materialized,
{
    if timed_out {
        FetchAttempt::retryable(FetchReply::TimedOut, "timeout", None)
    } else {
        FetchAttempt::retryable(FetchReply::TransportError, "transport", None)
    }
}

/// How an attempt is counted: by why it is tried again, or else by its response.
pub fn attempt_outcome(retry: Option<RetryDirective>, response_label: &'static str) -> (r:
    &'static str)
    ensures
        r == match retry {
            Some(directive) => directive.reason,
            None => response_label,
        },
{
    match retry {
        Some(directive) => directive.reason,
        None => response_label,
    }
}

/// The head of a provider's answer, and what its headers amount to.
#[derive(Clone, Copy, Debug, PartialEq, Eq)]
pub struct ResponseHead {
    pub status: u16,
    pub content_length: Option<u64>,
    /// Whether the status and headers ask for another try.
    pub retry: Option<RetryDirective>,
    /// How long the headers let the absence of the resource be remembered.
    pub negative_cache_ttl: Option<u64>,
    /// What the headers let become of the cached resource.
    pub cache_policy: CachePolicy,
    /// Whether what was known can stand in for a body that was not sent.
    pub materialized: bool,
}

/// The attempt of an unchanged resource.
pub open spec fn not_modified(head: ResponseHead, has_validator: bool, r: FetchAttempt) -> bool {
    if head.materialized {
        &&& r.response matches FetchReply::Http { status, body } && status == 304 && body@.len()
            == 0
        &&& r.retry is None
        &&& r.negative_cache_ttl is None
        &&& r.cache_policy == head.cache_policy
        &&& r.cache_materialized
    } else if has_validator {
        &&& r.response matches FetchReply::Http { status, body } && status == 304 && body@.len()
            == 0
        &&& r.retry is None
        &&& r.negative_cache_ttl is None
        &&& r.cache_policy == CachePolicy::Unchanged
        &&& !r.cache_materialized
    } else {
        r.is_error("HTTP 304 received without a prior validator"@)
    }
}

/// What to make of an answer that says that nothing changed.
pub fn not_modified_attempt(head: ResponseHead, has_validator: bool) -> (r: FetchAttempt)
    ensures
        not_modified(head, has_validator, r),
{
    if head.materialized {
        FetchAttempt {
            response: FetchReply::Http { status: 304, body: Vec::new() },
            retry: None,
            negative_cache_ttl: None,
            cache_policy: head.cache_policy,
            cache_materialized: true,
        }
    } else if has_validator {
        FetchAttempt::done(FetchReply::Http { status: 304, body: Vec::new() })
    } else {
        error_attempt("HTTP 304 received without a prior validator".to_owned())
    }
}

/// The attempt of an answer that carries no resource.
pub open spec fn unsuccessful(head: ResponseHead, r: FetchAttempt) -> bool {
    &&& r.response matches FetchReply::Http { status, body } && status == head.status
        && body@.len() == 0
    &&& r.retry == head.retry
    &&& r.negative_cache_ttl == if head.retry is Some {
        None
    } else {
        head.negative_cache_ttl
    }
    &&& r.cache_policy == CachePolicy::Unchanged
    &&& !r.cache_materialized
}

/// Reads a body up to a limit.
#[derive(Debug)]
pub struct BodyReader {
    pub limit: u64,
    pub status: u16,
    pub cache_policy: CachePolicy,
    pub received: Vec<u8>,
}

/// What follows the head of an answer.
#[derive(Debug)]
pub enum HeadStep {
    Done(FetchAttempt),
    ReadBody(BodyReader),
}

/// Decides on an answer by its head: an unchanged resource, a failure, a body
/// that says it is too large, or a body to read.
pub fn on_head(kind: ResourceKind, head: ResponseHead, prior: &PriorResponse) -> (r: HeadStep)
    ensures
        match r {
            HeadStep::Done(attempt) => if head.status == 304 {
                not_modified(head, prior.etag is Some || prior.modified is Some, attempt)
            } else if head.status != 200 && head.status != 206 {
                unsuccessful(head, attempt)
            } else {
                head.content_length matches Some(length) && length > body_limit(kind)
                    && attempt.is_error(
                    "resource body too large: "@ + numeral(length as nat) + " bytes"@,
                )
            },
            HeadStep::ReadBody(reader) => {
                &&& head.status == 200 || head.status == 206
                &&& head.content_length matches Some(length) ==> length <= body_limit(kind)
                &&& reader.limit == body_limit(kind)
                &&& reader.status == head.status
                &&& reader.cache_policy == head.cache_policy
                &&& reader.received@.len() == 0
            },
        },
{
    if head.status == 304 {
        let has_validator = prior.etag.is_some() || prior.modified.is_some();
        return HeadStep::Done(not_modified_attempt(head, has_validator));
    }
    if head.status != 200 && head.status != 206 {
        let negative_cache_ttl: Option<u64> = if head.retry.is_some() {
            None
        } else {
            head.negative_cache_ttl
        };
        return HeadStep::Done(
            FetchAttempt {
                response: FetchReply::Http { status: head.status, body: Vec::new() },
                retry: head.retry,
                negative_cache_ttl,
                cache_policy: CachePolicy::Unchanged,
                cache_materialized: false,
            },
        );
    }
    let limit: u64 = max_resource_bytes(kind);
    if let Some(length) = head.content_length {
        if length > limit {
            let mut text = String::new();
            text.push_str("resource body too large: ");
            text.push_str(numeral_text(length as u128).as_str());
            text.push_str(" bytes");
            assert(text@ =~= "resource body too large: "@ + numeral(length as nat) + " bytes"@);
            return HeadStep::Done(error_attempt(text));
        }
    }
    HeadStep::ReadBody(
        BodyReader {
            limit,
            status: head.status,
            cache_policy: head.cache_policy,
            received: Vec::new(),
        },
    )
}

impl BodyReader {
    /// What was received is within the limit.
    pub open spec fn wf(&self) -> bool {
        self.received@.len() <= self.limit <= 16_777_216
    }

    /// Takes a piece of the body. A body that grows beyond the limit ends the
    /// attempt, and nothing of the piece is kept.
    pub fn on_chunk(&mut self, chunk: &Vec<u8>) -> (r: Option<FetchAttempt>)
        requires
            old(self).wf(),
        ensures
            final(self).wf(),
            final(self).limit == old(self).limit,
            final(self).status == old(self).status,
            final(self).cache_policy == old(self).cache_policy,
            match r {
                None => old(self).received@.len() + chunk@.len() <= old(self).limit && final(
                    self).received@ == old(self).received@ + chunk@,
                Some(attempt) => old(self).received@.len() + chunk@.len() > old(self).limit
                    && final(self).received@ == old(self).received@ && attempt.is_error(
                    if old(self).received@.len() + chunk@.len() > usize::MAX {
                        "resource body too large"@
                    } else {
                        "resource body exceeds "@ + numeral(old(self).limit as nat) + " bytes"@
                    },
                ),
            },
    {
        let new_len: usize = match self.received.len().checked_add(chunk.len()) {
            Some(n) => n,
            None => {
                return Some(error_attempt("resource body too large".to_owned()));
            },
        };
        if new_len > self.limit as usize {
            let mut text = String::new();
            text.push_str("resource body exceeds ");
            text.push_str(numeral_text(self.limit as u128).as_str());
            text.push_str(" bytes");
            assert(text@ =~= "resource body exceeds "@ + numeral(self.limit as nat) + " bytes"@);
            return Some(error_attempt(text));
        }
        let ghost before = self.received@;
        let mut i: usize = 0;
        while i < chunk.len()
            invariant
                i <= chunk@.len(),
                self.received@ == before + chunk@.take(i as int),
                self.limit == old(self).limit,
                self.status == old(self).status,
                self.cache_policy == old(self).cache_policy,
            decreases chunk.len() - i,
        {
            self.received.push(chunk[i]);
            i += 1;
            assert(self.received@ =~= before + chunk@.take(i as int));
        }
        assert(chunk@.take(i as int) =~= chunk@);
        None
    }

    /// The body is complete.
    pub fn finish(self) -> (r: FetchAttempt)
        ensures
            r == FetchAttempt::finished(
                FetchReply::Http { status: self.status, body: self.received },
                self.cache_policy,
            ),
    {
        FetchAttempt::done_with_cache(
            FetchReply::Http { status: self.status, body: self.received },
            self.cache_policy,
        )
    }
}

/// The pieces of a body, joined.
pub open spec fn joined(chunks: Seq<Seq<u8>>) -> Seq<u8>
    decreases chunks.len(),
{
    if chunks.len() == 0 {
        Seq::empty()
    } else {
        joined(chunks.drop_last()) + chunks.last()
    }
}

/// What a reader that took every piece has received is the pieces, joined.
pub proof fn law_body_is_its_chunks(chunks: Seq<Seq<u8>>, received: Seq<u8>, chunk: Seq<u8>)
    requires
        received == joined(chunks),
    ensures
        received + chunk == joined(chunks.push(chunk)),
{
    assert(chunks.push(chunk).drop_last() =~= chunks);
}

/// How long fetches are tried again.
#[derive(Clone, Copy, Debug, PartialEq, Eq, Structural)]
pub struct RetryLimits {
    /// The longest wait before another try.
    pub max_delay: u64,
    /// No try starts later than this after the first.
    pub window: u64,
}

/// What follows an attempt.
#[derive(Clone, Copy, Debug, PartialEq, Eq, Structural)]
pub enum RetryStep {
    /// The attempt is the last one.
    Finish,
    /// Try again after this time.
    Wait { delay: u64 },
}

/// The wait before another try, given the library's own backoff.
pub open spec fn wait_of(retry: RetryDirective, backoff: u64, limits: RetryLimits) -> u64 {
    let asked = match retry.delay {
        Some(delay) => delay,
        None => backoff,
    };
    if asked <= limits.max_delay {
        asked
    } else {
        limits.max_delay
    }
}

/// What follows an attempt that ended `elapsed` after the first began.
pub open spec fn step_after(
    retry: Option<RetryDirective>,
    elapsed: u64,
    backoff: u64,
    limits: RetryLimits,
) -> RetryStep {
    match retry {
        None => RetryStep::Finish,
        Some(directive) => {
            let delay = wait_of(directive, backoff, limits);
            let end = if elapsed + delay > u64::MAX {
                u64::MAX as int
            } else {
                elapsed + delay
            };
            if end > limits.window {
                RetryStep::Finish
            } else {
                RetryStep::Wait { delay }
            }
        },
    }
}

/// Decides whether to try again.
pub fn after_attempt(
    retry: Option<RetryDirective>,
    elapsed: u64,
    backoff: u64,
    limits: RetryLimits,
) -> (r: RetryStep)
    ensures
        r == step_after(retry, elapsed, backoff, limits),
{
    match retry {
        None => RetryStep::Finish,
        Some(directive) => {
            let asked: u64 = directive.delay.unwrap_or(backoff);
            let delay: u64 = if asked <= limits.max_delay {
                asked
            } else {
                limits.max_delay
            };
            if elapsed.saturating_add(delay) > limits.window {
                RetryStep::Finish
            } else {
                RetryStep::Wait { delay }
            }
        },
    }
}

/// No wait is longer than the longest one, and none ends after the window.
pub proof fn law_retries_end_with_the_window(
    retry: Option<RetryDirective>,
    elapsed: u64,
    backoff: u64,
    limits: RetryLimits,
)
    requires
        limits.window < u64::MAX,
    ensures
        step_after(retry, elapsed, backoff, limits) matches RetryStep::Wait { delay } ==> delay
            <= limits.max_delay && elapsed + delay <= limits.window,
{
}

/// How long a failed attempt is remembered in the negative cache, if it is.
pub open spec fn remembered(ttl: Option<u64>, storage_policy: StoragePolicy) -> Option<u64> {
    if storage_policy == StoragePolicy::Permanent {
        ttl
    } else {
        None
    }
}

/// What follows an attempt of a fetch.
#[derive(Clone, Copy, Debug, PartialEq, Eq, Structural)]
pub struct LoopStep {
    /// How long to remember that the resource is missing.
    pub remember: Option<u64>,
    pub next: RetryStep,
}

/// A fetch that is tried until a definite answer.
#[derive(Clone, Copy, Debug, PartialEq, Eq, Structural)]
pub struct FetchLoop {
    pub priority: Priority,
    pub storage_policy: StoragePolicy,
    /// The attempts that were tried again.
    pub attempt_index: usize,
    /// Whether a try again stands as evidence against the provider.
    pub evidence: bool,
}

impl FetchLoop {
    pub fn new(priority: Priority, storage_policy: StoragePolicy) -> (r: FetchLoop)
        ensures
            r == (FetchLoop { priority, storage_policy, attempt_index: 0, evidence: false }),
    {
        FetchLoop { priority, storage_policy, attempt_index: 0, evidence: false }
    }

    /// Only the first attempt of a fetch for a render watches for slowness.
    pub fn watches_slowness(&self) -> (r: bool)
        ensures
            r == (self.attempt_index == 0 && self.priority != Priority::Low),
    {
        self.attempt_index == 0 && tracks_provider_health(self.priority)
    }

    /// Decides what follows an attempt that ended `elapsed` after the first
    /// began.
    pub fn on_attempt(
        &mut self,
        attempt: &FetchAttempt,
        elapsed: u64,
        backoff: u64,
        limits: RetryLimits,
    ) -> (r: LoopStep)
        requires
            old(self).attempt_index < usize::MAX,
        ensures
            r.remember == remembered(attempt.negative_cache_ttl, old(self).storage_policy),
            r.next == step_after(attempt.retry, elapsed, backoff, limits),
            final(self).priority == old(self).priority,
            final(self).storage_policy == old(self).storage_policy,
            final(self).attempt_index == old(self).attempt_index + if r.next is Wait {
                1int
            } else {
                0
            },
            final(self).evidence == (old(self).evidence || attempt.retry is Some
                && old(self).priority != Priority::Low),
    {
        let remember: Option<u64> = if uses_shared_cache(self.storage_policy) {
            attempt.negative_cache_ttl
        } else {
            None
        };
        if attempt.retry.is_some() && tracks_provider_health(self.priority) {
            self.evidence = true;
        }
        let next = after_attempt(attempt.retry, elapsed, backoff, limits);
        match next {
            RetryStep::Wait { delay: _ } => {
                self.attempt_index = self.attempt_index + 1;
            },
            RetryStep::Finish => {},
        }
        LoopStep { remember, next }
    }
}

/// What the resource cache does with the last attempt.
#[derive(Clone, Copy, Debug, PartialEq, Eq, Structural)]
pub enum CacheAction {
    StoreMaterialized,
    StoreResponse,
    Invalidate,
    Keep,
}

pub open spec fn cache_action_of(policy: CachePolicy, materialized: bool) -> CacheAction {
    match policy {
        CachePolicy::Store => if materialized {
            CacheAction::StoreMaterialized
        } else {
            CacheAction::StoreResponse
        },
        CachePolicy::Remove => CacheAction::Invalidate,
        CachePolicy::Unchanged => CacheAction::Keep,
    }
}

/// What the resource cache does with the last attempt.
pub fn finish_fetch(attempt: &FetchAttempt) -> (r: CacheAction)
    ensures
        r == cache_action_of(attempt.cache_policy, attempt.cache_materialized),
{
    match attempt.cache_policy {
        CachePolicy::Store => {
            if attempt.cache_materialized {
                CacheAction::StoreMaterialized
            } else {
                CacheAction::StoreResponse
            }
        },
        CachePolicy::Remove => CacheAction::Invalidate,
        CachePolicy::Unchanged => CacheAction::Keep,
    }
}

/// How long a background refresh waits.
#[derive(Clone, Copy, Debug, PartialEq, Eq, Structural)]
pub struct RefreshDeferral {
    pub wait: u64,
    /// Whether the wait was cut short.
    pub capped: bool,
}

/// The wait that expiry and the least interval ask for, cut at the longest one.
pub open spec fn deferral_of(expires: u64, now: u64, minimum_update_interval: u64) -> RefreshDeferral {
    let until = if expires >= now {
        (expires - now) as u64
    } else {
        0
    };
    let asked = if until >= minimum_update_interval {
        until
    } else {
        minimum_update_interval
    };
    RefreshDeferral {
        wait: if asked > MAX_REFRESH_DEFERRAL {
            MAX_REFRESH_DEFERRAL
        } else {
            asked
        },
        capped: asked > MAX_REFRESH_DEFERRAL,
    }
}

/// How long to wait before a background refresh.
pub fn refresh_deferral(expires: u64, now: u64, minimum_update_interval: u64) -> (r:
    RefreshDeferral)
    ensures
        r == deferral_of(expires, now, minimum_update_interval),
        r.wait <= MAX_REFRESH_DEFERRAL,
{
    let until: u64 = expires.saturating_sub(now);
    let asked: u64 = if until >= minimum_update_interval {
        until
    } else {
        minimum_update_interval
    };
    let capped = asked > MAX_REFRESH_DEFERRAL;
    RefreshDeferral {
        wait: if capped {
            MAX_REFRESH_DEFERRAL
        } else {
            asked
        },
        capped,
    }
}

/// After the wait: the refresh is answered as unchanged, with this expiry, if
/// the wait was cut short or the resource is fresh by now; otherwise it is
/// fetched.
pub fn complete_deferred_refresh(deferral: RefreshDeferral, current_expires: Option<u64>) -> (r:
    Option<Option<u64>>)
    ensures
        r == if deferral.capped || current_expires is Some {
            Some(current_expires)
        } else {
            None
        },
{
    if !deferral.capped && current_expires.is_none() {
        None
    } else {
        Some(current_expires)
    }
}

/// Whether a request reads the caches before the network.
pub open spec fn reads_caches(request: ResourceRequest) -> bool {
    request.storage_policy == StoragePolicy::Permanent && request.has_cache
}

/// What a request does once it is not deferred.
#[derive(Clone, Copy, Debug, PartialEq, Eq, Structural)]
pub enum RequestStep {
    /// The resource is known to be missing.
    AnswerNegative,
    /// Forget that the resource was missing, and fetch it.
    ForgetNegativeAndFetch,
    Fetch,
}

/// A fresh resource is deferred.
pub fn first_step(request: &ResourceRequest, fresh_until: Option<u64>, now: u64) -> (r: Option<
    RefreshDeferral,
>)
    ensures
        r == if reads_caches(*request) && fresh_until is Some {
            Some(deferral_of(fresh_until->0, now, request.minimum_update_interval))
        } else {
            None
        },
{
    if uses_shared_cache(request.storage_policy) && request.has_cache {
        match fresh_until {
            Some(expires) => Some(refresh_deferral(expires, now, request.minimum_update_interval)),
            None => None,
        }
    } else {
        None
    }
}

/// A resource that is known to be missing is not fetched until the knowledge
/// expires.
pub fn negative_step(request: &ResourceRequest, negative_expires: Option<u64>, now: u64) -> (r:
    RequestStep)
    ensures
        r == if !reads_caches(*request) || negative_expires is None {
            RequestStep::Fetch
        } else if negative_expires->0 > now {
            RequestStep::AnswerNegative
        } else {
            RequestStep::ForgetNegativeAndFetch
        },
{
    if uses_shared_cache(request.storage_policy) && request.has_cache {
        match negative_expires {
            Some(expires) => {
                if expires > now {
                    RequestStep::AnswerNegative
                } else {
                    RequestStep::ForgetNegativeAndFetch
                }
            },
            None => RequestStep::Fetch,
        }
    } else {
        RequestStep::Fetch
    }
}

/// What sets fetches apart: the resource, and how it is asked for.
#[derive(Debug)]
pub struct FlightKey {
    pub resource: ResourceRequestKey,
    pub persistent: bool,
    pub priority: Priority,
    /// What else of the request the provider sees, as text.
    pub semantics: String,
}

/// A tile, by its template and place.
pub struct TileView {
    pub url_template: Seq<char>,
    pub pixel_ratio: u8,
    pub x: i32,
    pub y: i32,
    pub z: i8,
}

/// The model of a flight key.
pub struct FlightKeyView {
    pub url: Seq<char>,
    pub kind: Seq<char>,
    pub range: Option<(u64, u64)>,
    pub tile: Option<TileView>,
    pub persistent: bool,
    pub priority: Priority,
    pub semantics: Seq<char>,
}

pub open spec fn tile_view(tile: ResourceTileKey) -> TileView {
    TileView {
        url_template: tile.url_template@,
        pixel_ratio: tile.pixel_ratio,
        x: tile.x,
        y: tile.y,
        z: tile.z,
    }
}

impl View for FlightKey {
    type V = FlightKeyView;

    open spec fn view(&self) -> FlightKeyView {
        FlightKeyView {
            url: self.resource.url@,
            kind: self.resource.kind@,
            range: self.resource.range,
            tile: match self.resource.tile {
                Some(tile) => Some(tile_view(tile)),
                None => None,
            },
            persistent: self.persistent,
            priority: self.priority,
            semantics: self.semantics@,
        }
    }
}

fn same_range(a: Option<(u64, u64)>, b: Option<(u64, u64)>) -> (r: bool)
    ensures
        r == (a == b),
{
    match (a, b) {
        (Some(p), Some(q)) => p.0 == q.0 && p.1 == q.1,
        (None, None) => true,
        _ => false,
    }
}

fn same_tile(a: &Option<ResourceTileKey>, b: &Option<ResourceTileKey>) -> (r: bool)
    ensures
        r == match (*a, *b) {
            (Some(p), Some(q)) => tile_view(p) == tile_view(q),
            (None, None) => true,
            _ => false,
        },
{
    match (a, b) {
        (Some(p), Some(q)) => same_text(p.url_template.as_str(), q.url_template.as_str())
            && p.pixel_ratio == q.pixel_ratio && p.x == q.x && p.y == q.y && p.z == q.z,
        (None, None) => true,
        _ => false,
    }
}

impl FlightKey {
    /// Whether two requests can share one fetch.
    pub fn same(&self, other: &FlightKey) -> (r: bool)
        ensures
            r == (self@ == other@),
    {
        same_text(self.resource.url.as_str(), other.resource.url.as_str())
            && same_text(self.resource.kind, other.resource.kind)
            && same_range(self.resource.range, other.resource.range)
            && same_tile(&self.resource.tile, &other.resource.tile)
            && self.persistent == other.persistent && self.priority == other.priority
            && same_text(self.semantics.as_str(), other.semantics.as_str())
    }
}

/// The fetches under way.
#[derive(Debug)]
pub struct FlightTable {
    keys: Vec<FlightKey>,
}

/// What a request becomes of a fetch.
#[derive(Clone, Copy, Debug, PartialEq, Eq, Structural)]
pub enum FlightRole {
    /// It fetches.
    Leader,
    /// It waits for the leader's response.
    Waiter,
}

impl FlightTable {
    /// The keys under way.
    pub closed spec fn flying(&self) -> Set<FlightKeyView> {
        Set::new(|k: FlightKeyView| exists|i: int| 0 <= i < self.keys@.len() && self.keys@[i]@ == k)
    }

    /// No key is listed twice.
    pub closed spec fn wf(&self) -> bool {
        forall|i: int, j: int|
            0 <= i < self.keys@.len() && 0 <= j < self.keys@.len() && i != j
                ==> #[trigger] self.keys@[i]@ != #[trigger] self.keys@[j]@
    }

    pub fn new() -> (r: FlightTable)
        ensures
            r.wf(),
            r.flying() == Set::<FlightKeyView>::empty(),
    {
        let r = FlightTable { keys: Vec::new() };
        assert(r.flying() =~= Set::<FlightKeyView>::empty());
        r
    }

    fn find(&self, key: &FlightKey) -> (r: Option<usize>)
        ensures
            match r {
                Some(i) => i < self.keys@.len() && self.keys@[i as int]@ == key@,
                None => !self.flying().contains(key@),
            },
    {
        let mut i: usize = 0;
        while i < self.keys.len()
            invariant
                i <= self.keys@.len(),
                forall|j: int| 0 <= j < i ==> (#[trigger] self.keys@[j])@ != key@,
            decreases self.keys.len() - i,
        {
            if self.keys[i].same(key) {
                return Some(i);
            }
            i += 1;
        }
        None
    }

    /// Joins the fetch of a key: as its leader if none is under way, to wait for
    /// its response otherwise.
    pub fn join(&mut self, key: FlightKey) -> (r: FlightRole)
        requires
            old(self).wf(),
        ensures
            final(self).wf(),
            r == if old(self).flying().contains(key@) {
                FlightRole::Waiter
            } else {
                FlightRole::Leader
            },
            final(self).flying() == old(self).flying().insert(key@),
    {
        if let Some(i) = self.find(&key) {
            assert(self.flying().contains(key@));
            assert(self.flying() =~= self.flying().insert(key@));
            return FlightRole::Waiter;
        }
        let ghost before = *self;
        let ghost view = key@;
        self.keys.push(key);
        proof {
            let n = before.keys@.len() as int;
            assert(self.keys@[n]@ == view);
            assert forall|k: FlightKeyView| #[trigger]
                self.flying().contains(k) == before.flying().insert(view).contains(k) by {
                if before.flying().contains(k) {
                    let j = choose|j: int| 0 <= j < n && before.keys@[j]@ == k;
                    assert(self.keys@[j]@ == k);
                }
                if self.flying().contains(k) {
                    let j = choose|j: int| 0 <= j < n + 1 && self.keys@[j]@ == k;
                    if j < n {
                        assert(before.keys@[j]@ == k);
                    }
                }
            }
            assert(self.flying() =~= before.flying().insert(view));
            assert forall|i: int, j: int|
                0 <= i < n + 1 && 0 <= j < n + 1 && i != j implies #[trigger] self.keys@[i]@
                != #[trigger] self.keys@[j]@ by {
                if i < n {
                    assert(before.keys@[i]@ == self.keys@[i]@);
                }
                if j < n {
                    assert(before.keys@[j]@ == self.keys@[j]@);
                }
            }
        }
        FlightRole::Leader
    }

    /// The leader is done, or was lost: the next request to join leads.
    pub fn complete(&mut self, key: &FlightKey)
        requires
            old(self).wf(),
        ensures
            final(self).wf(),
            final(self).flying() == old(self).flying().remove(key@),
    {
        let ghost before = *self;
        if let Some(i) = self.find(key) {
            self.keys.remove(i);
            proof {
                let at = i as int;
                assert(self.keys@ =~= before.keys@.remove(at));
                assert forall|k: FlightKeyView| #[trigger]
                    self.flying().contains(k) == before.flying().remove(key@).contains(k) by {
                    if self.flying().contains(k) {
                        let j = choose|j: int|
                            0 <= j < self.keys@.len() && self.keys@[j]@ == k;
                        let m = if j < at {
                            j
                        } else {
                            j + 1
                        };
                        assert(before.keys@[m]@ == k);
                        assert(before.keys@[at]@ == key@);
                    }
                    if before.flying().contains(k) && k != key@ {
                        let j = choose|j: int|
                            0 <= j < before.keys@.len() && before.keys@[j]@ == k;
                        let m = if j < at {
                            j
                        } else {
                            j - 1
                        };
                        assert(self.keys@[m]@ == k);
                    }
                }
                assert(self.flying() =~= before.flying().remove(key@));
                assert forall|a: int, b: int|
                    0 <= a < self.keys@.len() && 0 <= b < self.keys@.len() && a != b implies
                    #[trigger] self.keys@[a]@ != #[trigger] self.keys@[b]@ by {
                    let p = if a < at {
                        a
                    } else {
                        a + 1
                    };
                    let q = if b < at {
                        b
                    } else {
                        b + 1
                    };
                    assert(before.keys@[p]@ != before.keys@[q]@);
                }
            }
        } else {
            assert(before.flying() =~= before.flying().remove(key@));
        }
    }
}

/// While a fetch is under way, every other request for it waits; once it is
/// complete, the next one leads.
pub proof fn law_one_leader_at_a_time(
    flying: Set<FlightKeyView>,
    key: FlightKeyView,
)
    ensures
        flying.insert(key).contains(key),
        !flying.insert(key).remove(key).contains(key),
{
}

/// Images and tiles may have 16 MiB, documents and glyphs 4 MiB, and what is not known
/// 8 MiB.
pub proof fn law_bodies_are_limited_by_kind(kind: ResourceKind)
    ensures
        body_limit(kind) == 16 * 1_048_576 <==> kind == ResourceKind::Tile || kind
            == ResourceKind::SpriteImage || kind == ResourceKind::Image,
        body_limit(kind) == 8 * 1_048_576 <==> kind == ResourceKind::Unknown,
        body_limit(kind) == 4 * 1_048_576 <==> kind == ResourceKind::Glyphs || kind
            == ResourceKind::SpriteJson || kind == ResourceKind::Source || kind
            == ResourceKind::Style,
{
}

/// Kinds of resources are told apart by their names.
pub proof fn law_kinds_have_their_own_names(a: ResourceKind, b: ResourceKind)
    ensures
        kind_text(a) == kind_text(b) <==> a == b,
        kind_text(ResourceKind::Tile) == "tile"@,
        kind_text(ResourceKind::Style) == "style"@,
        kind_text(ResourceKind::Source) == "source"@,
        kind_text(ResourceKind::Glyphs) == "glyphs"@,
{
    reveal_strlit("unknown");
    reveal_strlit("style");
    reveal_strlit("source");
    reveal_strlit("tile");
    reveal_strlit("glyphs");
    reveal_strlit("sprite_image");
    reveal_strlit("sprite_json");
    reveal_strlit("image");
    assert("unknown"@.len() == 7 && "style"@.len() == 5 && "source"@.len() == 6 && "tile"@.len()
        == 4);
    assert("glyphs"@.len() == 6 && "sprite_image"@.len() == 12 && "sprite_json"@.len() == 11
        && "image"@.len() == 5);
    assert("style"@[0] == 's' && "image"@[0] == 'i' && "source"@[0] == 's' && "glyphs"@[0] == 'g');
}

/// Four bodies are read at a time for each render, but at least 24, and twice as many
/// requests run, but at least 64.
pub proof fn law_reads_grow_with_renders(renders: nat)
    requires
        8 * renders <= usize::MAX,
    ensures
        renders >= 6 ==> at_least(
            capped_at_max(renders * BODY_PERMITS_PER_RENDER as nat),
            DEFAULT_BODY_PERMITS as nat,
        ) == 4 * renders,
        renders < 6 ==> at_least(
            capped_at_max(renders * BODY_PERMITS_PER_RENDER as nat),
            DEFAULT_BODY_PERMITS as nat,
        ) == 24,
        renders >= 32 ==> at_least(capped_at_max(2 * renders), DEFAULT_REGULAR_PERMITS as nat) == 2
            * renders,
        renders <= 32 ==> at_least(capped_at_max(2 * renders), DEFAULT_REGULAR_PERMITS as nat)
            == 64,
{
}

/// A prior response is named by its tag, or by its date where it has no tag.
pub proof fn law_tags_go_before_dates(prior: PriorResponse)
    ensures
        prior.etag matches Some(etag) ==> validator_of(prior) == Some(
            ConditionalValidator::Etag(etag),
        ),
        prior.etag is None ==> (prior.modified matches Some(date) ==> validator_of(prior) == Some(
            ConditionalValidator::Modified(date),
        )),
        prior.etag is None && prior.modified is None ==> validator_of(prior) is None,
{
}

/// A range is asked for from its first to its last byte, a tag with `if-none-match` and a
/// date with `if-modified-since`.
pub proof fn law_requests_say_what_is_wanted(
    first: u64,
    last: u64,
    etag: String,
    date: u64,
    written: spec_fn(u64) -> Seq<char>,
)
    ensures
        range_header(Some((first, last))) == seq![
            ("range"@, "bytes="@ + numeral(first as nat) + "-"@ + numeral(last as nat)),
        ],
        range_header(None).len() == 0,
        validator_header(Some(ConditionalValidator::Etag(etag)), written) == seq![
            ("if-none-match"@, etag@),
        ],
        validator_header(Some(ConditionalValidator::Modified(date)), written) == seq![
            ("if-modified-since"@, written(date)),
        ],
        validator_header(None, written).len() == 0,
{
}

/// An attempt that may be repeated is, after the wait that was asked for or the backoff,
/// but no longer than the longest, if that ends within the window. Every other attempt is
/// the last.
pub proof fn law_attempts_are_repeated_within_the_window(
    directive: RetryDirective,
    elapsed: u64,
    backoff: u64,
    limits: RetryLimits,
    wait: u64,
)
    requires
        limits.window < u64::MAX,
        wait <= limits.max_delay,
        directive.delay matches Some(delay) ==> wait == delay || delay > limits.max_delay && wait
            == limits.max_delay,
        directive.delay is None ==> wait == backoff || backoff > limits.max_delay && wait
            == limits.max_delay,
    ensures
        elapsed + wait <= limits.window ==> step_after(Some(directive), elapsed, backoff, limits)
            == (RetryStep::Wait { delay: wait }),
        elapsed + wait > limits.window ==> step_after(Some(directive), elapsed, backoff, limits)
            is Finish,
        step_after(None, elapsed, backoff, limits) is Finish,
{
}

/// What is not there is remembered only of resources that are kept.
pub proof fn law_only_kept_resources_are_remembered(ttl: Option<u64>)
    ensures
        remembered(ttl, StoragePolicy::Permanent) == ttl,
        remembered(ttl, StoragePolicy::Volatile) is None,
{
}

/// A response is stored, or what is stored is dropped, or neither, as its policy says.
pub proof fn law_policies_decide_what_is_stored(policy: CachePolicy, materialized: bool)
    ensures
        cache_action_of(policy, materialized) == CacheAction::StoreMaterialized <==> policy
            == CachePolicy::Store && materialized,
        cache_action_of(policy, materialized) == CacheAction::StoreResponse <==> policy
            == CachePolicy::Store && !materialized,
        cache_action_of(policy, materialized) == CacheAction::Invalidate <==> policy
            == CachePolicy::Remove,
        cache_action_of(policy, materialized) == CacheAction::Keep <==> policy
            == CachePolicy::Unchanged,
{
}

/// A resource that is fresh is asked for again when it expires, but no sooner than its
/// interval says, and no later than in five minutes.
pub proof fn law_fresh_resources_wait(expires: u64, now: u64, interval: u64)
    ensures
        expires >= now && interval <= expires - now <= 300_000_000_000 ==> deferral_of(
            expires,
            now,
            interval,
        ).wait == expires - now,
        expires < now && interval <= 300_000_000_000 ==> deferral_of(expires, now, interval).wait
            == interval,
        expires >= now && expires - now <= interval <= 300_000_000_000 ==> deferral_of(
            expires,
            now,
            interval,
        ).wait == interval,
        expires - now > 300_000_000_000 || interval > 300_000_000_000 <==> deferral_of(
            expires,
            now,
            interval,
        ).capped,
        deferral_of(expires, now, interval).capped ==> deferral_of(expires, now, interval).wait
            == 300_000_000_000,
{
}

/// The caches are read for resources that are kept, if the request allows it.
pub proof fn law_caches_are_read_for_kept_resources(request: ResourceRequest)
    ensures
        reads_caches(request) <==> request.has_cache && request.storage_policy
            == StoragePolicy::Permanent,
{
}

/// A response that was not modified is one without a body, and asks for nothing to be
/// kept anew unless it came with what was stored. Without a validator it makes no sense.
pub proof fn law_unmodified_responses_have_no_body(
    head: ResponseHead,
    has_validator: bool,
    attempt: FetchAttempt,
)
    requires
        not_modified(head, has_validator, attempt),
    ensures
        head.materialized || has_validator ==> (attempt.response matches FetchReply::Http {
            status,
            body,
        } && status == 304 && body@.len() == 0),
        !head.materialized && !has_validator ==> attempt.response is Error,
        attempt.cache_materialized == head.materialized,
        head.materialized ==> attempt.cache_policy == head.cache_policy,
        !head.materialized ==> attempt.cache_policy == CachePolicy::Unchanged,
        attempt.retry is None,
        attempt.negative_cache_ttl is None,
{
}

/// A response without success keeps its status, is repeated if it may be, and is
/// remembered only if it may not. What is stored stays.
pub proof fn law_failed_responses_keep_their_status(head: ResponseHead, attempt: FetchAttempt)
    requires
        unsuccessful(head, attempt),
    ensures
        attempt.response matches FetchReply::Http { status, body } && status == head.status
            && body@.len() == 0,
        attempt.retry == head.retry,
        head.retry is Some ==> attempt.negative_cache_ttl is None,
        head.retry is None ==> attempt.negative_cache_ttl == head.negative_cache_ttl,
        attempt.cache_policy == CachePolicy::Unchanged,
{
}

/// An attempt that is over is not repeated, and an error changes nothing that is stored.
pub proof fn law_finished_attempts_are_not_repeated(
    response: FetchReply,
    policy: CachePolicy,
    attempt: FetchAttempt,
    text: Seq<char>,
)
    requires
        attempt.is_error(text),
    ensures
        FetchAttempt::finished(response, policy).response == response,
        FetchAttempt::finished(response, policy).cache_policy == policy,
        FetchAttempt::finished(response, policy).retry is None,
        FetchAttempt::finished(response, policy).negative_cache_ttl is None,
        !FetchAttempt::finished(response, policy).cache_materialized,
        attempt.response matches FetchReply::Error(message) && message@ == text,
        attempt.retry is None,
        attempt.negative_cache_ttl is None,
        attempt.cache_policy == CachePolicy::Unchanged,
        !attempt.cache_materialized,
{
}

/// Pieces are joined one after another.
pub proof fn law_pieces_are_joined_in_order(chunks: Seq<Seq<u8>>)
    ensures
        joined(chunks) == chunks.flatten(),
    decreases chunks.len(),
{
    if chunks.len() == 0 {
        assert(joined(chunks) =~= chunks.flatten());
    } else {
        law_pieces_are_joined_in_order(chunks.drop_last());
        chunks.drop_last().lemma_flatten_push(chunks.last());
        assert(chunks.drop_last().push(chunks.last()) =~= chunks);
    }
}

/// Fetches are the same just if they are of the same resource, kept alike, as urgent, and
/// asked for in the same way.
pub proof fn law_fetches_are_told_apart(a: FlightKey, b: FlightKey)
    ensures
        a@ == b@ ==> {
            &&& a.resource.url@ == b.resource.url@
            &&& a.resource.kind@ == b.resource.kind@
            &&& a.resource.range == b.resource.range
            &&& a.resource.tile is Some <==> b.resource.tile is Some
            &&& a.resource.tile is Some ==> {
                &&& a.resource.tile->0.url_template@ == b.resource.tile->0.url_template@
                &&& a.resource.tile->0.pixel_ratio == b.resource.tile->0.pixel_ratio
                &&& a.resource.tile->0.x == b.resource.tile->0.x
                &&& a.resource.tile->0.y == b.resource.tile->0.y
                &&& a.resource.tile->0.z == b.resource.tile->0.z
            }
            &&& a.persistent == b.persistent
            &&& a.priority == b.priority
            &&& a.semantics@ == b.semantics@
        },
        a.resource == b.resource && a.persistent == b.persistent && a.priority == b.priority
            && a.semantics@ == b.semantics@ ==> a@ == b@,
{
}

/// Ten redirections are followed, eight requests of low priority run at a time, what was
/// not found is remembered for fifteen seconds, and a provider is slow after one second.
pub proof fn law_fetches_are_limited()
    ensures
        MAX_REDIRECTS == 10,
        LOW_PRIORITY_PERMITS == 8,
        NEGATIVE_CACHE_TTL == 15_000_000_000,
        SLOW_PROVIDER_ATTEMPT_THRESHOLD == 1_000_000_000,
        MAX_REFRESH_DEFERRAL == 300_000_000_000,
{
}

} // verus!
