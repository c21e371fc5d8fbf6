//! Replies, before they are handed to the HTTP server.

use vstd::prelude::*;
use vstd::utf8::encode_utf8;
use crate::http::path::{IngressError, IngressFault};
use crate::http::preview::{escape_json_string, json_string};
use crate::metrics::{reason_text, rejection_reason_label};
use crate::types::{
    FailureKind, ImageFormat, RejectionReason, TaskOutcome, TaskResult,
};

verus! {

pub const JSON_CONTENT_TYPE: &'static str = "application/json";

pub const HTML_CONTENT_TYPE: &'static str = "text/html; charset=utf-8";

/// The header that names a request.
pub const REQUEST_ID_HEADER: &'static str = "x-request-id";

/// A reply to a client.
#[derive(Clone, Debug, PartialEq, Eq)]
pub struct IngressResponse {
    pub status: u16,
    pub content_type: &'static str,
    pub headers: Vec<(&'static str, String)>,
    pub body: Vec<u8>,
}

pub struct ResponseView {
    pub status: u16,
    pub content_type: Seq<char>,
    pub headers: Seq<(Seq<char>, Seq<char>)>,
    pub body: Seq<u8>,
}

pub open spec fn header_views(headers: Seq<(&'static str, String)>) -> Seq<
    (Seq<char>, Seq<char>),
> {
    Seq::new(headers.len(), |i: int| (headers[i].0@, headers[i].1@))
}

impl View for IngressResponse {
    type V = ResponseView;

    open spec fn view(&self) -> ResponseView {
        ResponseView {
            status: self.status,
            content_type: self.content_type@,
            headers: header_views(self.headers@),
            body: self.body@,
        }
    }
}

impl ResponseView {
    /// The reply with one more header.
    pub open spec fn with(self, name: Seq<char>, value: Seq<char>) -> ResponseView {
        ResponseView { headers: self.headers.push((name, value)), ..self }
    }

    pub open spec fn retry_after(self, seconds: Seq<char>) -> ResponseView {
        self.with("Retry-After"@, seconds)
    }

    pub open spec fn request_id(self, id: Seq<char>) -> ResponseView {
        self.with("x-request-id"@, id)
    }
}

/// The JSON that reports an error.
pub open spec fn error_text(code: Seq<char>, detail: Seq<char>) -> Seq<char> {
    "{\"error\":"@ + json_string(code) + ",\"detail\":"@ + json_string(detail) + "}"@
}

/// The reply that reports an error.
pub open spec fn json_reply(status: u16, code: Seq<char>, detail: Seq<char>) -> ResponseView {
    ResponseView {
        status,
        content_type: "application/json"@,
        headers: seq![],
        body: encode_utf8(error_text(code, detail)),
    }
}

/// The reply that shows a page, which may be kept for five minutes.
pub open spec fn html_reply(status: u16, body: Seq<u8>) -> ResponseView {
    ResponseView {
        status,
        content_type: "text/html; charset=utf-8"@,
        headers: seq![("Cache-Control"@, "max-age=300"@)],
        body,
    }
}

impl IngressResponse {
    /// A reply that reports an error.
    pub fn json(status: u16, code: &str, detail: &str) -> (r: IngressResponse)
        ensures
            r@ == json_reply(status, code@, detail@),
    {
        let mut text = "{\"error\":".to_owned();
        text.push_str(escape_json_string(code).as_str());
        text.push_str(",\"detail\":");
        text.push_str(escape_json_string(detail).as_str());
        text.push_str("}");
        let r = IngressResponse {
            status,
            content_type: "application/json",
            headers: Vec::new(),
            body: text.as_str().as_bytes_vec(),
        };
        assert(header_views(r.headers@) =~= seq![]);
        r
    }

    /// A reply that shows a page.
    pub fn html(status: u16, body: Vec<u8>) -> (r: IngressResponse)
        ensures
            r@ == html_reply(status, body@),
    {
        let mut headers: Vec<(&'static str, String)> = Vec::new();
        headers.push(("Cache-Control", "max-age=300".to_owned()));
        let r = IngressResponse { status, content_type: "text/html; charset=utf-8", headers, body };
        assert(header_views(r.headers@) =~= seq![("Cache-Control"@, "max-age=300"@)]);
        r
    }

    fn with(self, name: &'static str, value: &str) -> (r: IngressResponse)
        ensures
            r@ == self@.with(name@, value@),
    {
        let mut r = self;
        let ghost before = header_views(r.headers@);
        r.headers.push((name, value.to_owned()));
        assert(header_views(r.headers@) =~= before.push((name@, value@)));
        r
    }

    /// Says when to try again.
    pub fn with_retry_after(self, seconds: &str) -> (r: IngressResponse)
        ensures
            r@ == self@.retry_after(seconds@),
    {
        self.with("Retry-After", seconds)
    }

    /// Names the request that is answered.
    pub fn with_request_id(self, request_id: &str) -> (r: IngressResponse)
        ensures
            r@ == self@.request_id(request_id@),
    {
        self.with("x-request-id", request_id)
    }
}

/// The reply to a request that cannot be understood.
pub open spec fn error_reply(fault: IngressFault) -> ResponseView {
    match fault {
        IngressFault::InvalidRequest(text) => json_reply(400, "invalid_request"@, text),
        IngressFault::UnknownStyle(id) => json_reply(404, "unknown_style"@, id),
    }
}

/// Answers a request that cannot be understood.
pub fn response_from_ingress_error(error: IngressError) -> (r: IngressResponse)
    ensures
        r@ == error_reply(error@),
{
    match error {
        IngressError::InvalidRequest(text) => IngressResponse::json(
            400,
            "invalid_request",
            text.as_str(),
        ),
        IngressError::UnknownStyle(id) => IngressResponse::json(404, "unknown_style", id.as_str()),
    }
}

/// The HTTP status of a rejection.
pub open spec fn rejection_status(reason: RejectionReason) -> u16 {
    match reason {
        RejectionReason::UnknownStyle => 404,
        RejectionReason::DeadlineTooClose => 504,
        RejectionReason::DeadlineExceeded => 504,
        RejectionReason::HopLimitExceeded => 500,
        RejectionReason::QueueFull => 503,
        RejectionReason::NoCapacity => 503,
        RejectionReason::DrainTooSlow => 503,
        RejectionReason::ForwardFailed => 503,
    }
}

/// The HTTP status of a failure.
pub open spec fn failure_status(kind: FailureKind) -> u16 {
    match kind {
        FailureKind::RenderTimeout => 504,
        FailureKind::StyleUnavailable => 502,
        FailureKind::SourceUnavailable => 502,
        FailureKind::RendererDead => 500,
        FailureKind::StyleNotReady => 500,
        FailureKind::Other => 500,
    }
}

/// The HTTP status of a result.
pub open spec fn result_status(result: TaskResult) -> u16 {
    match result {
        TaskResult::Completed { .. } => 200,
        TaskResult::Rejected { reason } => rejection_status(reason),
        TaskResult::Failed { kind, .. } => failure_status(kind),
    }
}

/// The HTTP status with which a result is reported.
pub fn status_for_outcome(result: &TaskResult) -> (r: u16)
    ensures
        r == result_status(*result),
{
    match result {
        TaskResult::Completed { .. } => 200,
        TaskResult::Rejected { reason } => match reason {
            RejectionReason::UnknownStyle => 404,
            RejectionReason::DeadlineTooClose => 504,
            RejectionReason::DeadlineExceeded => 504,
            RejectionReason::HopLimitExceeded => 500,
            RejectionReason::QueueFull => 503,
            RejectionReason::NoCapacity => 503,
            RejectionReason::DrainTooSlow => 503,
            RejectionReason::ForwardFailed => 503,
        },
        TaskResult::Failed { kind, .. } => match kind {
            FailureKind::RenderTimeout => 504,
            FailureKind::StyleUnavailable => 502,
            FailureKind::SourceUnavailable => 502,
            FailureKind::RendererDead => 500,
            FailureKind::StyleNotReady => 500,
            FailureKind::Other => 500,
        },
    }
}

pub open spec fn image_type(format: ImageFormat) -> Seq<char> {
    match format {
        ImageFormat::Png => "image/png"@,
        ImageFormat::Webp => "image/webp"@,
        ImageFormat::Jpeg => "image/jpeg"@,
    }
}

/// The content type of an image.
pub fn image_content_type(format: ImageFormat) -> (r: &'static str)
    ensures
        r@ == image_type(format),
{
    match format {
        ImageFormat::Png => "image/png",
        ImageFormat::Webp => "image/webp",
        ImageFormat::Jpeg => "image/jpeg",
    }
}

pub open spec fn failure_text(kind: FailureKind) -> Seq<char> {
    match kind {
        FailureKind::RenderTimeout => "render_timeout"@,
        FailureKind::StyleUnavailable => "style_unavailable"@,
        FailureKind::SourceUnavailable => "source_unavailable"@,
        FailureKind::RendererDead => "renderer_dead"@,
        FailureKind::StyleNotReady => "style_not_ready"@,
        FailureKind::Other => "render_failed"@,
    }
}

fn failure_label(kind: FailureKind) -> (r: &'static str)
    ensures
        r@ == failure_text(kind),
{
    match kind {
        FailureKind::RenderTimeout => "render_timeout",
        FailureKind::StyleUnavailable => "style_unavailable",
        FailureKind::SourceUnavailable => "source_unavailable",
        FailureKind::RendererDead => "renderer_dead",
        FailureKind::StyleNotReady => "style_not_ready",
        FailureKind::Other => "render_failed",
    }
}

/// The reply that reports how a task ended. A rejection for want of capacity says
/// that the client may try again after a second.
pub open spec fn outcome_reply(outcome: TaskOutcome) -> ResponseView {
    let status = result_status(outcome.result);
    let plain = match outcome.result {
        TaskResult::Completed { output, .. } => ResponseView {
            status,
            content_type: image_type(output.format),
            headers: seq![],
            body: output.bytes@,
        },
        TaskResult::Rejected { reason } => if status == 503 {
            json_reply(status, reason_text(reason), ""@).retry_after("1"@)
        } else {
            json_reply(status, reason_text(reason), ""@)
        },
        TaskResult::Failed { kind, .. } => json_reply(status, failure_text(kind), ""@),
    };
    plain.request_id(outcome.request_id@)
}

/// Reports how a task ended.
pub fn response_from_outcome(outcome: TaskOutcome) -> (r: IngressResponse)
    ensures
        r@ == outcome_reply(outcome),
{
    let status = status_for_outcome(&outcome.result);
    let plain = match outcome.result {
        TaskResult::Completed { output, .. } => {
            let headers: Vec<(&'static str, String)> = Vec::new();
            assert(header_views(headers@) =~= seq![]);
            IngressResponse {
                status,
                content_type: image_content_type(output.format),
                headers,
                body: output.bytes,
            }
        },
        TaskResult::Rejected { reason } => {
            let reply = IngressResponse::json(status, rejection_reason_label(reason), "");
            if status == 503 {
                reply.with_retry_after("1")
            } else {
                reply
            }
        },
        TaskResult::Failed { kind, .. } => IngressResponse::json(status, failure_label(kind), ""),
    };
    plain.with_request_id(outcome.request_id.as_str())
}

/// Every reply to a task names the request, and an image is sent exactly for a
/// completed task.
pub proof fn law_replies_name_their_request(outcome: TaskOutcome)
    ensures
        outcome_reply(outcome).headers.last() == ("x-request-id"@, outcome.request_id@),
        outcome_reply(outcome).status == 200 <==> outcome.result is Completed,
{
}

/// A completed task is answered with its image: the bytes as they were rendered, under the
/// content type of their format.
pub proof fn law_completed_tasks_are_answered_with_their_image(outcome: TaskOutcome)
    requires
        outcome.result is Completed,
    ensures
        outcome_reply(outcome).status == 200,
        outcome_reply(outcome).body == outcome.result->output.bytes@,
        outcome.result->output.format == ImageFormat::Png ==> outcome_reply(outcome).content_type
            == "image/png"@,
        outcome.result->output.format == ImageFormat::Webp ==> outcome_reply(outcome).content_type
            == "image/webp"@,
        outcome.result->output.format == ImageFormat::Jpeg ==> outcome_reply(outcome).content_type
            == "image/jpeg"@,
        outcome_reply(outcome).headers == seq![("x-request-id"@, outcome.request_id@)],
{
    assert(outcome_reply(outcome).headers =~= seq![("x-request-id"@, outcome.request_id@)]);
}

/// A task that was not completed is answered with what is at fault: the client for an
/// unknown style, the clock for a deadline, the load for a full node, the provider for a
/// style or source that is missing, and the node itself for the rest.
pub proof fn law_statuses_tell_what_is_at_fault(reason: RejectionReason, kind: FailureKind)
    ensures
        rejection_status(reason) == 404 <==> reason == RejectionReason::UnknownStyle,
        rejection_status(reason) == 504 <==> reason == RejectionReason::DeadlineTooClose || reason
            == RejectionReason::DeadlineExceeded,
        rejection_status(reason) == 503 <==> reason == RejectionReason::QueueFull || reason
            == RejectionReason::NoCapacity || reason == RejectionReason::DrainTooSlow || reason
            == RejectionReason::ForwardFailed,
        rejection_status(reason) == 500 <==> reason == RejectionReason::HopLimitExceeded,
        failure_status(kind) == 504 <==> kind == FailureKind::RenderTimeout,
        failure_status(kind) == 502 <==> kind == FailureKind::StyleUnavailable || kind
            == FailureKind::SourceUnavailable,
        failure_status(kind) == 500 <==> kind == FailureKind::RendererDead || kind
            == FailureKind::StyleNotReady || kind == FailureKind::Other,
{
}

/// A task that was not completed is answered in JSON with the status and the name of its
/// reason or failure. It is told to come back in a second just where the load is at fault.
pub proof fn law_other_tasks_are_answered_with_their_fault(outcome: TaskOutcome)
    requires
        !(outcome.result is Completed),
    ensures
        outcome_reply(outcome).content_type == "application/json"@,
        outcome.result is Rejected ==> outcome_reply(outcome).status == rejection_status(
            outcome.result->reason,
        ) && outcome_reply(outcome).body == encode_utf8(
            error_text(reason_text(outcome.result->reason), ""@),
        ),
        outcome.result is Failed ==> outcome_reply(outcome).status == failure_status(
            outcome.result->kind,
        ) && outcome_reply(outcome).body == encode_utf8(
            error_text(failure_text(outcome.result->kind), ""@),
        ),
        outcome.result is Rejected && outcome_reply(outcome).status == 503 ==> outcome_reply(
            outcome,
        ).headers == seq![("Retry-After"@, "1"@), ("x-request-id"@, outcome.request_id@)],
        outcome.result is Failed || outcome_reply(outcome).status != 503 ==> outcome_reply(
            outcome,
        ).headers == seq![("x-request-id"@, outcome.request_id@)],
{
    let reply = outcome_reply(outcome);
    if outcome.result is Rejected && reply.status == 503 {
        assert(reply.headers =~= seq![
            ("Retry-After"@, "1"@),
            ("x-request-id"@, outcome.request_id@),
        ]);
    } else {
        assert(reply.headers =~= seq![("x-request-id"@, outcome.request_id@)]);
    }
}

/// Failures have names of their own.
pub proof fn law_failures_have_their_names(kind: FailureKind)
    ensures
        kind == FailureKind::RenderTimeout ==> failure_text(kind) == "render_timeout"@,
        kind == FailureKind::StyleUnavailable ==> failure_text(kind) == "style_unavailable"@,
        kind == FailureKind::SourceUnavailable ==> failure_text(kind) == "source_unavailable"@,
        kind == FailureKind::RendererDead ==> failure_text(kind) == "renderer_dead"@,
        kind == FailureKind::StyleNotReady ==> failure_text(kind) == "style_not_ready"@,
        kind == FailureKind::Other ==> failure_text(kind) == "render_failed"@,
{
}

/// A request that is at fault is answered with 400 and what is wrong with it, and one for
/// an unknown style with 404 and the style.
pub proof fn law_faulty_requests_are_told_why(text: Seq<char>)
    ensures
        error_reply(IngressFault::InvalidRequest(text)).status == 400,
        error_reply(IngressFault::InvalidRequest(text)).body == encode_utf8(
            "{\"error\":"@ + json_string("invalid_request"@) + ",\"detail\":"@ + json_string(text)
                + "}"@,
        ),
        error_reply(IngressFault::UnknownStyle(text)).status == 404,
        error_reply(IngressFault::UnknownStyle(text)).body == encode_utf8(
            "{\"error\":"@ + json_string("unknown_style"@) + ",\"detail\":"@ + json_string(text)
                + "}"@,
        ),
        error_reply(IngressFault::InvalidRequest(text)).content_type == "application/json"@,
        html_reply(200, encode_utf8(text)).body == encode_utf8(text),
        html_reply(200, encode_utf8(text)).status == 200,
        html_reply(200, encode_utf8(text)).content_type == "text/html; charset=utf-8"@,
{
}

/// What a response shows is what is sent.
pub proof fn law_responses_show_what_is_sent(r: IngressResponse, i: int)
    requires
        0 <= i < r.headers@.len(),
    ensures
        r@.status == r.status,
        r@.content_type == r.content_type@,
        r@.body == r.body@,
        r@.headers.len() == r.headers@.len(),
        r@.headers[i].0 == r.headers@[i].0@,
        r@.headers[i].1 == r.headers@[i].1@,
{
}

} // verus!
