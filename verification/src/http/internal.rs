//! Forwarding between nodes over HTTP.

use vstd::prelude::*;
use crate::decimal::{lower, lowered};
use crate::http::adapter::PlainResponse;
use crate::text::{
    chars_of, law_the_first_mark_splits, law_trimming_cuts_the_ends, space, split, split_on, trim,
    trimmed, views,
};
use crate::types::{FailureKind, ImageFormat, RejectionReason, RenderOutput};

verus! {

pub const BIEI_RESPONSE_CONTENT_TYPE: &'static str = "application/x-biei-forward-response";

/// The longest that a forwarded request may take, in milliseconds.
pub const MAX_FORWARD_TIMEOUT_MS: u64 = 30_000;

/// How a request to another node failed, and whether the next node may be tried.
#[derive(Clone, Debug, PartialEq, Eq)]
pub enum ForwardError {
    Retryable(String),
    Fatal(String),
}

pub enum ForwardFault {
    Retryable(Seq<char>),
    Fatal(Seq<char>),
}

impl View for ForwardError {
    type V = ForwardFault;

    open spec fn view(&self) -> ForwardFault {
        match self {
            ForwardError::Retryable(text) => ForwardFault::Retryable(text@),
            ForwardError::Fatal(text) => ForwardFault::Fatal(text@),
        }
    }
}

/// The media type of a content type: what stands before its parameters.
pub open spec fn media_type(value: Seq<char>) -> Seq<char> {
    lowered(trimmed(split_on(value, ';')[0]))
}

/// Whether a content type has the given media type, whatever its case and its
/// parameters. The media type is given in lower case.
fn has_media_type(value: Option<&str>, expected: &str) -> (r: bool)
    ensures
        r == (value is Some && media_type(value->0@) == expected@),
{
    match value {
        Some(text) => {
            let pieces = split(&chars_of(text), ';');
            assert(views(pieces@)[0] == pieces@[0]@);
            let bare = trim(&pieces[0]);
            let wanted = chars_of(expected);
            if bare.len() != wanted.len() {
                assert(lowered(bare@).len() == bare@.len());
                return false;
            }
            let mut i: usize = 0;
            while i < bare.len()
                invariant
                    i <= bare.len(),
                    bare.len() == wanted.len(),
                    wanted@ == expected@,
                    bare@ == trimmed(split_on(text@, ';')[0]),
                    value == Some(text),
                    forall|j: int| 0 <= j < i ==> lower(#[trigger] bare@[j]) == wanted@[j],
                decreases bare.len() - i,
            {
                if lower_char(bare[i]) != wanted[i] {
                    assert(lowered(bare@)[i as int] != wanted@[i as int]);
                    return false;
                }
                i += 1;
            }
            assert(lowered(bare@) =~= wanted@);
            true
        },
        None => false,
    }
}

fn lower_char(c: char) -> (r: char)
    ensures
        r == lower(c),
{
    if 'A' <= c && c <= 'Z' {
        ((c as u32) as u8 + 32) as char
    } else {
        c
    }
}

/// Whether a content type is JSON.
pub fn is_json_content_type(value: Option<&str>) -> (r: bool)
    ensures
        r == (value is Some && media_type(value->0@) == "application/json"@),
{
    has_media_type(value, "application/json")
}

/// Whether a content type is that of a forwarded reply.
pub fn is_biei_response_content_type(value: Option<&str>) -> (r: bool)
    ensures
        r == (value is Some && media_type(value->0@) == "application/x-biei-forward-response"@),
{
    has_media_type(value, "application/x-biei-forward-response")
}

/// The reply that refuses a forwarded request before its body is read, if any:
/// the body must be JSON, and the node must not be draining.
pub fn refuse_forwarded(content_type: Option<&str>, draining: bool) -> (r: Option<PlainResponse>)
    ensures
        match r {
            Some(reply) => if content_type is Some && media_type(content_type->0@)
                == "application/json"@ {
                draining && reply.says(503, "draining"@)
            } else {
                reply.says(415, "unsupported media type"@)
            },
            None => content_type is Some && media_type(content_type->0@) == "application/json"@
                && !draining,
        },
{
    if !is_json_content_type(content_type) {
        return Some(PlainResponse { status: 415, body: "unsupported media type" });
    }
    if draining {
        return Some(PlainResponse { status: 503, body: "draining" });
    }
    None
}

/// The text that answers a forwarded request whose body cannot be decoded.
pub fn decode_failure(error: &str) -> (r: String)
    ensures
        r@ == "decode forwarded request: "@ + error@,
{
    let mut text = "decode forwarded request: ".to_owned();
    text.push_str(error);
    text
}

/// Where and for how long a request is sent.
#[derive(Clone, Debug)]
pub struct ForwardPlan {
    pub url: String,
    pub timeout_ms: u64,
}

/// The time that a request to another node gets.
pub open spec fn forward_timeout(remaining_ms: nat) -> nat {
    if remaining_ms < 1 {
        1
    } else if remaining_ms > MAX_FORWARD_TIMEOUT_MS {
        MAX_FORWARD_TIMEOUT_MS as nat
    } else {
        remaining_ms
    }
}

/// Plans a request to another node. Without its address the next node may be
/// tried.
pub fn plan_forward(target: &str, address: Option<&str>, remaining_budget_ms: u32) -> (r: Result<
    ForwardPlan,
    ForwardError,
>)
    ensures
        match address {
            Some(address) => r is Ok && r->Ok_0.url@ == "http://"@ + address@
                + "/_internal/forward"@ && r->Ok_0.timeout_ms == forward_timeout(
                remaining_budget_ms as nat,
            ),
            None => r is Err && r->Err_0@ == ForwardFault::Retryable(
                "no advertise address for node "@ + target@,
            ),
        },
{
    match address {
        Some(address) => {
            let mut url = "http://".to_owned();
            url.push_str(address);
            url.push_str("/_internal/forward");
            let ms = remaining_budget_ms as u64;
            let timeout_ms = if ms < 1 {
                1
            } else if ms > MAX_FORWARD_TIMEOUT_MS {
                MAX_FORWARD_TIMEOUT_MS
            } else {
                ms
            };
            Ok(ForwardPlan { url, timeout_ms })
        },
        None => {
            let mut text = "no advertise address for node ".to_owned();
            text.push_str(target);
            Err(ForwardError::Retryable(text))
        },
    }
}

/// How sending failed.
#[derive(Clone, Debug)]
pub struct SendFailure {
    pub is_timeout: bool,
    pub is_connect: bool,
    pub is_request: bool,
    pub message: String,
}

/// A request that never reached the other node may be sent to the next.
pub fn send_error(failure: SendFailure) -> (r: ForwardError)
    ensures
        r@ == if failure.is_timeout || failure.is_connect || failure.is_request {
            ForwardFault::Retryable(failure.message@)
        } else {
            ForwardFault::Fatal(failure.message@)
        },
{
    if failure.is_timeout || failure.is_connect || failure.is_request {
        ForwardError::Retryable(failure.message)
    } else {
        ForwardError::Fatal(failure.message)
    }
}

/// Checks that the body of a reply is one of ours. `status` is how the status
/// line reads.
pub fn check_reply(status: &str, content_type: Option<&str>) -> (r: Result<(), ForwardError>)
    ensures
        match r {
            Ok(()) => content_type is Some && media_type(content_type->0@)
                == "application/x-biei-forward-response"@,
            Err(e) => !(content_type is Some && media_type(content_type->0@)
                == "application/x-biei-forward-response"@) && e@ == ForwardFault::Fatal(
                "peer returned "@ + status@
                    + " without application/x-biei-forward-response response body"@,
            ),
        },
{
    if is_biei_response_content_type(content_type) {
        return Ok(());
    }
    let mut text = "peer returned ".to_owned();
    text.push_str(status);
    text.push_str(" without application/x-biei-forward-response response body");
    Err(ForwardError::Fatal(text))
}

/// What a forwarded reply says of the task.
#[derive(Clone, Copy, Debug, PartialEq, Eq, Structural)]
pub enum PeerOutcome {
    Completed { format: Option<ImageFormat> },
    Rejected(RejectionReason),
    Failed(FailureKind),
}

/// What a decoded reply comes to.
pub enum ReplyView {
    /// The task ended without an image.
    Ended,
    Image { bytes: Seq<u8>, format: ImageFormat },
    Fault(ForwardFault),
}

/// What a decoded reply comes to. An image needs a status of success, and a
/// status of success needs an image.
pub open spec fn reply_of(
    success: bool,
    status: Seq<char>,
    outcome: PeerOutcome,
    bytes: Seq<u8>,
) -> ReplyView {
    match outcome {
        PeerOutcome::Completed { format } => if !success {
            ReplyView::Fault(
                ForwardFault::Fatal(
                    "peer returned completed outcome with non-success status "@ + status,
                ),
            )
        } else {
            match format {
                Some(format) => ReplyView::Image { bytes, format },
                None => ReplyView::Fault(
                    ForwardFault::Fatal("peer returned success without completed image format"@),
                ),
            }
        },
        _ => if success {
            ReplyView::Fault(
                ForwardFault::Fatal("peer returned success without completed image format"@),
            )
        } else {
            ReplyView::Ended
        },
    }
}

/// The image of a decoded reply, if the task completed.
pub fn finish_reply(success: bool, status: &str, outcome: PeerOutcome, bytes: Vec<u8>) -> (r: Result<
    Option<RenderOutput>,
    ForwardError,
>)
    ensures
        match reply_of(success, status@, outcome, bytes@) {
            ReplyView::Ended => r is Ok && r->Ok_0 is None,
            ReplyView::Image { bytes: image, format } => r is Ok && r->Ok_0 is Some
                && r->Ok_0->0.bytes@ == image && r->Ok_0->0.format == format,
            ReplyView::Fault(fault) => r is Err && r->Err_0@ == fault,
        },
{
    if !success {
        return match outcome {
            PeerOutcome::Completed { .. } => {
                let mut text =
                    "peer returned completed outcome with non-success status ".to_owned();
                text.push_str(status);
                Err(ForwardError::Fatal(text))
            },
            _ => Ok(None),
        };
    }
    match outcome {
        PeerOutcome::Completed { format: Some(format) } => Ok(
            Some(RenderOutput { bytes, format }),
        ),
        _ => Err(
            ForwardError::Fatal("peer returned success without completed image format".to_owned()),
        ),
    }
}

/// An image comes back exactly from a completed task whose reply says success.
pub proof fn law_images_come_with_success(
    success: bool,
    status: Seq<char>,
    outcome: PeerOutcome,
    bytes: Seq<u8>,
)
    ensures
        reply_of(success, status, outcome, bytes) is Image <==> success && match outcome {
            PeerOutcome::Completed { format } => format is Some,
            _ => false,
        },
        reply_of(success, status, outcome, bytes) is Ended <==> !success && !(outcome is Completed),
{
}

proof fn lemma_trimmed_lowers(s: Seq<char>)
    ensures
        lowered(trimmed(lowered(s))) == lowered(trimmed(s)),
    decreases s.len(),
{
    let low = lowered(s);
    if s.len() > 0 {
        assert(space(low[0]) == space(s[0]));
        assert(space(low.last()) == space(s.last()));
        if space(s[0]) {
            lemma_trimmed_lowers(s.skip(1));
            assert(low.skip(1) =~= lowered(s.skip(1)));
        } else if space(s.last()) {
            lemma_trimmed_lowers(s.drop_last());
            assert(low.drop_last() =~= lowered(s.drop_last()));
        } else {
            assert(lowered(low) =~= low);
        }
    } else {
        assert(low =~= s);
    }
}

/// A media type is told without its parameters, without the spaces around it, and in small
/// letters.
pub proof fn law_media_types_are_told_plainly(value: Seq<char>, parameters: Seq<char>)
    requires
        !value.contains(';'),
    ensures
        media_type(value.push(';') + parameters) == media_type(value),
        media_type(value) == lowered(trimmed(value)),
        media_type(lowered(value)) == media_type(value),
        media_type(seq![' '] + value) == media_type(value),
        media_type(value.push(' ')) == media_type(value),
{
    law_the_first_mark_splits(value, ';', parameters);
    assert(!lowered(value).contains(';')) by {
        if lowered(value).contains(';') {
            let i = choose|i: int| 0 <= i < lowered(value).len() && lowered(value)[i] == ';';
            assert(value[i] == ';');
            assert(value.contains(value[i]));
        }
    }
    law_the_first_mark_splits(lowered(value), ';', parameters);
    lemma_trimmed_lowers(value);
    assert(!(seq![' '] + value).contains(';')) by {
        if (seq![' '] + value).contains(';') {
            let i = choose|i: int|
                0 <= i < (seq![' '] + value).len() && (seq![' '] + value)[i] == ';';
            assert(value[i - 1] == ';');
            assert(value.contains(value[i - 1]));
        }
    }
    assert(!value.push(' ').contains(';')) by {
        if value.push(' ').contains(';') {
            let i = choose|i: int| 0 <= i < value.push(' ').len() && value.push(' ')[i] == ';';
            assert(value[i] == ';');
            assert(value.contains(value[i]));
        }
    }
    law_the_first_mark_splits(seq![' '] + value, ';', parameters);
    law_the_first_mark_splits(value.push(' '), ';', parameters);
    law_trimming_cuts_the_ends(value, ' ');
}

/// A peer has as long as the task has left, but at least a millisecond and at most half a
/// minute.
pub proof fn law_forwards_last_as_long_as_the_task(remaining_ms: nat)
    ensures
        1 <= forward_timeout(remaining_ms) <= 30_000,
        1 <= remaining_ms <= 30_000 ==> forward_timeout(remaining_ms) == remaining_ms,
        remaining_ms > 30_000 ==> forward_timeout(remaining_ms) == 30_000,
{
}

/// The image of a peer is handed on as it came: its bytes, in the format that the peer
/// named.
pub proof fn law_images_are_handed_on(status: Seq<char>, format: ImageFormat, bytes: Seq<u8>)
    ensures
        reply_of(true, status, PeerOutcome::Completed { format: Some(format) }, bytes) is Image,
        reply_of(
            true,
            status,
            PeerOutcome::Completed { format: Some(format) },
            bytes,
        )->Image_bytes == bytes,
        reply_of(
            true,
            status,
            PeerOutcome::Completed { format: Some(format) },
            bytes,
        )->format == format,
{
}

/// A reply that contradicts itself is a fault for good: an image without success, success
/// without an image, and an image without a format.
pub proof fn law_contradictions_are_faults(
    success: bool,
    status: Seq<char>,
    outcome: PeerOutcome,
    bytes: Seq<u8>,
)
    requires
        success != (outcome is Completed) || outcome is Completed && outcome->format is None,
    ensures
        reply_of(success, status, outcome, bytes) is Fault,
        reply_of(success, status, outcome, bytes)->Fault_0 is Fatal,
{
}

/// Whether another node may be asked, and why, shows in the fault.
pub proof fn law_forward_errors_show_their_kind(text: String)
    ensures
        ForwardError::Retryable(text)@ == ForwardFault::Retryable(text@),
        ForwardError::Fatal(text)@ == ForwardFault::Fatal(text@),
{
}

} // verus!
