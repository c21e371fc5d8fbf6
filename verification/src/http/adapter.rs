//! The endpoints of a node's listeners, and the plain replies of its probes.

use vstd::prelude::*;
use vstd::utf8::encode_utf8;
use crate::http::path::{path_parts, segments};
use crate::metrics::{worker_gauge_sample, LoadedProfile, RuntimeGauges, WorkerGaugeSample};
use crate::text::{after_prefix, begins_with, chars_of, numeral, numeral_text, same_text, spells, views};

verus! {

/// The largest body of a forwarded request, in bytes.
pub const MAX_INTERNAL_FORWARD_BODY_BYTES: usize = 10 * 1024 * 1024;

/// The longest path of a public request, in bytes.
pub const MAX_PUBLIC_PATH_BYTES: usize = 8192;

/// The methods that the endpoints tell apart.
#[derive(Clone, Copy, Debug, PartialEq, Eq, Structural)]
pub enum HttpMethod {
    Get,
    Post,
    Other,
}

/// Which port a request came in on.
#[derive(Clone, Copy, Debug, PartialEq, Eq, Structural)]
pub enum Listener {
    /// One port for everything.
    Combined,
    /// The port behind the gateway.
    Public,
    /// The port inside the cluster.
    Internal,
}

#[derive(Clone, Copy, Debug, PartialEq, Eq, Structural)]
pub enum Endpoint {
    Health,
    Ready,
    Metrics,
    Forward,
    Render,
    NotFound,
}

/// A reply of plain text.
#[derive(Clone, Copy, Debug)]
pub struct PlainResponse {
    pub status: u16,
    pub body: &'static str,
}

impl PlainResponse {
    pub open spec fn says(&self, status: u16, body: Seq<char>) -> bool {
        self.status == status && self.body@ == body
    }
}

/// The endpoint that serves a path on a listener.
pub open spec fn endpoint_of(listener: Listener, path: Seq<char>) -> Endpoint {
    match listener {
        Listener::Combined => if path == "/livez"@ || path == "/_internal/healthz"@ {
            Endpoint::Health
        } else if path == "/readyz"@ || path == "/_internal/readyz"@ {
            Endpoint::Ready
        } else if path == "/_internal/metrics"@ {
            Endpoint::Metrics
        } else if path == "/_internal/forward"@ {
            Endpoint::Forward
        } else {
            Endpoint::Render
        },
        Listener::Public => if path == "/livez"@ {
            Endpoint::Health
        } else if path == "/readyz"@ {
            Endpoint::Ready
        } else if path == "/metrics"@ || begins_with(path, "/_internal/"@) {
            Endpoint::NotFound
        } else {
            Endpoint::Render
        },
        Listener::Internal => if path == "/_internal/healthz"@ {
            Endpoint::Health
        } else if path == "/_internal/readyz"@ {
            Endpoint::Ready
        } else if path == "/_internal/metrics"@ {
            Endpoint::Metrics
        } else if path == "/_internal/forward"@ {
            Endpoint::Forward
        } else {
            Endpoint::NotFound
        },
    }
}

/// Finds the endpoint of a path.
pub fn endpoint(listener: Listener, path: &str) -> (r: Endpoint)
    ensures
        r == endpoint_of(listener, path@),
{
    match listener {
        Listener::Combined => if same_text(path, "/livez") || same_text(
            path,
            "/_internal/healthz",
        ) {
            Endpoint::Health
        } else if same_text(path, "/readyz") || same_text(path, "/_internal/readyz") {
            Endpoint::Ready
        } else if same_text(path, "/_internal/metrics") {
            Endpoint::Metrics
        } else if same_text(path, "/_internal/forward") {
            Endpoint::Forward
        } else {
            Endpoint::Render
        },
        Listener::Public => if same_text(path, "/livez") {
            Endpoint::Health
        } else if same_text(path, "/readyz") {
            Endpoint::Ready
        } else if same_text(path, "/metrics") || after_prefix(
            &chars_of(path),
            "/_internal/",
        ).is_some() {
            Endpoint::NotFound
        } else {
            Endpoint::Render
        },
        Listener::Internal => if same_text(path, "/_internal/healthz") {
            Endpoint::Health
        } else if same_text(path, "/_internal/readyz") {
            Endpoint::Ready
        } else if same_text(path, "/_internal/metrics") {
            Endpoint::Metrics
        } else if same_text(path, "/_internal/forward") {
            Endpoint::Forward
        } else {
            Endpoint::NotFound
        },
    }
}

/// The public port serves no metrics and no forwarding, the internal port renders
/// nothing.
pub proof fn law_ports_are_apart(path: Seq<char>)
    ensures
        endpoint_of(Listener::Public, path) != Endpoint::Metrics,
        endpoint_of(Listener::Public, path) != Endpoint::Forward,
        begins_with(path, "/_internal/"@) ==> endpoint_of(Listener::Public, path)
            == Endpoint::NotFound,
        endpoint_of(Listener::Internal, path) != Endpoint::Render,
{
    reveal_strlit("/livez");
    reveal_strlit("/readyz");
    reveal_strlit("/_internal/");
    if begins_with(path, "/_internal/"@) {
        assert(path[1] == path.take(11)[1]);
    }
}

fn plain(status: u16, body: &'static str) -> (r: PlainResponse)
    ensures
        r.says(status, body@),
{
    PlainResponse { status, body }
}

/// Answers for an endpoint that is not there.
pub fn not_found() -> (r: PlainResponse)
    ensures
        r.says(404, "not found"@),
{
    plain(404, "not found")
}

/// Answers that the process runs.
pub fn health_ok(method: HttpMethod) -> (r: PlainResponse)
    ensures
        if method == HttpMethod::Get {
            r.says(200, "ok"@)
        } else {
            r.says(405, "method not allowed"@)
        },
{
    if method != HttpMethod::Get {
        return plain(405, "method not allowed");
    }
    plain(200, "ok")
}

/// Answers whether the node may be sent requests: it does not drain, and gossip
/// has settled where there is gossip.
pub fn readyz(method: HttpMethod, draining: Option<bool>, gossip_ready: Option<bool>) -> (r:
    PlainResponse)
    ensures
        if method != HttpMethod::Get {
            r.says(405, "method not allowed"@)
        } else if draining != Some(true) && gossip_ready != Some(false) {
            r.says(200, "ready"@)
        } else {
            r.says(503, "not ready"@)
        },
{
    if method != HttpMethod::Get {
        return plain(405, "method not allowed");
    }
    let drains = match draining {
        Some(draining) => draining,
        None => false,
    };
    let settled = match gossip_ready {
        Some(ready) => ready,
        None => true,
    };
    if !drains && settled {
        plain(200, "ready")
    } else {
        plain(503, "not ready")
    }
}

/// The reply that refuses a request for metrics, unless it is to be served.
pub fn refuse_metrics(method: HttpMethod, enabled: bool) -> (r: Option<PlainResponse>)
    ensures
        match r {
            Some(reply) => if method != HttpMethod::Get {
                reply.says(405, "method not allowed"@)
            } else {
                !enabled && reply.says(404, "metrics disabled"@)
            },
            None => method == HttpMethod::Get && enabled,
        },
{
    if method != HttpMethod::Get {
        return Some(plain(405, "method not allowed"));
    }
    if !enabled {
        return Some(plain(404, "metrics disabled"));
    }
    None
}

/// The reply that refuses a forwarded request, unless its body is to be read.
pub fn refuse_forward(method: HttpMethod, enabled: bool) -> (r: Option<PlainResponse>)
    ensures
        match r {
            Some(reply) => if method != HttpMethod::Post {
                reply.says(405, "method not allowed"@)
            } else {
                !enabled && reply.says(404, "internal forward disabled"@)
            },
            None => method == HttpMethod::Post && enabled,
        },
{
    if method != HttpMethod::Post {
        return Some(plain(405, "method not allowed"));
    }
    if !enabled {
        return Some(plain(404, "internal forward disabled"));
    }
    None
}

/// Answers that a forwarded body is larger than the limit.
pub fn body_too_large() -> (r: PlainResponse)
    ensures
        r.says(413, "body too large"@),
{
    plain(413, "body too large")
}

/// What is done with a public request.
#[derive(Clone, Copy, Debug)]
pub enum PublicStep {
    Refuse(PlainResponse),
    Preview,
    Render,
}

/// A path of one or two style segments and `preview`.
pub open spec fn names_preview(path: Seq<char>) -> bool {
    let parts = segments(path);
    (parts.len() == 2 || parts.len() == 3) && parts.last() == "preview"@
}

/// Whether a path asks for a preview page.
pub fn is_preview_path(path: &str) -> (r: bool)
    ensures
        r == names_preview(path@),
{
    let parts = path_parts(path);
    let n: usize = parts.len();
    if n != 2 && n != 3 {
        assert(views(parts@).len() == n);
        return false;
    }
    assert(views(parts@).last() == parts@[n - 1]@);
    spells(&parts[n - 1], "preview")
}

/// Decides on a public request.
pub fn public_step(method: HttpMethod, path: &str, serves_requests: bool) -> (r: PublicStep)
    ensures
        match r {
            PublicStep::Refuse(reply) => if method != HttpMethod::Get {
                reply.says(405, "method not allowed"@)
            } else if encode_utf8(path@).len() > MAX_PUBLIC_PATH_BYTES {
                reply.says(414, "path too long"@)
            } else {
                !serves_requests && reply.says(404, "not found"@)
            },
            PublicStep::Preview => names_preview(path@),
            PublicStep::Render => !names_preview(path@),
        },
        r is Refuse <==> method != HttpMethod::Get || encode_utf8(path@).len()
            > MAX_PUBLIC_PATH_BYTES || !serves_requests,
{
    if method != HttpMethod::Get {
        return PublicStep::Refuse(plain(405, "method not allowed"));
    }
    if path.as_bytes().len() > MAX_PUBLIC_PATH_BYTES {
        return PublicStep::Refuse(plain(414, "path too long"));
    }
    if !serves_requests {
        return PublicStep::Refuse(not_found());
    }
    if is_preview_path(path) {
        PublicStep::Preview
    } else {
        PublicStep::Render
    }
}

/// The id that a request header gives, if it gives one.
pub fn request_id_from_headers(value: Option<&str>) -> (r: Option<String>)
    ensures
        match value {
            Some(text) => if text@.len() == 0 {
                r is None
            } else {
                r is Some && r->0@ == text@
            },
            None => r is None,
        },
{
    match value {
        Some(text) => if chars_of(text).len() == 0 {
            None
        } else {
            Some(text.to_owned())
        },
        None => None,
    }
}

/// A worker at the time of a scrape.
#[derive(Clone, Debug)]
pub struct WorkerReading {
    pub id: usize,
    pub profile: Option<LoadedProfile>,
    pub queue_depth: u32,
}

/// A node at the time of a scrape.
#[derive(Clone, Debug)]
pub struct NodeReading {
    pub node_id: String,
    pub workers: Vec<WorkerReading>,
    pub live_members: u32,
    pub cpu_permits_inuse: u32,
    pub draining: bool,
}

/// The sample of a worker.
pub open spec fn samples(reading: WorkerReading, sample: WorkerGaugeSample) -> bool {
    &&& sample.worker@ == numeral(reading.id as nat)
    &&& sample.queue_depth == reading.queue_depth
    &&& sample.loaded == (reading.profile is Some)
    &&& match reading.profile {
        Some(p) => sample.style_id@ == p.style_id@ && sample.render_mode@ == p.render_mode.text()
            && sample.scale@ == p.scale.text(),
        None => sample.style_id@ == Seq::<char>::empty() && sample.render_mode@ == "none"@
            && sample.scale@ == "none"@,
    }
}

/// The metrics endpoint: the node that it reads, with its membership and its
/// drain control where it has them.
#[derive(Clone, Debug)]
pub struct HttpMetrics<N, M, D> {
    pub node: N,
    pub membership: Option<M>,
    pub drain: Option<D>,
}

impl<N, M, D> HttpMetrics<N, M, D> {
    pub fn new(node: N, membership: Option<M>, drain: Option<D>) -> (r: HttpMetrics<N, M, D>)
        ensures
            r.node == node,
            r.membership == membership,
            r.drain == drain,
    {
        HttpMetrics { node, membership, drain }
    }

    /// The gauges of a node. Live members are counted where membership is
    /// tracked, and the node drains only where it can.
    pub fn runtime_gauges(&self, reading: &NodeReading) -> (r: RuntimeGauges)
        ensures
            r.node_id@ == reading.node_id@,
            r.workers@.len() == reading.workers@.len(),
            forall|i: int|
                0 <= i < reading.workers@.len() ==> samples(
                    reading.workers@[i],
                    #[trigger] r.workers@[i],
                ),
            r.membership_live == if self.membership is Some {
                Some(reading.live_members as i64)
            } else {
                None
            },
            r.cpu_permits_inuse == reading.cpu_permits_inuse,
            r.draining == (self.drain is Some && reading.draining),
    {
        let mut workers: Vec<WorkerGaugeSample> = Vec::new();
        let mut i: usize = 0;
        while i < reading.workers.len()
            invariant
                i <= reading.workers.len(),
                workers@.len() == i,
                forall|j: int| 0 <= j < i ==> samples(reading.workers@[j], #[trigger] workers@[j]),
            decreases reading.workers.len() - i,
        {
            let worker = &reading.workers[i];
            workers.push(
                worker_gauge_sample(
                    numeral_text(worker.id as u128),
                    &worker.profile,
                    worker.queue_depth as i64,
                ),
            );
            i += 1;
        }
        RuntimeGauges {
            node_id: reading.node_id.clone(),
            workers,
            membership_live: if self.membership.is_some() {
                Some(reading.live_members as i64)
            } else {
                None
            },
            cpu_permits_inuse: reading.cpu_permits_inuse as i64,
            draining: self.drain.is_some() && reading.draining,
        }
    }
}

/// On the public listener every path but the probes, the metrics and the internal
/// ones leads to rendering.
pub proof fn law_public_paths_lead_to_rendering(path: Seq<char>)
    requires
        path != "/livez"@,
        path != "/readyz"@,
        path != "/metrics"@,
        !("/_internal/"@.is_prefix_of(path)),
    ensures
        endpoint_of(Listener::Public, path) == Endpoint::Render,
{
    let head = "/_internal/"@;
    if begins_with(path, head) {
        assert(path.subrange(0, head.len() as int) =~= path.take(head.len() as int));
    }
}

/// On the combined listener every path but the probes, the metrics and forwarding
/// leads to rendering.
pub proof fn law_combined_paths_lead_to_rendering(path: Seq<char>)
    requires
        path != "/livez"@,
        path != "/readyz"@,
        path != "/_internal/healthz"@,
        path != "/_internal/readyz"@,
        path != "/_internal/metrics"@,
        path != "/_internal/forward"@,
    ensures
        endpoint_of(Listener::Combined, path) == Endpoint::Render,
{
}

/// The probes answer on the ports that they belong to: liveness and readiness on the
/// public and the combined one, and below `/_internal/` on the internal and the
/// combined one. There metrics and forwarding have their paths too.
pub proof fn law_probes_have_their_paths(path: Seq<char>)
    ensures
        endpoint_of(Listener::Public, "/livez"@) == Endpoint::Health,
        endpoint_of(Listener::Public, "/readyz"@) == Endpoint::Ready,
        endpoint_of(Listener::Public, "/metrics"@) == Endpoint::NotFound,
        endpoint_of(Listener::Combined, "/livez"@) == Endpoint::Health,
        endpoint_of(Listener::Combined, "/readyz"@) == Endpoint::Ready,
        endpoint_of(Listener::Combined, "/_internal/healthz"@) == Endpoint::Health,
        endpoint_of(Listener::Combined, "/_internal/readyz"@) == Endpoint::Ready,
        endpoint_of(Listener::Combined, "/_internal/metrics"@) == Endpoint::Metrics,
        endpoint_of(Listener::Combined, "/_internal/forward"@) == Endpoint::Forward,
        endpoint_of(Listener::Internal, "/_internal/healthz"@) == Endpoint::Health,
        endpoint_of(Listener::Internal, "/_internal/readyz"@) == Endpoint::Ready,
        endpoint_of(Listener::Internal, "/_internal/metrics"@) == Endpoint::Metrics,
        endpoint_of(Listener::Internal, "/_internal/forward"@) == Endpoint::Forward,
        path != "/_internal/healthz"@ && path != "/_internal/readyz"@ && path
            != "/_internal/metrics"@ && path != "/_internal/forward"@ ==> endpoint_of(
            Listener::Internal,
            path,
        ) == Endpoint::NotFound,
{
    reveal_strlit("/livez");
    reveal_strlit("/readyz");
    reveal_strlit("/metrics");
    reveal_strlit("/_internal/healthz");
    reveal_strlit("/_internal/readyz");
    reveal_strlit("/_internal/metrics");
    reveal_strlit("/_internal/forward");
    assert("/livez"@.len() == 6 && "/readyz"@.len() == 7 && "/metrics"@.len() == 8);
    assert("/readyz"@[1] == 'r' && "/metrics"@[1] == 'm');
    assert("/_internal/healthz"@.len() == 18 && "/_internal/metrics"@.len() == 18);
    assert("/_internal/healthz"@[11] == 'h' && "/_internal/metrics"@[11] == 'm');
    assert("/_internal/readyz"@.len() == 17);
    assert("/_internal/forward"@.len() == 18 && "/_internal/forward"@[11] == 'f');
}

/// A preview is told by its path: `preview` behind one or two other segments.
pub proof fn law_previews_are_told_by_their_path(path: Seq<char>)
    ensures
        names_preview(path) <==> 2 <= segments(path).len() <= 3 && segments(path)[segments(
            path,
        ).len() - 1] == "preview"@,
{
}

/// The gauges of a worker say what was read of it.
pub proof fn law_gauges_say_what_was_read(reading: WorkerReading, sample: WorkerGaugeSample)
    requires
        samples(reading, sample),
    ensures
        sample.worker@ == numeral(reading.id as nat),
        sample.queue_depth == reading.queue_depth,
        sample.loaded <==> reading.profile is Some,
        reading.profile is Some ==> sample.style_id@ == reading.profile->0.style_id@,
        reading.profile is Some ==> sample.render_mode@ == reading.profile->0.render_mode.text(),
        reading.profile is Some ==> sample.scale@ == reading.profile->0.scale.text(),
        reading.profile is None ==> sample.style_id@.len() == 0 && sample.render_mode@ == "none"@
            && sample.scale@ == "none"@,
{
}

/// A plain reply says what it was told to.
pub proof fn law_plain_replies_say_what_they_hold(r: PlainResponse, status: u16, body: Seq<char>)
    ensures
        r.says(status, body) <==> r.status == status && r.body@ == body,
{
}

/// A path may have 8 KiB, and a forwarded task 10 MiB.
pub proof fn law_requests_are_limited()
    ensures
        MAX_PUBLIC_PATH_BYTES == 8_192,
        MAX_INTERNAL_FORWARD_BODY_BYTES == 10_485_760,
{
}

} // verus!
