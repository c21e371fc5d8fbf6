//! Public requests: who is let in, what a path asks for, and what is answered.

use std::time::Duration;
use vstd::prelude::*;
use vstd::utf8::encode_utf8;
use crate::decimal::{all_digits, digit_values, is_digit, spelled};
use crate::http::response::{
    error_text, json_reply, outcome_reply, response_from_outcome, IngressResponse, ResponseView,
};
use crate::text::{cut, spells, views};
use crate::types::{RejectionReason, TaskOutcome, TaskResult};

verus! {

/// The digits of an unsigned number: a plus sign may stand in front.
pub open spec fn unsigned_digits(s: Seq<char>) -> Seq<char> {
    if s.len() > 0 && s[0] == '+' {
        s.skip(1)
    } else {
        s
    }
}

/// The text spells an unsigned number that is at most `max`.
pub open spec fn spells_unsigned(s: Seq<char>, max: nat) -> bool {
    let d = unsigned_digits(s);
    d.len() > 0 && all_digits(d) && spelled(d) <= max
}

proof fn lemma_spelled_grows(d: Seq<char>, i: int)
    requires
        0 <= i < d.len(),
        is_digit(d[i]),
    ensures
        spelled(d.take(i + 1)) == spelled(d.take(i)) * 10 + (d[i] as int - 48),
{
    let long = digit_values(d.take(i + 1));
    assert(long.drop_last() =~= digit_values(d.take(i)));
    assert(long.last() == (d[i] as int - 48) as u8);
}

/// Whether the characters spell an unsigned number up to `max`.
pub fn is_unsigned(chars: &[char], max: u32) -> (r: bool)
    ensures
        r == spells_unsigned(chars@, max as nat),
{
    let d = if chars.len() > 0 && chars[0] == '+' {
        cut(chars, 1, chars.len())
    } else {
        cut(chars, 0, chars.len())
    };
    assert(d@ =~= unsigned_digits(chars@));
    if d.len() == 0 {
        return false;
    }
    let mut value: u64 = 0;
    let mut over = false;
    let mut i: usize = 0;
    assert(digit_values(d@.take(0)) =~= Seq::<u8>::empty());
    while i < d.len()
        invariant
            i <= d.len(),
            d@ == unsigned_digits(chars@),
            forall|j: int| 0 <= j < i ==> is_digit(#[trigger] d@[j]),
            over ==> spelled(d@.take(i as int)) > max,
            !over ==> value == spelled(d@.take(i as int)) && value <= max,
        decreases d.len() - i,
    {
        let c: char = d[i];
        if !('0' <= c && c <= '9') {
            assert(!is_digit(d@[i as int]));
            return false;
        }
        proof {
            lemma_spelled_grows(d@, i as int);
        }
        if !over {
            value = value * 10 + (c as u32 - 48) as u64;
            over = value > max as u64;
        }
        i += 1;
    }
    assert(d@.take(i as int) =~= d@);
    !over
}

/// Whether the path asks for a static image. Two segments follow `static`, or
/// three with an overlay; three that name a tile belong to a style whose id ends
/// in `static`.
pub open spec fn asks_for_static(parts: Seq<Seq<char>>, names_tile: bool) -> bool {
    let n = parts.len();
    ||| n >= 4 && parts[n - 3] == "static"@
    ||| n >= 5 && parts[n - 4] == "static"@ && !tile_suffix(parts, names_tile)
}

/// The last three segments name a tile: zoom, column, and a row with a format.
pub open spec fn tile_suffix(parts: Seq<Seq<char>>, names_tile: bool) -> bool {
    let n = parts.len();
    spells_unsigned(parts[n - 3], 255) && spells_unsigned(parts[n - 2], 0xffff_ffff) && names_tile
}

/// Whether three segments name a tile. `names_tile` says that the last one is a
/// row with a format.
pub fn looks_like_user_static_tile_path(z: &[char], x: &[char], names_tile: bool) -> (r: bool)
    ensures
        r == (spells_unsigned(z@, 255) && spells_unsigned(x@, 0xffff_ffff) && names_tile),
{
    is_unsigned(z, 255) && is_unsigned(x, u32::MAX) && names_tile
}

/// Whether the segments of a path ask for a static image. `names_tile` says that
/// the last segment is a row with a format.
pub fn is_static_path(parts: &[Vec<char>], names_tile: bool) -> (r: bool)
    ensures
        r == asks_for_static(views(parts@), names_tile),
{
    let n: usize = parts.len();
    let ghost all = views(parts@);
    if n >= 4 {
        assert(all[n - 3] == parts@[n - 3]@);
        if spells(&parts[n - 3], "static") {
            return true;
        }
    }
    if n >= 5 {
        assert(all[n - 4] == parts@[n - 4]@);
        assert(all[n - 2] == parts@[n - 2]@);
        if spells(&parts[n - 4], "static") {
            return !looks_like_user_static_tile_path(&parts[n - 3], &parts[n - 2], names_tile);
        }
    }
    false
}

/// A style id may end in `static`: its tiles are still tiles.
pub proof fn law_a_style_may_be_named_static(parts: Seq<Seq<char>>)
    requires
        parts.len() >= 5,
        parts[parts.len() - 3] != "static"@,
        tile_suffix(parts, true),
    ensures
        !asks_for_static(parts, true),
{
}

/// Lets requests in, up to a limit.
#[derive(Clone, Copy, Debug)]
pub struct HttpIngress {
    /// How long a request may take.
    pub sla_budget: Duration,
    /// How many requests may be inside at once.
    pub limit: usize,
    /// How many requests are inside.
    pub inside: usize,
    pub next_task_id: u64,
}

/// The reply to a request that finds the node full.
pub open spec fn busy_reply(request_id: Seq<char>) -> ResponseView {
    json_reply(503, "ingress_busy"@, ""@).retry_after("1"@).request_id(request_id)
}

/// The reply to a request that finds the node draining.
pub open spec fn draining_reply(request_id: Seq<char>) -> ResponseView {
    json_reply(503, "service_draining"@, ""@).retry_after("2"@).request_id(request_id)
}

impl HttpIngress {
    /// There is room for at least one request, and no more are inside than fit.
    pub open spec fn wf(&self) -> bool {
        1 <= self.limit && self.inside <= self.limit
    }

    /// An ingress with nobody inside. The limit is at least one.
    pub fn with_drain_and_limit(sla_budget: Duration, concurrency_limit: usize) -> (r: HttpIngress)
        ensures
            r.wf(),
            r.sla_budget == sla_budget,
            r.limit == if concurrency_limit == 0 {
                1
            } else {
                concurrency_limit
            },
            r.inside == 0,
            r.next_task_id == 1,
    {
        let limit = if concurrency_limit == 0 {
            1
        } else {
            concurrency_limit
        };
        HttpIngress { sla_budget, limit, inside: 0, next_task_id: 1 }
    }

    /// Lets a request in, or gives the reply that turns it away.
    pub fn acquire_admission(&mut self, draining: bool, request_id: &str) -> (r: Result<
        (),
        IngressResponse,
    >)
        requires
            old(self).wf(),
        ensures
            final(self).wf(),
            match r {
                Ok(()) => old(self).inside < old(self).limit && !draining && *final(self)
                    == (HttpIngress { inside: (old(self).inside + 1) as usize, ..*old(self) }),
                Err(reply) => *final(self) == *old(self) && reply@ == if old(self).inside
                    == old(self).limit {
                    busy_reply(request_id@)
                } else {
                    draining_reply(request_id@)
                },
            },
            r is Ok == (old(self).inside < old(self).limit && !draining),
    {
        if self.inside == self.limit {
            return Err(
                IngressResponse::json(503, "ingress_busy", "").with_retry_after(
                    "1",
                ).with_request_id(request_id),
            );
        }
        if draining {
            return Err(
                IngressResponse::json(503, "service_draining", "").with_retry_after(
                    "2",
                ).with_request_id(request_id),
            );
        }
        self.inside += 1;
        Ok(())
    }

    /// A request that was let in is done.
    pub fn release_admission(&mut self)
        requires
            old(self).wf(),
            old(self).inside > 0,
        ensures
            final(self).wf(),
            *final(self) == (HttpIngress { inside: (old(self).inside - 1) as usize, ..*old(self) }),
    {
        self.inside -= 1;
    }

    /// The id of the next task. Ids start over after the largest.
    pub fn take_task_id(&mut self) -> (r: u64)
        ensures
            r == old(self).next_task_id,
            *final(self) == (HttpIngress {
                next_task_id: if old(self).next_task_id == u64::MAX {
                    0
                } else {
                    (old(self).next_task_id + 1) as u64
                },
                ..*old(self)
            }),
    {
        let id = self.next_task_id;
        self.next_task_id = if id == u64::MAX {
            0
        } else {
            id + 1
        };
        id
    }
}

/// The reply to a request whose task has ended. Where no renderer can start, a
/// rejection for want of capacity is the node's own trouble.
pub open spec fn render_reply(
    outcome: TaskOutcome,
    can_start_render: bool,
    request_id: Seq<char>,
) -> ResponseView {
    if !can_start_render && outcome.result == (TaskResult::Rejected {
        reason: RejectionReason::NoCapacity,
    }) {
        json_reply(503, "renderer_degraded"@, ""@).retry_after("2"@).request_id(request_id)
    } else {
        outcome_reply(outcome)
    }
}

/// Answers a request whose task has ended.
pub fn response_for_render(outcome: TaskOutcome, can_start_render: bool, request_id: &str) -> (r:
    IngressResponse)
    ensures
        r@ == render_reply(outcome, can_start_render, request_id@),
{
    let no_capacity = match &outcome.result {
        TaskResult::Rejected { reason } => match reason {
            RejectionReason::NoCapacity => true,
            _ => false,
        },
        _ => false,
    };
    if !can_start_render && no_capacity {
        return IngressResponse::json(503, "renderer_degraded", "").with_retry_after(
            "2",
        ).with_request_id(request_id);
    }
    response_from_outcome(outcome)
}

/// Answers a request whose task broke off.
pub fn internal_error_response(request_id: &str) -> (r: IngressResponse)
    ensures
        r@ == json_reply(500, "internal_error"@, ""@).request_id(request_id@),
{
    IngressResponse::json(500, "internal_error", "").with_request_id(request_id)
}

/// Each reply that sheds load is a 503 that says when to come back and names the
/// request, and each reason has a code of its own.
pub proof fn law_shed_requests_may_come_back(outcome: TaskOutcome, id: Seq<char>)
    requires
        outcome.result == (TaskResult::Rejected { reason: RejectionReason::NoCapacity }),
    ensures
        busy_reply(id).status == 503,
        busy_reply(id).headers =~= seq![("Retry-After"@, "1"@), ("x-request-id"@, id)],
        draining_reply(id).status == 503,
        draining_reply(id).headers =~= seq![("Retry-After"@, "2"@), ("x-request-id"@, id)],
        render_reply(outcome, false, id).status == 503,
        render_reply(outcome, false, id).headers =~= seq![
            ("Retry-After"@, "2"@),
            ("x-request-id"@, id),
        ],
        render_reply(outcome, true, id) == outcome_reply(outcome),
{
}

/// A number without a sign, or with a plus sign, is one up to its limit.
pub proof fn law_unsigned_numbers_end_at_their_limit(s: Seq<char>, max: nat)
    requires
        s.len() > 0,
        forall|i: int| 0 <= i < s.len() ==> '0' <= #[trigger] s[i] <= '9',
    ensures
        spells_unsigned(s, max) <==> spelled(s) <= max,
        spells_unsigned(seq!['+'] + s, max) <==> spelled(s) <= max,
        !spells_unsigned(seq!['-'] + s, max),
        !spells_unsigned(Seq::empty(), max),
{
    assert(s[0] != '+');
    assert((seq!['+'] + s).skip(1) =~= s);
    assert(all_digits(s));
    let minus = seq!['-'] + s;
    assert(minus[0] == '-');
    if spells_unsigned(minus, max) {
        assert(unsigned_digits(minus) == minus);
        assert(crate::decimal::is_digit(minus[0]));
    }
}

/// A path asks for a static image just if `static` stands before its last two segments,
/// or before its last three unless those name a tile; a path with neither asks for none.
pub proof fn law_static_images_are_asked_for_by_name(parts: Seq<Seq<char>>, names_tile: bool)
    ensures
        parts.len() >= 4 && parts[parts.len() - 3] == "static"@ ==> asks_for_static(
            parts,
            names_tile,
        ),
        parts.len() >= 5 && parts[parts.len() - 4] == "static"@ && !names_tile ==> asks_for_static(
            parts,
            names_tile,
        ),
        parts.len() >= 5 && parts[parts.len() - 4] == "static"@ && !spells_unsigned(
            parts[parts.len() - 3],
            255,
        ) ==> asks_for_static(parts, names_tile),
        asks_for_static(parts, names_tile) ==> parts.len() >= 4 && (parts[parts.len() - 3]
            == "static"@ || parts.len() >= 5 && parts[parts.len() - 4] == "static"@),
{
}

/// A request that is turned away at the door is told when to come back, and which request
/// it was.
pub proof fn law_requests_at_the_door_are_told_when_to_come_back(id: Seq<char>)
    ensures
        busy_reply(id).status == 503,
        busy_reply(id).headers.len() == 2,
        busy_reply(id).headers[0] == ("Retry-After"@, "1"@),
        busy_reply(id).headers[1] == ("x-request-id"@, id),
        draining_reply(id).status == 503,
        draining_reply(id).headers.len() == 2,
        draining_reply(id).headers[0] == ("Retry-After"@, "2"@),
        draining_reply(id).headers[1] == ("x-request-id"@, id),
        busy_reply(id).body == encode_utf8(error_text("ingress_busy"@, ""@)),
        draining_reply(id).body == encode_utf8(error_text("service_draining"@, ""@)),
{
}

/// A render that a node without a fit renderer turned away is answered as degraded, and
/// every other outcome as it is.
pub proof fn law_degraded_nodes_say_so(outcome: TaskOutcome, id: Seq<char>)
    ensures
        render_reply(outcome, true, id) == outcome_reply(outcome),
        !(outcome.result is Rejected) ==> render_reply(outcome, false, id) == outcome_reply(outcome),
        outcome.result is Rejected && outcome.result->reason != RejectionReason::NoCapacity
            ==> render_reply(outcome, false, id) == outcome_reply(outcome),
        outcome.result is Rejected && outcome.result->reason == RejectionReason::NoCapacity ==> {
            let reply = render_reply(outcome, false, id);
            &&& reply.status == 503
            &&& reply.body == encode_utf8(error_text("renderer_degraded"@, ""@))
            &&& reply.headers == seq![("Retry-After"@, "2"@), ("x-request-id"@, id)]
        },
{
    let reply = json_reply(503, "renderer_degraded"@, ""@).retry_after("2"@).request_id(id);
    assert(reply.headers =~= seq![("Retry-After"@, "2"@), ("x-request-id"@, id)]);
}

} // verus!
