//! The course of one request through the proxy.

use reqwest::header::{HeaderMap, HeaderValue};
use vstd::prelude::*;
use vstd::string::*;

use crate::config::Cfg;
use crate::headers::{
    header_contents, headers_view, key_fits, request_contents, request_headers,
    response_forwards, response_headers, sure_to_fit, MAX_CAPACITY, SURE_NAMES,
};
use crate::json::{json_object, pairs_view};
use crate::rewrite::{patch_view, rewrite_body, rewritten_body};
use crate::text::{duration_quoted, duration_text, join, text_view};

verus! {

/// The largest request body, in bytes.
pub const BODY_LIMIT: usize = 16777216;

/// What a client asks for: its path and query, or `/` where it names none.
pub fn request_path<'a>(path_and_query: Option<&'a str>) -> (r: &'a str)
    ensures
        r@ == match path_and_query {
            Some(path) => path@,
            None => "/"@,
        },
{
    match path_and_query {
        Some(path) => path,
        None => "/",
    }
}

/// Where a request goes: the path and query, under the upstream address.
pub fn upstream_url(upstream: &str, path: &str) -> (r: String)
    ensures
        r@ == upstream@ + path@,
{
    upstream.to_owned().concat(path)
}

/// A request as it goes to the upstream.
#[derive(Debug)]
pub struct UpstreamRequest {
    pub url: String,
    pub headers: HeaderMap<HeaderValue>,
    /// The body in place of the client's, which is passed on as it is for `None`.
    pub body: Option<Vec<u8>>,
}

/// Makes the upstream request for a client's. `None` where a header map cannot hold so
/// many headers.
pub fn upstream_request(
    cfg: &Cfg,
    path_and_query: Option<&str>,
    headers: &Vec<(String, Vec<u8>)>,
    body: &[u8],
) -> (r: Option<UpstreamRequest>)
    requires
        key_fits(headers_view(headers@), text_view(cfg.api_key)),
    ensures
        r matches Some(out) ==> {
            &&& out.url@ == cfg.upstream@ + match path_and_query {
                Some(path) => path@,
                None => "/"@,
            }
            &&& header_contents(out.headers) == request_contents(
                headers_view(headers@),
                text_view(cfg.api_key),
            )
            &&& rewritten_body(body@, pairs_view(cfg.rename@), patch_view(cfg.patch@))
                == match out.body {
                Some(bytes) => Some(bytes@),
                None => None,
            }
        },
        headers@.len() + 3 <= SURE_NAMES ==> r is Some,
        headers@.len() + 2 <= MAX_CAPACITY && sure_to_fit(
            headers_view(headers@),
            text_view(cfg.api_key),
        ) ==> r is Some,
        headers@.len() + 2 > MAX_CAPACITY ==> r is None,
        headers@.len() <= 6551 ==> r is Some,
        r matches Some(out) ==> {
            &&& out.body is Some <==> json_object(body@) is Some && (cfg.rename@.len() > 0
                || cfg.patch@.len() > 0)
            &&& path_and_query matches Some(path) ==> out.url@ == cfg.upstream@ + path@
            &&& path_and_query is None ==> out.url@ == cfg.upstream@ + "/"@
        },
{
    let path = request_path(path_and_query);
    let new_body = rewrite_body(body, cfg.rename.as_slice(), cfg.patch.as_slice());
    match request_headers(headers, &cfg.api_key) {
        Some(headers) => Some(
            UpstreamRequest {
                url: upstream_url(cfg.upstream.as_str(), path),
                headers,
                body: new_body,
            },
        ),
        None => None,
    }
}

/// `actix_web::http::StatusCode::from_u16`. Believed of it: it takes the codes of three
/// digits, and no others.
#[verifier::external_body]
fn takes_status(code: u16) -> (r: bool)
    ensures
        r == (100 <= code <= 999),
{
    actix_web::http::StatusCode::from_u16(code).is_ok()
}

/// The status that a client sees for an upstream status: the same, or 502 where it has
/// not three digits.
pub open spec fn client_status(code: u16) -> u16 {
    if 100 <= code <= 999 {
        code
    } else {
        502
    }
}

/// The status that a client sees for an upstream status.
pub fn response_status(code: u16) -> (r: u16)
    ensures
        r == client_status(code),
        100 <= code <= 999 ==> r == code,
        code < 100 || code > 999 ==> r == 502,
{
    if takes_status(code) {
        code
    } else {
        502
    }
}

/// A status of three digits is passed on as it is, and any other as 502.
pub proof fn law_status_passes(code: u16)
    ensures
        100 <= code <= 999 ==> client_status(code) == code,
        code < 100 || code > 999 ==> client_status(code) == 502,
{
}

/// An answer that the proxy gives by itself.
#[derive(Debug)]
pub struct Reply {
    pub status: u16,
    pub content_type: &'static str,
    /// The value of a `Retry-After` header, where there is one.
    pub retry_after: Option<&'static str>,
    pub body: String,
}

/// Whether `reply` refuses a request that waited `seconds` for its turn in vain.
pub open spec fn is_refusal(reply: Reply, seconds: u64) -> bool {
    &&& reply.status == 503
    &&& reply.content_type@ == "text/plain"@
    &&& reply.retry_after matches Some(after) && after@ == "5"@
    &&& reply.body@ == "concurrency limit: queued "@ + duration_quoted(seconds) + " without a slot"@
}

/// Whether `reply` says that the upstream could not be reached, and why.
pub open spec fn is_bad_gateway(reply: Reply, reason: Seq<char>) -> bool {
    &&& reply.status == 502
    &&& reply.content_type@ == "text/plain"@
    &&& reply.retry_after is None
    &&& reply.body@ == "upstream error: "@ + reason
}

/// How far a request has come.
#[derive(Clone, Copy, Debug, PartialEq, Eq, Structural)]
pub enum Stage {
    /// It has arrived.
    Arrived,
    /// It waits for a slot.
    Queued,
    /// It is with the upstream, with a slot or, where there is no limit, without.
    Sent { slot: bool },
    /// The upstream's answer is passed on; the slot is held until the answer ends.
    Streaming { slot: bool },
    /// It is over.
    Done,
}

/// What happens to a request.
#[derive(Debug)]
pub enum Event {
    /// Its turn has come to be dealt with.
    Start,
    /// A slot is free, and it has it.
    Granted,
    /// No slot came free in time.
    TimedOut,
    /// The upstream could not be reached.
    Failed(String),
    /// The upstream answers, with a status and headers.
    Answered(u16, Vec<(String, Vec<u8>)>),
    /// The answer has been passed on to its end, or the client is gone.
    Ended,
}

/// What is to be done next.
#[derive(Debug)]
pub enum Action {
    /// Wait for a slot, for so many seconds at most.
    Queue(u64),
    /// Send the request to the upstream.
    Send,
    /// Answer the client.
    Answer(Reply),
    /// Answer the client with a status and headers, and pass the upstream's body on.
    Stream(u16, Vec<(String, Vec<u8>)>),
    /// Let go of what the request held.
    Release,
}

/// Where a request stands after an event, or `None` where the event cannot happen.
pub open spec fn next_stage(limit: Option<u32>, stage: Stage, event: Event) -> Option<Stage> {
    match (stage, event) {
        (Stage::Arrived, Event::Start) => Some(
            if limit is Some {
                Stage::Queued
            } else {
                Stage::Sent { slot: false }
            },
        ),
        (Stage::Queued, Event::Granted) => Some(Stage::Sent { slot: true }),
        (Stage::Queued, Event::TimedOut) => Some(Stage::Done),
        (Stage::Sent { .. }, Event::Failed(_)) => Some(Stage::Done),
        (Stage::Sent { slot }, Event::Answered(_, _)) => Some(Stage::Streaming { slot }),
        (Stage::Done, _) => None,
        (_, Event::Ended) => Some(Stage::Done),
        _ => None,
    }
}

/// Whether `action` is what `event` asks for, where the event can happen.
pub open spec fn is_action(
    limit: Option<u32>,
    queue_timeout: u64,
    event: Event,
    action: Action,
) -> bool {
    match event {
        Event::Start => if limit is Some {
            action == Action::Queue(queue_timeout)
        } else {
            action == Action::Send
        },
        Event::Granted => action == Action::Send,
        Event::TimedOut => action matches Action::Answer(reply) && is_refusal(reply, queue_timeout),
        Event::Failed(reason) => action matches Action::Answer(reply) && is_bad_gateway(
            reply,
            reason@,
        ),
        Event::Answered(status, headers) => action matches Action::Stream(code, kept) && code
            == client_status(status) && headers_view(kept@) == headers_view(headers@).filter(
            |h: (Seq<char>, Seq<u8>)| response_forwards(headers_view(headers@), h),
        ),
        Event::Ended => action == Action::Release,
    }
}

/// Decides what an event means for a request. `None` where the event cannot happen at
/// that stage.
pub fn proxy(limit: Option<u32>, queue_timeout: u64, stage: Stage, event: Event) -> (r: Option<
    (Stage, Action),
>)
    ensures
        match next_stage(limit, stage, event) {
            Some(next) => r matches Some((reached, action)) && reached == next && is_action(
                limit,
                queue_timeout,
                event,
                action,
            ),
            None => r is None,
        },
        // What each event leads to, stage by stage.
        stage is Arrived && event is Start && limit is Some ==> (r matches Some((next, action))
            && next == Stage::Queued && (action matches Action::Queue(seconds) && seconds
            == queue_timeout)),
        stage is Arrived && event is Start && limit is None ==> (r matches Some((next, action))
            && next == (Stage::Sent { slot: false }) && action is Send),
        stage is Queued && event is Granted ==> (r matches Some((next, action)) && next == (
        Stage::Sent { slot: true }) && action is Send),
        stage is Queued && event is TimedOut ==> (r matches Some((next, action)) && next
            == Stage::Done && (action matches Action::Answer(reply) && {
            &&& reply.status == 503
            &&& reply.content_type@ == "text/plain"@
            &&& reply.retry_after is Some
            &&& reply.retry_after->0@ == "5"@
            &&& reply.body@ == "concurrency limit: queued "@ + duration_quoted(queue_timeout)
                + " without a slot"@
        })),
        stage is Sent && event is Failed ==> (r matches Some((next, action)) && next == Stage::Done
            && (action matches Action::Answer(reply) && {
            &&& reply.status == 502
            &&& reply.content_type@ == "text/plain"@
            &&& reply.retry_after is None
            &&& reply.body@ == "upstream error: "@ + event->Failed_0@
        })),
        stage is Sent && event is Answered ==> (r matches Some((next, action)) && next == (
        Stage::Streaming { slot: stage->Sent_slot }) && (action matches Action::Stream(code, kept)
            && {
            &&& 100 <= event->Answered_0 <= 999 ==> code == event->Answered_0
            &&& event->Answered_0 < 100 || event->Answered_0 > 999 ==> code == 502
            &&& headers_view(kept@) == headers_view(event->Answered_1@).filter(
                |h: (Seq<char>, Seq<u8>)| response_forwards(headers_view(event->Answered_1@), h),
            )
        })),
        event is Ended && !(stage is Done) ==> (r matches Some((next, action)) && next
            == Stage::Done && action is Release),
        r is Some <==> {
            ||| stage is Arrived && (event is Start || event is Ended)
            ||| stage is Queued && (event is Granted || event is TimedOut || event is Ended)
            ||| stage is Sent && (event is Failed || event is Answered || event is Ended)
            ||| stage is Streaming && event is Ended
        },
{
    match (stage, event) {
        (Stage::Arrived, Event::Start) => if limit.is_some() {
            Some((Stage::Queued, Action::Queue(queue_timeout)))
        } else {
            Some((Stage::Sent { slot: false }, Action::Send))
        },
        (Stage::Queued, Event::Granted) => Some((Stage::Sent { slot: true }, Action::Send)),
        (Stage::Queued, Event::TimedOut) => {
            let waited = duration_text(queue_timeout);
            let body = join("concurrency limit: queued ", waited.as_str(), " without a slot");
            let reply = Reply {
                status: 503,
                content_type: "text/plain",
                retry_after: Some("5"),
                body,
            };
            Some((Stage::Done, Action::Answer(reply)))
        },
        (Stage::Sent { .. }, Event::Failed(reason)) => {
            let body = "upstream error: ".to_owned().concat(reason.as_str());
            let reply = Reply {
                status: 502,
                content_type: "text/plain",
                retry_after: None,
                body,
            };
            Some((Stage::Done, Action::Answer(reply)))
        },
        (Stage::Sent { slot }, Event::Answered(status, headers)) => {
            let kept = response_headers(&headers);
            Some((Stage::Streaming { slot }, Action::Stream(response_status(status), kept)))
        },
        (Stage::Done, _) => None,
        (_, Event::Ended) => Some((Stage::Done, Action::Release)),
        _ => None,
    }
}

/// Where a limit is set, a request that arrives waits for its slot, for the configured
/// seconds and no others. Where none is set, it is sent at once and holds no slot.
pub proof fn law_start(limit: Option<u32>, queue_timeout: u64, action: Action)
    ensures
        limit is Some ==> {
            &&& next_stage(limit, Stage::Arrived, Event::Start) == Some(Stage::Queued)
            &&& is_action(limit, queue_timeout, Event::Start, action) <==> (
            action matches Action::Queue(seconds) && seconds == queue_timeout)
        },
        limit is None ==> {
            &&& next_stage(limit, Stage::Arrived, Event::Start) == Some(
                (Stage::Sent { slot: false }),
            )
            &&& is_action(limit, queue_timeout, Event::Start, action) <==> action is Send
        },
{
}

/// A request leaves the queue in three ways: with a slot, and it is sent; without one in
/// time, and it is refused with 503 and told to try again in 5 seconds; or because its
/// client is gone.
pub proof fn law_queue(limit: Option<u32>, queue_timeout: u64, event: Event, action: Action)
    ensures
        next_stage(limit, Stage::Queued, event) is Some <==> event is Granted || event is TimedOut
            || event is Ended,
        event is Granted ==> {
            &&& next_stage(limit, Stage::Queued, event) == Some((Stage::Sent { slot: true }))
            &&& is_action(limit, queue_timeout, event, action) <==> action is Send
        },
        event is TimedOut ==> {
            &&& next_stage(limit, Stage::Queued, event) == Some(Stage::Done)
            &&& is_action(limit, queue_timeout, event, action) ==> (
            action matches Action::Answer(reply) && {
                &&& reply.status == 503
                &&& reply.content_type@ == "text/plain"@
                &&& reply.retry_after is Some
                &&& reply.retry_after->0@ == "5"@
                &&& reply.body@ == "concurrency limit: queued "@ + duration_quoted(queue_timeout)
                    + " without a slot"@
            })
        },
        event is Ended ==> next_stage(limit, Stage::Queued, event) == Some(Stage::Done),
{
}

/// A request that was sent is answered with 502 and the reason where the upstream cannot be
/// reached, and else with the upstream's status and the headers that may pass. It keeps
/// its slot while the answer is passed on.
pub proof fn law_answer(
    limit: Option<u32>,
    queue_timeout: u64,
    slot: bool,
    event: Event,
    action: Action,
)
    ensures
        next_stage(limit, (Stage::Sent { slot }), event) is Some <==> event is Failed
            || event is Answered || event is Ended,
        event matches Event::Failed(reason) ==> {
            &&& next_stage(limit, (Stage::Sent { slot }), event) == Some(Stage::Done)
            &&& is_action(limit, queue_timeout, event, action) ==> (
            action matches Action::Answer(reply) && {
                &&& reply.status == 502
                &&& reply.content_type@ == "text/plain"@
                &&& reply.retry_after is None
                &&& reply.body@ == "upstream error: "@ + reason@
            })
        },
        event matches Event::Answered(status, headers) ==> {
            &&& next_stage(limit, (Stage::Sent { slot }), event) == Some((Stage::Streaming { slot }))
            &&& is_action(limit, queue_timeout, event, action) ==> (
            action matches Action::Stream(code, kept) && {
                &&& 100 <= status <= 999 ==> code == status
                &&& status < 100 || status > 999 ==> code == 502
                &&& headers_view(kept@) == headers_view(headers@).filter(
                    |h: (Seq<char>, Seq<u8>)| response_forwards(headers_view(headers@), h),
                )
            })
        },
{
}

/// A request ends once: its client may leave at any time before, its answer ends it, and
/// nothing happens to it afterwards. A request that has ended holds no slot.
pub proof fn law_end(limit: Option<u32>, queue_timeout: u64, stage: Stage, event: Event, action: Action)
    ensures
        !(stage is Done) && event is Ended ==> {
            &&& next_stage(limit, stage, event) == Some(Stage::Done)
            &&& is_action(limit, queue_timeout, event, action) <==> action is Release
        },
        stage is Streaming ==> (next_stage(limit, stage, event) is Some <==> event is Ended),
        next_stage(limit, Stage::Done, event) is None,
        !holds_slot(Stage::Done),
        !with_upstream(Stage::Done),
{
}

/// A request is with the upstream from when it is sent to when its answer ends, and holds
/// a slot there where it was given one.
pub proof fn law_stages(slot: bool)
    ensures
        with_upstream((Stage::Sent { slot })),
        with_upstream((Stage::Streaming { slot })),
        !with_upstream(Stage::Arrived),
        !with_upstream(Stage::Queued),
        holds_slot((Stage::Sent { slot })) == slot,
        holds_slot((Stage::Streaming { slot })) == slot,
        !holds_slot(Stage::Arrived),
        !holds_slot(Stage::Queued),
{
}

/// Where a request stands after several events, or `None` where one of them cannot
/// happen.
pub open spec fn stage_after(limit: Option<u32>, events: Seq<Event>) -> Option<Stage>
    decreases events.len(),
{
    if events.len() == 0 {
        Some(Stage::Arrived)
    } else {
        match stage_after(limit, events.drop_last()) {
            Some(stage) => next_stage(limit, stage, events.last()),
            None => None,
        }
    }
}

/// Whether a request is with the upstream: it was sent, and its answer has not ended.
pub open spec fn with_upstream(stage: Stage) -> bool {
    stage is Sent || stage is Streaming
}

/// Where there is a limit, a request is with the upstream only after it was given a
/// slot, and it holds that slot as long as it is there. Without a limit it holds none.
pub proof fn law_slot_held(limit: Option<u32>, events: Seq<Event>)
    ensures
        stage_after(limit, events) matches Some(stage) ==> {
            &&& stage matches Stage::Sent { slot } ==> slot == limit is Some
            &&& stage matches Stage::Streaming { slot } ==> slot == limit is Some
            &&& with_upstream(stage) && limit is Some ==> exists|i: int|
                0 <= i < events.len() && #[trigger] events[i] is Granted
        },
    decreases events.len(),
{
    if events.len() > 0 {
        let rest = events.drop_last();
        law_slot_held(limit, rest);
        assert(events[events.len() - 1] == events.last());
        if let Some(before) = stage_after(limit, rest) {
            if with_upstream(before) && limit is Some {
                let i = choose|i: int| 0 <= i < rest.len() && #[trigger] rest[i] is Granted;
                assert(events[i] is Granted);
            }
        }
    }
}

proof fn lemma_prefix_happens(limit: Option<u32>, events: Seq<Event>, n: int)
    requires
        0 <= n <= events.len(),
        stage_after(limit, events) is Some,
    ensures
        stage_after(limit, events.take(n)) is Some,
    decreases events.len() - n,
{
    if n == events.len() {
        assert(events.take(n) == events);
    } else {
        lemma_prefix_happens(limit, events, n + 1);
        assert(events.take(n + 1).drop_last() == events.take(n));
    }
}

proof fn lemma_queued_first(limit: Option<u32>, events: Seq<Event>)
    ensures
        stage_after(limit, events) == Some(Stage::Arrived) ==> events.len() == 0,
        stage_after(limit, events) == Some(Stage::Queued) ==> events.len() == 1,
    decreases events.len(),
{
    if events.len() > 0 {
        lemma_queued_first(limit, events.drop_last());
    }
}

/// A request that leaves the queue without a slot, because it waited in vain or its
/// client is gone, is never with the upstream, before or after.
pub proof fn law_refused_stays_out(limit: Option<u32>, events: Seq<Event>, i: int, j: int)
    requires
        stage_after(limit, events) is Some,
        0 <= i < events.len(),
        stage_after(limit, events.take(i)) == Some(Stage::Queued),
        !(events[i] is Granted),
        0 <= j <= events.len(),
    ensures
        stage_after(limit, events.take(j)) matches Some(stage) && !with_upstream(stage),
{
    lemma_queued_first(limit, events.take(i));
    assert(i == 1);
    assert(events.take(2).drop_last() == events.take(1));
    assert(events.take(2).last() == events[1]);
    lemma_prefix_happens(limit, events, 2);
    assert(stage_after(limit, events.take(2)) == Some(Stage::Done));
    if events.len() > 2 {
        lemma_prefix_happens(limit, events, 3);
        assert(events.take(3).drop_last() == events.take(2));
    }
    assert(events.take(1).drop_last() == events.take(0));
    lemma_prefix_happens(limit, events, j);
}

/// How many requests are with the upstream.
pub open spec fn in_flight(stages: Seq<Stage>) -> nat
    decreases stages.len(),
{
    if stages.len() == 0 {
        0
    } else {
        in_flight(stages.drop_last()) + if with_upstream(stages.last()) {
            1nat
        } else {
            0
        }
    }
}

/// One more request counts as one where it is sent or streams, and else not at all.
pub proof fn law_in_flight(stages: Seq<Stage>, stage: Stage)
    ensures
        in_flight(Seq::empty()) == 0,
        in_flight(stages.push(stage)) == in_flight(stages) + (if stage is Sent
            || stage is Streaming {
            1nat
        } else {
            0
        }),
{
    assert(stages.push(stage).drop_last() =~= stages);
}

/// How many requests hold a slot.
pub open spec fn slots_held(stages: Seq<Stage>) -> nat
    decreases stages.len(),
{
    if stages.len() == 0 {
        0
    } else {
        slots_held(stages.drop_last()) + if holds_slot(stages.last()) {
            1nat
        } else {
            0
        }
    }
}

/// Whether a request holds a slot.
pub open spec fn holds_slot(stage: Stage) -> bool {
    match stage {
        Stage::Sent { slot } => slot,
        Stage::Streaming { slot } => slot,
        _ => false,
    }
}

/// Whether an event of request `i` leads from `before` to `after`. A slot is granted
/// only where fewer than `limit` are held.
pub open spec fn request_moves(
    limit: u32,
    before: Seq<Stage>,
    after: Seq<Stage>,
    i: int,
    event: Event,
) -> bool {
    &&& 0 <= i < before.len()
    &&& next_stage(Some(limit), before[i], event) matches Some(next) && after == before.update(
        i,
        next,
    )
    &&& event is Granted ==> slots_held(before) < limit
}

/// Whether a new request, or an event of one, leads from `before` to `after`.
pub open spec fn requests_move(limit: u32, before: Seq<Stage>, after: Seq<Stage>) -> bool {
    ||| after == before.push(Stage::Arrived)
    ||| exists|i: int, event: Event| #[trigger] request_moves(limit, before, after, i, event)
}

proof fn lemma_counts_after_update(stages: Seq<Stage>, i: int, next: Stage)
    requires
        0 <= i < stages.len(),
    ensures
        in_flight(stages.update(i, next)) == in_flight(stages) - (if with_upstream(stages[i]) {
            1int
        } else {
            0
        }) + (if with_upstream(next) {
            1int
        } else {
            0
        }),
        slots_held(stages.update(i, next)) == slots_held(stages) - (if holds_slot(stages[i]) {
            1int
        } else {
            0
        }) + (if holds_slot(next) {
            1int
        } else {
            0
        }),
    decreases stages.len(),
{
    let updated = stages.update(i, next);
    let rest = stages.drop_last();
    if i == stages.len() - 1 {
        assert(updated.drop_last() =~= rest);
    } else {
        lemma_counts_after_update(rest, i, next);
        assert(updated.drop_last() =~= rest.update(i, next));
    }
}

/// Whether a history begins with no requests and each of its steps can happen.
pub open spec fn is_history(limit: u32, states: Seq<Seq<Stage>>) -> bool {
    &&& states.len() > 0
    &&& states[0] == Seq::<Stage>::empty()
    &&& forall|k: int|
        0 <= k < states.len() - 1 ==> #[trigger] requests_move(limit, states[k], states[k + 1])
}

/// Whether each request that is with the upstream holds a slot, and no other does.
pub open spec fn slots_match(stages: Seq<Stage>) -> bool {
    forall|i: int|
        0 <= i < stages.len() ==> with_upstream(#[trigger] stages[i]) == holds_slot(stages[i])
}

/// At no time are more requests with the upstream than the limit allows, whatever
/// happens to each of them and in whatever order.
pub proof fn law_limit_holds(limit: u32, states: Seq<Seq<Stage>>, k: int)
    requires
        is_history(limit, states),
        0 <= k < states.len(),
    ensures
        in_flight(states[k]) <= limit,
{
    lemma_limit_holds(limit, states, k);
}

proof fn lemma_limit_holds(limit: u32, states: Seq<Seq<Stage>>, k: int)
    requires
        is_history(limit, states),
        0 <= k < states.len(),
    ensures
        in_flight(states[k]) <= limit,
        in_flight(states[k]) == slots_held(states[k]),
        slots_match(states[k]),
    decreases k,
{
    if k > 0 {
        lemma_limit_holds(limit, states, k - 1);
        let before = states[k - 1];
        let after = states[k];
        assert(requests_move(limit, states[k - 1], states[k - 1 + 1]));
        if after == before.push(Stage::Arrived) {
            assert(after.drop_last() =~= before);
        } else {
            let (i, event) = choose|i: int, event: Event| #[trigger]
                request_moves(limit, before, after, i, event);
            lemma_counts_after_update(before, i, after[i]);
            assert(with_upstream(before[i]) == holds_slot(before[i]));
        }
    }
}

} // verus!
