//! How a chat completion request is served: from the cache, from a request in flight, or from
//! upstream.
use crate::bytes;
use crate::coalescing;
use crate::coalescing::CoalescingEngine;
use crate::coalescing::CoalescingGuard;
use crate::coalescing::CoalescingSlot;
use crate::config::Config;
use crate::digest;
use crate::json;
use crate::metrics;
use crate::metrics::MetricUpdate;
use crate::models;
use crate::models::CachePayload;
use crate::models::ChatCompletionRequest;
use crate::models::PayloadView;
use crate::score;
use crate::state;
use crate::state::Metrics;
use crate::text;
use crate::vector_store;
use tokio::sync::broadcast;
use vstd::prelude::*;
use vstd::string::*;

verus! {

/// The status and the headers of a reply.
#[derive(Debug)]
pub struct ReplyHead {
    pub status: u16,
    pub headers: Vec<(String, String)>,
}

/// What the head of a reply says.
#[verifier::ext_equal]
pub struct HeadView {
    pub status: u16,
    pub headers: Seq<(Seq<char>, Seq<char>)>,
}

impl View for ReplyHead {
    type V = HeadView;

    open spec fn view(&self) -> HeadView {
        HeadView {
            status: self.status,
            headers: Seq::new(
                self.headers@.len(),
                |i: int| (self.headers@[i].0@, self.headers@[i].1@),
            ),
        }
    }
}

/// Where a reply comes from.
#[derive(Debug, Clone, Copy, PartialEq, Eq, Structural)]
pub enum ReplySource {
    Hit,
    Miss,
    Coalesced,
    Bypass,
}

impl ReplySource {
    /// The value of the status header.
    pub open spec fn label(self) -> Seq<char> {
        match self {
            ReplySource::Hit => "HIT"@,
            ReplySource::Miss => "MISS"@,
            ReplySource::Coalesced => "COALESCED"@,
            ReplySource::Bypass => "BYPASS"@,
        }
    }

    /// The value of the status header.
    pub fn to_label(self) -> (r: String)
        ensures
            r@ == self.label(),
    {
        match self {
            ReplySource::Hit => "HIT".to_owned(),
            ReplySource::Miss => "MISS".to_owned(),
            ReplySource::Coalesced => "COALESCED".to_owned(),
            ReplySource::Bypass => "BYPASS".to_owned(),
        }
    }
}

/// The head of a reply that is a stream of events.
pub open spec fn stream_head_view(source: ReplySource) -> HeadView {
    HeadView {
        status: 200,
        headers: seq![
            ("content-type"@, "text/event-stream"@),
            ("cache-control"@, "no-cache"@),
            ("connection"@, "keep-alive"@),
            ("x-infercache-status"@, source.label()),
        ],
    }
}

/// The head of a reply that is one JSON value from the cache.
pub open spec fn json_head_view() -> HeadView {
    HeadView {
        status: 200,
        headers: seq![
            ("content-type"@, "application/json"@),
            ("x-infercache-status"@, ReplySource::Hit.label()),
        ],
    }
}

/// The head of a reply that is passed on from upstream, past the cache.
pub open spec fn bypass_head_view(status: u16) -> HeadView {
    HeadView {
        status,
        headers: seq![
            ("content-type"@, "text/event-stream"@),
            ("x-infercache-status"@, ReplySource::Bypass.label()),
        ],
    }
}

/// The head of a reply that is a stream of events.
pub fn stream_head(source: ReplySource) -> (r: ReplyHead)
    ensures
        r@ == stream_head_view(source),
{
    let mut headers: Vec<(String, String)> = Vec::new();
    headers.push(("content-type".to_owned(), "text/event-stream".to_owned()));
    headers.push(("cache-control".to_owned(), "no-cache".to_owned()));
    headers.push(("connection".to_owned(), "keep-alive".to_owned()));
    headers.push(("x-infercache-status".to_owned(), source.to_label()));
    let head = ReplyHead { status: 200, headers };
    assert(head@ =~= stream_head_view(source));
    head
}

/// The head of a reply that is one JSON value from the cache.
pub fn json_head() -> (r: ReplyHead)
    ensures
        r@ == json_head_view(),
{
    let mut headers: Vec<(String, String)> = Vec::new();
    headers.push(("content-type".to_owned(), "application/json".to_owned()));
    headers.push(("x-infercache-status".to_owned(), ReplySource::Hit.to_label()));
    let head = ReplyHead { status: 200, headers };
    assert(head@ =~= json_head_view());
    head
}

/// The head of a reply that is passed on from upstream, past the cache.
pub fn bypass_head(status: u16) -> (r: ReplyHead)
    ensures
        r@ == bypass_head_view(status),
{
    let mut headers: Vec<(String, String)> = Vec::new();
    headers.push(("content-type".to_owned(), "text/event-stream".to_owned()));
    headers.push(("x-infercache-status".to_owned(), ReplySource::Bypass.to_label()));
    let head = ReplyHead { status, headers };
    assert(head@ =~= bypass_head_view(status));
    head
}

/// What is known of a request when it comes in.
#[derive(Debug)]
pub struct RequestPlan {
    pub is_streaming: bool,
    pub prompt: String,
    pub prompt_hash: String,
    pub model: String,
    pub coalescing_key: String,
    /// The bits of the score that a stored answer has to reach.
    pub threshold: u32,
}

/// Whether a plan is that of a request.
pub open spec fn plans(plan: RequestPlan, request: ChatCompletionRequest) -> bool {
    &&& plan.is_streaming == (request.stream == Some(true))
    &&& plan.prompt@ == models::prompt_of(request.messages@)
    &&& plan.prompt_hash@ == digest::text_digest(plan.prompt@)
    &&& plan.model@ == request.model@
    &&& plan.coalescing_key@ == models::key_of(plan.model@, plan.prompt_hash@)
}

/// Takes a request in: counts it, and works out what serving it needs.
pub fn begin_request(
    request: &ChatCompletionRequest,
    config: &Config,
    metrics: &mut Metrics,
) -> (r: RequestPlan)
    ensures
        plans(r, *request),
        r.prompt_hash@.len() == 64,
        r.threshold == config.similarity_threshold,
        *final(metrics) == old(metrics).with_request(),
{
    metrics.count_request();
    let is_streaming = match request.stream {
        Some(stream) => stream,
        None => false,
    };
    let prompt = request.extract_prompt();
    let prompt_hash = ChatCompletionRequest::prompt_hash_from_prompt(prompt.as_str());
    let model = request.model.clone();
    let coalescing_key = models::make_key(model.as_str(), prompt_hash.as_str());
    RequestPlan {
        is_streaming,
        prompt,
        prompt_hash,
        model,
        coalescing_key,
        threshold: config.similarity_threshold,
    }
}

/// What happened last to a request.
pub enum Event {
    /// The prompt has no embedding.
    EmbeddingFailed,
    /// The prompt has its embedding, whose components are given by their bits.
    EmbeddingReady { vector: Vec<u32> },
    /// The store found an answer.
    Found { payload: CachePayload },
    /// The store found none.
    Missing,
    /// The store could not be asked.
    SearchFailed,
}

/// What is to be done next for a request.
pub enum Action {
    /// Ask upstream, past the cache.
    Bypass,
    /// Ask the store for the answer for the model that is most similar to the embedding and
    /// reaches the threshold, or else for that of the very prompt digest.
    Search { vector: Vec<u32>, prompt_hash: String, model: String, threshold: u32 },
    /// Reply with the stored events, one after another.
    ReplayStream { head: ReplyHead, chunks: Vec<String> },
    /// Reply with the stored answer as one JSON value.
    ReplayWhole { head: ReplyHead, body: serde_json::Value },
    /// Reply with what a request in flight receives.
    Follow { head: ReplyHead, receiver: broadcast::Receiver<String> },
    /// Ask upstream, and send what comes on the channel.
    Lead { sender: broadcast::Sender<String>, key: String },
}

/// The next action for a request, with what the request adds to the time series.
pub struct Decision {
    pub action: Action,
    pub updates: Vec<MetricUpdate>,
}

/// Whether an action asks the store for the answer to a request with that plan and embedding.
pub open spec fn searches(action: Action, plan: RequestPlan, embedding: Seq<u32>) -> bool {
    action matches Action::Search { vector, prompt_hash, model, threshold } && vector@ == embedding
        && prompt_hash@ == plan.prompt_hash@ && model@ == plan.model@ && threshold
        == plan.threshold
}

/// Whether an action gives a found payload to the client: as the stored events where the
/// request asks for a stream, else as one JSON value.
pub open spec fn replays(action: Action, is_streaming: bool, payload: PayloadView) -> bool {
    if is_streaming {
        action matches Action::ReplayStream { head, chunks } && head@ == stream_head_view(
            ReplySource::Hit,
        ) && text::texts(chunks@) == payload.sse_chunks
    } else {
        action matches Action::ReplayWhole { head, body } && head@ == json_head_view()
            && json::contents(body) == payload.completion()
    }
}

/// Whether an action is that of a request with a part in coalescing.
pub open spec fn takes_slot(action: Action, slot: CoalescingSlot) -> bool {
    match slot {
        CoalescingSlot::Leader { sender, key } => action == (Action::Lead { sender, key }),
        CoalescingSlot::Subscriber { receiver, key } => action matches Action::Follow {
            head,
            receiver: follows,
        } && head@ == stream_head_view(ReplySource::Coalesced) && follows == receiver,
    }
}

/// Whether a request whose answer is not stored takes that part in coalescing: it counts as a
/// miss and leads, or counts as a miss and as coalesced and listens.
pub open spec fn takes_part(
    plan: RequestPlan,
    before: Metrics,
    in_flight: Map<Seq<char>, broadcast::Sender<String>>,
    decision: Decision,
    after: Metrics,
    then_in_flight: Map<Seq<char>, broadcast::Sender<String>>,
    slot: CoalescingSlot,
) -> bool {
    &&& coalescing::acquires(in_flight, plan.coalescing_key@, slot, then_in_flight)
    &&& takes_slot(decision.action, slot)
    &&& if slot is Leader {
        metrics::update_views(decision.updates@) == metrics::miss_updates() && after
            == before.with_miss()
    } else {
        metrics::update_views(decision.updates@) == metrics::coalesced_updates(plan.model@)
            && after == before.with_miss().with_coalesced()
    }
}

/// Whether a request with that plan meets an event with that decision, and leaves the
/// counters and the requests in flight so.
pub open spec fn decides(
    plan: RequestPlan,
    event: Event,
    before: Metrics,
    in_flight: Map<Seq<char>, broadcast::Sender<String>>,
    decision: Decision,
    after: Metrics,
    then_in_flight: Map<Seq<char>, broadcast::Sender<String>>,
) -> bool {
    match event {
        Event::EmbeddingFailed => {
            &&& decision.action is Bypass
            &&& decision.updates@.len() == 0
            &&& after == before
            &&& then_in_flight == in_flight
        },
        Event::EmbeddingReady { vector } => {
            &&& searches(decision.action, plan, vector@)
            &&& decision.updates@.len() == 0
            &&& after == before
            &&& then_in_flight == in_flight
        },
        Event::Found { payload } => {
            &&& replays(decision.action, plan.is_streaming, payload@)
            &&& metrics::update_views(decision.updates@) == metrics::hit_updates()
            &&& after == before.with_hit()
            &&& then_in_flight == in_flight
        },
        Event::Missing | Event::SearchFailed => exists|slot: CoalescingSlot| #[trigger]
            takes_part(plan, before, in_flight, decision, after, then_in_flight, slot),
    }
}

/// Takes the part of a request whose answer is not stored.
fn take_part(plan: &RequestPlan, metrics: &mut Metrics, engine: &mut CoalescingEngine) -> (r:
    Decision)
    ensures
        exists|slot: CoalescingSlot| #[trigger]
            takes_part(
                *plan,
                *old(metrics),
                old(engine)@,
                r,
                *final(metrics),
                final(engine)@,
                slot,
            ),
{
    metrics.count_miss();
    let slot = engine.acquire(plan.coalescing_key.clone());
    let ghost part = slot;
    match slot {
        CoalescingSlot::Subscriber { receiver, key: _ } => {
            metrics.count_coalesced();
            let decision = Decision {
                action: Action::Follow { head: stream_head(ReplySource::Coalesced), receiver },
                updates: metrics::record_coalesced(plan.model.as_str()),
            };
            assert(takes_part(
                *plan,
                *old(metrics),
                old(engine)@,
                decision,
                *metrics,
                engine@,
                part,
            ));
            decision
        },
        CoalescingSlot::Leader { sender, key } => {
            let decision = Decision {
                action: Action::Lead { sender, key },
                updates: metrics::record_cache_miss(),
            };
            assert(takes_part(
                *plan,
                *old(metrics),
                old(engine)@,
                decision,
                *metrics,
                engine@,
                part,
            ));
            decision
        },
    }
}

/// Decides what is to be done next for a request, after what happened last.
pub fn decide(
    plan: &RequestPlan,
    event: Event,
    metrics: &mut Metrics,
    engine: &mut CoalescingEngine,
) -> (r: Decision)
    ensures
        decides(*plan, event, *old(metrics), old(engine)@, r, *final(metrics), final(engine)@),
{
    match event {
        Event::EmbeddingFailed => Decision { action: Action::Bypass, updates: Vec::new() },
        Event::EmbeddingReady { vector } => Decision {
            action: Action::Search {
                vector,
                prompt_hash: plan.prompt_hash.clone(),
                model: plan.model.clone(),
                threshold: plan.threshold,
            },
            updates: Vec::new(),
        },
        Event::Found { payload } => {
            metrics.count_hit();
            let updates = metrics::record_cache_hit();
            if plan.is_streaming {
                Decision {
                    action: Action::ReplayStream {
                        head: stream_head(ReplySource::Hit),
                        chunks: payload.sse_chunks,
                    },
                    updates,
                }
            } else {
                Decision {
                    action: Action::ReplayWhole {
                        head: json_head(),
                        body: payload.to_non_streaming_json(),
                    },
                    updates,
                }
            }
        },
        Event::Missing => take_part(plan, metrics, engine),
        Event::SearchFailed => take_part(plan, metrics, engine),
    }
}

/// How a request shows itself upstream.
#[derive(Debug)]
pub enum UpstreamAuth {
    /// With the authorization of the client.
    FromClient,
    /// With that authorization.
    Own { value: String },
    /// With none.
    Absent,
}

/// How a request shows itself upstream: with the authorization of the client where there is
/// one, else with the configured key, where there is one.
pub fn upstream_auth(client_has_one: bool, api_key: &Option<String>) -> (r: UpstreamAuth)
    ensures
        match r {
            UpstreamAuth::FromClient => client_has_one,
            UpstreamAuth::Own { value } => !client_has_one && *api_key is Some && value@
                == "Bearer "@ + api_key->Some_0@,
            UpstreamAuth::Absent => !client_has_one && *api_key is None,
        },
{
    if client_has_one {
        UpstreamAuth::FromClient
    } else {
        match api_key {
            Some(key) => {
                let mut value = "Bearer ".to_owned();
                value.append(key.as_str());
                UpstreamAuth::Own { value }
            },
            None => UpstreamAuth::Absent,
        }
    }
}

/// What upstream did with a request.
#[derive(Debug)]
pub enum UpstreamReply {
    /// It could not be reached.
    Unreachable,
    /// It answered with that status.
    Answered { status: u16 },
}

/// Whether a status tells of success.
pub open spec fn is_success(status: u16) -> bool {
    200 <= status < 300
}

/// Whether a status tells of success, so that the answer is streamed; else its body is read
/// as a whole and passed on.
pub fn succeeded(status: u16) -> (r: bool)
    ensures
        r == is_success(status),
{
    200 <= status && status < 300
}

/// What upstream did with the request of a leader.
#[derive(Debug)]
pub enum LeaderEvent {
    /// It could not be reached.
    Unreachable,
    /// It answered without success, with that status and that body.
    Refused { status: u16, text: String },
    /// It answered with success, and sends its events.
    Accepted,
}

/// How a leader replies.
pub enum LeaderReply {
    /// With an error of the gateway.
    GatewayError { status: u16, body: serde_json::Value },
    /// With the status and the body that upstream gave.
    PassOn { status: u16, text: String },
    /// With a stream of what upstream sends.
    Stream { head: ReplyHead },
}

/// The message of a gateway that cannot reach upstream.
pub open spec fn unreachable_message() -> Seq<char> {
    "Failed to connect to upstream LLM. Please retry."@
}

/// The error body of a leader that cannot reach upstream.
pub open spec fn leader_error_json() -> json::Json {
    json::Json::Record(
        map![
            "error"@ => json::Json::Record(
                map![
                    "message"@ => json::Json::Text(unreachable_message()),
                    "type"@ => json::Json::Text("infercache_gateway_error"@),
                ],
            ),
        ],
    )
}

/// The error body of a request past the cache that cannot reach upstream.
pub open spec fn bypass_error_json() -> json::Json {
    json::Json::Record(
        map![
            "error"@ => json::Json::Record(
                map!["message"@ => json::Json::Text(unreachable_message())],
            ),
        ],
    )
}

/// Whether a leader replies so to what upstream did: it fails where upstream cannot be
/// reached, passes on what is no success, and else streams.
pub open spec fn leader_replies(event: LeaderEvent, r: LeaderReply) -> bool {
    match event {
        LeaderEvent::Unreachable => r matches LeaderReply::GatewayError { status, body }
            && status == 502 && json::contents(body) == leader_error_json(),
        LeaderEvent::Refused { status, text } => r == (LeaderReply::PassOn { status, text }),
        LeaderEvent::Accepted => r matches LeaderReply::Stream { head } && head@
            == stream_head_view(ReplySource::Miss),
    }
}

/// How a leader replies to what upstream did. Where it does not stream, it is done, and gives
/// up its key.
pub fn lead(
    event: LeaderEvent,
    guard: &mut CoalescingGuard,
    engine: &mut CoalescingEngine,
) -> (r: LeaderReply)
    ensures
        leader_replies(event, r),
        event is Accepted ==> final(guard)@ == old(guard)@ && final(engine)@ == old(engine)@,
        !(event is Accepted) ==> final(guard)@ is None && final(engine)@ == (match old(guard)@ {
            Some(key) => old(engine)@.remove(key),
            None => old(engine)@,
        }),
{
    match event {
        LeaderEvent::Unreachable => {
            guard.finish(engine);
            let mut error = json::empty_record();
            json::put_text(
                &mut error,
                "message",
                "Failed to connect to upstream LLM. Please retry.",
            );
            json::put_text(&mut error, "type", "infercache_gateway_error");
            let mut body = json::empty_record();
            json::put(&mut body, "error", json::of_record(error));
            LeaderReply::GatewayError { status: 502, body: json::of_record(body) }
        },
        LeaderEvent::Refused { status, text } => {
            guard.finish(engine);
            LeaderReply::PassOn { status, text }
        },
        LeaderEvent::Accepted => LeaderReply::Stream { head: stream_head(ReplySource::Miss) },
    }
}

/// How a request past the cache replies.
pub enum BypassReply {
    /// With an error of the gateway.
    GatewayError { status: u16, body: serde_json::Value },
    /// With a stream of what upstream sends.
    Stream { head: ReplyHead },
}

/// How a request past the cache replies to what upstream did: it fails where upstream cannot
/// be reached, and else streams, whatever the status.
pub fn bypass(reply: UpstreamReply) -> (r: BypassReply)
    ensures
        match reply {
            UpstreamReply::Unreachable => r matches BypassReply::GatewayError { status, body }
                && status == 502 && json::contents(body) == bypass_error_json(),
            UpstreamReply::Answered { status } => r matches BypassReply::Stream { head } && head@
                == bypass_head_view(status),
        },
{
    match reply {
        UpstreamReply::Unreachable => {
            let mut error = json::empty_record();
            json::put_text(
                &mut error,
                "message",
                "Failed to connect to upstream LLM. Please retry.",
            );
            let mut body = json::empty_record();
            json::put(&mut body, "error", json::of_record(error));
            BypassReply::GatewayError { status: 502, body: json::of_record(body) }
        },
        UpstreamReply::Answered { status } => BypassReply::Stream { head: bypass_head(status) },
    }
}

/// Whether a line is the event that ends an answer: one that begins with `data:` and has the
/// end marker, with nothing but white space around it, as its data.
pub open spec fn is_end_line(line: Seq<char>) -> bool {
    "data:"@.is_prefix_of(line) && text::trimmed(line.skip(5)) == "[DONE]"@
}

/// Whether some line of a text is the event that ends an answer.
pub open spec fn ends(text: Seq<char>) -> bool {
    exists|i: int|
        0 <= i < text::lines_of(text).len() && is_end_line(#[trigger] text::lines_of(text)[i])
}

/// Whether the event that ends an answer comes in some chunks, wherever they are cut: whether
/// it stands in what they are together up to one of them.
pub open spec fn has_end(chunks: Seq<Seq<char>>) -> bool {
    exists|n: int|
        0 <= n <= chunks.len() && ends(bytes::joined_texts(#[trigger] chunks.take(n)))
}

/// Whether some line of a text is the event that ends an answer.
pub fn is_end(text: &str) -> (r: bool)
    ensures
        r == ends(text@),
{
    proof {
        reveal_strlit("data:");
    }
    let lines = text::lines(text);
    let ghost all = text::texts(lines@);
    let mut i: usize = 0;
    while i < lines.len()
        invariant
            i <= lines@.len(),
            all == text::texts(lines@),
            all == text::lines_of(text@),
            "data:"@.len() == 5,
            forall|j: int| 0 <= j < i ==> !is_end_line(#[trigger] all[j]),
        decreases lines@.len() - i,
    {
        assert(all[i as int] == lines@[i as int]@);
        if let Some(data) = text::after_prefix(lines[i].as_str(), "data:") {
            let marker = text::trim(data.as_str());
            if text::same(marker.as_str(), "[DONE]") {
                return true;
            }
        }
        i += 1;
    }
    false
}

/// What a leader knows of the answer that it streams.
#[derive(Debug)]
pub struct LeaderStream {
    accumulated_chunks: Vec<String>,
    pending: Vec<u8>,
    line: String,
    stream_complete: bool,
    failed: bool,
    primary_active: bool,
}

/// What a leader knows of the answer that it streams: the chunks so far, the bytes of a
/// character that goes on in the next chunk, the line that the chunks leave open, whether the
/// end event came before any failure, whether reading failed, and whether its own client still
/// listens.
#[verifier::ext_equal]
pub struct StreamView {
    pub chunks: Seq<Seq<char>>,
    pub pending: Seq<u8>,
    pub line: Seq<char>,
    pub complete: bool,
    pub failed: bool,
    pub primary: bool,
}

impl StreamView {
    /// Nothing has come yet, and the client listens.
    pub open spec fn fresh() -> StreamView {
        StreamView {
            chunks: Seq::empty(),
            pending: Seq::empty(),
            line: Seq::empty(),
            complete: false,
            failed: false,
            primary: true,
        }
    }

    /// One more chunk of text came, which goes on with the line that was left open.
    pub open spec fn with_chunk(self, chunk: Seq<char>) -> StreamView {
        StreamView {
            chunks: self.chunks.push(chunk),
            line: text::open_line(self.line + chunk),
            complete: self.complete || (!self.failed && ends(self.line + chunk)),
            ..self
        }
    }

    /// Some more chunks of text came, in that order.
    pub open spec fn with_chunks(self, chunks: Seq<Seq<char>>) -> StreamView
        decreases chunks.len(),
    {
        if chunks.len() == 0 {
            self
        } else {
            self.with_chunks(chunks.drop_last()).with_chunk(chunks.last())
        }
    }

    /// The text that some more bytes complete.
    pub open spec fn completed_by(self, piece: Seq<u8>) -> Seq<char> {
        bytes::text_of(bytes::decided_part(self.pending + piece))
    }

    /// Some more bytes came: their text, up to the last character that is complete, is one
    /// more chunk.
    pub open spec fn with_bytes(self, piece: Seq<u8>) -> StreamView {
        StreamView {
            pending: bytes::open_part(self.pending + piece),
            ..self.with_chunk(self.completed_by(piece))
        }
    }

    /// Some more pieces of bytes came, in that order.
    pub open spec fn with_pieces(self, pieces: Seq<Seq<u8>>) -> StreamView
        decreases pieces.len(),
    {
        if pieces.len() == 0 {
            self
        } else {
            self.with_pieces(pieces.drop_last()).with_bytes(pieces.last())
        }
    }

    /// No more bytes come: those of a character that was not completed are one more chunk.
    pub open spec fn with_rest(self) -> StreamView {
        if self.pending.len() == 0 {
            self
        } else {
            StreamView {
                pending: Seq::empty(),
                ..self.with_chunk(bytes::text_of(self.pending))
            }
        }
    }

    /// Reading failed.
    pub open spec fn with_failure(self) -> StreamView {
        StreamView { failed: true, ..self }
    }

    /// The client may have left.
    pub open spec fn with_primary(self, primary: bool) -> StreamView {
        StreamView { primary, ..self }
    }

    /// Whether the answer is kept.
    pub open spec fn kept(self) -> bool {
        self.complete && self.chunks.len() > 0
    }
}

impl View for LeaderStream {
    type V = StreamView;

    closed spec fn view(&self) -> StreamView {
        StreamView {
            chunks: text::texts(self.accumulated_chunks@),
            pending: self.pending@,
            line: self.line@,
            complete: self.stream_complete,
            failed: self.failed,
            primary: self.primary_active,
        }
    }
}

/// What a leader does with a chunk: it sends the text to all who listen, and also to its own
/// client where that one still does.
#[derive(Debug)]
pub struct Delivery {
    pub text: String,
    pub to_primary: bool,
}

/// Whether a leader goes on reading.
#[derive(Debug, Clone, Copy, PartialEq, Eq, Structural)]
pub enum Pace {
    Continue,
    Stop,
}

impl LeaderStream {
    /// Nothing has come yet, and the client listens.
    pub fn new() -> (r: Self)
        ensures
            r@ == StreamView::fresh(),
    {
        let r = LeaderStream {
            accumulated_chunks: Vec::new(),
            pending: Vec::new(),
            line: String::new(),
            stream_complete: false,
            failed: false,
            primary_active: true,
        };
        assert(r@ =~= StreamView::fresh());
        r
    }

    /// Takes up a chunk of text, and says whether it goes to the client.
    pub fn receive_text(&mut self, text: &str) -> (r: bool)
        ensures
            final(self)@ == old(self)@.with_chunk(text@),
            r == old(self)@.primary,
    {
        let ghost before = self@;
        self.accumulated_chunks.push(text.to_owned());
        let mut open = self.line.clone();
        open.append(text);
        if !self.failed && is_end(open.as_str()) {
            self.stream_complete = true;
        }
        self.line = text::last_line(open.as_str());
        assert(self@ =~= before.with_chunk(text@));
        self.primary_active
    }

    /// Takes up a chunk of bytes, and says to whom its text goes. The bytes of a character
    /// that is not complete wait for the next chunk.
    pub fn receive(&mut self, bytes: &[u8]) -> (r: Delivery)
        ensures
            final(self)@ == old(self)@.with_bytes(bytes@),
            r.text@ == old(self)@.completed_by(bytes@),
            final(self)@.chunks == old(self)@.chunks.push(r.text@),
            r.to_primary == old(self)@.primary,
    {
        let ghost before = self@;
        self.pending.extend_from_slice(bytes);
        assert(self.pending@ =~= before.pending + bytes@);
        let n: usize = bytes::count_undecided(&self.pending);
        let at: usize = self.pending.len() - n;
        let rest = self.pending.split_off(at);
        assert(self.pending@ =~= bytes::decided_part(before.pending + bytes@));
        assert(rest@ =~= bytes::open_part(before.pending + bytes@));
        let text = bytes::decode(self.pending.as_slice());
        self.pending = rest;
        let to_primary = self.receive_text(text.as_str());
        assert(self@ =~= before.with_bytes(bytes@));
        Delivery { text, to_primary }
    }

    /// Takes up that no more bytes come: those of a character that was not completed make one
    /// more chunk, where there are any.
    pub fn receive_rest(&mut self) -> (r: Option<Delivery>)
        ensures
            final(self)@ == old(self)@.with_rest(),
            match r {
                Some(delivery) => old(self)@.pending.len() > 0 && delivery.text@
                    == bytes::text_of(old(self)@.pending) && delivery.to_primary
                    == old(self)@.primary && final(self)@.chunks == old(self)@.chunks.push(
                    delivery.text@,
                ),
                None => old(self)@.pending.len() == 0 && final(self)@ == old(self)@,
            },
    {
        let ghost before = self@;
        if self.pending.len() == 0 {
            return None;
        }
        let text = bytes::decode(self.pending.as_slice());
        self.pending = Vec::new();
        let to_primary = self.receive_text(text.as_str());
        assert(self@ =~= before.with_rest());
        Some(Delivery { text, to_primary })
    }

    /// Takes up how a chunk was received: whether the client took it, where it was sent to
    /// the client, and how many others listen. Reading stops when nobody listens any more.
    pub fn delivered(&mut self, primary_took_it: bool, listeners: usize) -> (r: Pace)
        ensures
            final(self)@ == old(self)@.with_primary(old(self)@.primary && primary_took_it),
            (r is Stop) == (!final(self)@.primary && listeners == 0),
    {
        let ghost before = self@;
        if self.primary_active {
            if !primary_took_it {
                self.primary_active = false;
                assert(self@ =~= before.with_primary(false));
                if listeners == 0 {
                    return Pace::Stop;
                }
            }
        } else if listeners == 0 {
            assert(self@ =~= before.with_primary(false));
            return Pace::Stop;
        }
        assert(self@ =~= before.with_primary(before.primary && primary_took_it));
        Pace::Continue
    }

    /// Takes up that reading failed, and says whether the error goes to the client: where that
    /// one still listens. An answer that was not complete before is not kept any more.
    pub fn fail(&mut self) -> (r: bool)
        ensures
            final(self)@ == old(self)@.with_failure(),
            r == old(self)@.primary,
    {
        let ghost before = self@;
        self.failed = true;
        assert(self@ =~= before.with_failure());
        self.primary_active
    }

    /// What is kept of the answer when no more chunks come: all of them, where one had the
    /// end event before any failure, and else nothing.
    pub fn into_chunks(self) -> (r: Option<Vec<String>>)
        ensures
            r is Some == self@.kept(),
            r is Some ==> text::texts(r->Some_0@) == self@.chunks,
    {
        if self.stream_complete && self.accumulated_chunks.len() > 0 {
            Some(self.accumulated_chunks)
        } else {
            None
        }
    }

    /// The payload that is kept of the answer to a request, now, when no more chunks come.
    /// The time that it carries is a reading of the clock.
    pub fn finish(self, prompt_hash: String, prompt: String, model: String) -> (r: Option<
        CachePayload,
    >)
        ensures
            r is Some == self@.kept(),
            r matches Some(payload) ==> {
                &&& payload@.prompt_hash == prompt_hash@
                &&& payload@.prompt == prompt@
                &&& payload@.model == model@
                &&& payload@.sse_chunks == self@.chunks
                &&& exists|seconds: Option<u64>| #[trigger]
                    models::clock_says(seconds) && payload@.created_at == models::storing_time(
                        seconds,
                    )
            },
    {
        match self.into_chunks() {
            Some(chunks) => Some(CachePayload::new(prompt_hash, prompt, model, chunks)),
            None => None,
        }
    }
}

/// What happened last at the end of a stream.
pub enum EndEvent {
    /// No more chunks come, and this is kept of the answer.
    Ended { kept: Option<CachePayload> },
    /// The store has the answer.
    Stored,
    /// The store could not take the answer.
    StoreFailed,
}

/// What is to be done next at the end of a stream.
pub enum EndAction {
    /// Store the answer, and say what came of it.
    Store { payload: CachePayload },
    /// Nothing: the leader is done.
    Done,
}

/// Whether a leader meets an event at the end of its stream with that action, and leaves its
/// guard and the requests in flight so: where an answer is kept, it is stored first, and the
/// key is given up only then.
pub open spec fn winds_up(
    event: EndEvent,
    guard: Option<Seq<char>>,
    in_flight: Map<Seq<char>, broadcast::Sender<String>>,
    action: EndAction,
    then_guard: Option<Seq<char>>,
    then_in_flight: Map<Seq<char>, broadcast::Sender<String>>,
) -> bool {
    match event {
        EndEvent::Ended { kept: Some(payload) } => {
            &&& action == (EndAction::Store { payload })
            &&& then_guard == guard
            &&& then_in_flight == in_flight
        },
        _ => {
            &&& action is Done
            &&& then_guard is None
            &&& then_in_flight == match guard {
                Some(key) => in_flight.remove(key),
                None => in_flight,
            }
        },
    }
}

/// Decides what a leader does next at the end of its stream.
pub fn wind_up(
    event: EndEvent,
    guard: &mut CoalescingGuard,
    engine: &mut CoalescingEngine,
) -> (r: EndAction)
    ensures
        winds_up(event, old(guard)@, old(engine)@, r, final(guard)@, final(engine)@),
{
    match event {
        EndEvent::Ended { kept: Some(payload) } => EndAction::Store { payload },
        EndEvent::Ended { kept: None } => {
            guard.finish(engine);
            EndAction::Done
        },
        EndEvent::Stored => {
            guard.finish(engine);
            EndAction::Done
        },
        EndEvent::StoreFailed => {
            guard.finish(engine);
            EndAction::Done
        },
    }
}

/// A text that goes on after the end of a line has the end event before or after that.
proof fn lemma_ends_in_runs(start: Seq<char>, rest: Seq<char>)
    requires
        text::at_line_start(start),
    ensures
        ends(start + rest) == (ends(start) || ends(rest)),
{
    text::law_lines_in_runs(start, rest);
    let before = text::lines_of(start);
    let after = text::lines_of(rest);
    let all = text::lines_of(start + rest);
    if ends(start) {
        let i = choose|i: int| 0 <= i < before.len() && is_end_line(#[trigger] before[i]);
        assert(is_end_line(all[i]));
    }
    if ends(rest) {
        let i = choose|i: int| 0 <= i < after.len() && is_end_line(#[trigger] after[i]);
        assert(is_end_line(all[before.len() + i]));
    }
    if ends(start + rest) {
        let i = choose|i: int| 0 <= i < all.len() && is_end_line(#[trigger] all[i]);
        if i < before.len() {
            assert(is_end_line(before[i]));
        } else {
            assert(is_end_line(after[i - before.len()]));
        }
    }
}

/// Whether the end event stands in a text that goes on can be told from the text so far and
/// from the line that it left open. So can the line that is left open then.
proof fn lemma_ends_by_open_line(so_far: Seq<char>, chunk: Seq<char>)
    ensures
        ends(text::open_line(so_far) + chunk) ==> ends(so_far + chunk),
        ends(so_far + chunk) ==> ends(so_far) || ends(text::open_line(so_far) + chunk),
        text::open_line(so_far + chunk) == text::open_line(text::open_line(so_far) + chunk),
{
    text::law_open_line_is_the_end(so_far);
    let line = text::open_line(so_far);
    let start = so_far.take(so_far.len() - line.len());
    assert(so_far + chunk =~= start + (line + chunk));
    lemma_ends_in_runs(start, line);
    lemma_ends_in_runs(start, line + chunk);
    text::law_lines_in_runs(start, line + chunk);
}

/// What some chunks are together, with one more.
proof fn lemma_joined_push(chunks: Seq<Seq<char>>, chunk: Seq<char>)
    ensures
        bytes::joined_texts(chunks.push(chunk)) == bytes::joined_texts(chunks) + chunk,
        has_end(chunks.push(chunk)) == (has_end(chunks) || ends(
            bytes::joined_texts(chunks) + chunk,
        )),
        ends(bytes::joined_texts(chunks)) ==> has_end(chunks),
{
    let longer = chunks.push(chunk);
    assert(longer.drop_last() =~= chunks);
    assert(longer.take(longer.len() as int) =~= longer);
    assert(chunks.take(chunks.len() as int) =~= chunks);
    assert forall|n: int| 0 <= n <= chunks.len() implies longer.take(n) == #[trigger] chunks.take(
        n,
    ) by {
        assert(longer.take(n) =~= chunks.take(n));
    }
    if has_end(chunks) {
        let n = choose|n: int|
            0 <= n <= chunks.len() && ends(bytes::joined_texts(#[trigger] chunks.take(n)));
        assert(ends(bytes::joined_texts(longer.take(n))));
    }
    if has_end(longer) {
        let n = choose|n: int|
            0 <= n <= longer.len() && ends(bytes::joined_texts(#[trigger] longer.take(n)));
        if n <= chunks.len() {
            assert(ends(bytes::joined_texts(chunks.take(n))));
        }
    }
}

/// A leader records exactly the chunks that came, in their order, and knows the answer to be
/// complete exactly where the end event came in them, wherever they were cut. The line that it
/// goes on with is the one that the chunks together leave open.
pub proof fn law_recording_is_faithful(chunks: Seq<Seq<char>>)
    ensures
        StreamView::fresh().with_chunks(chunks).chunks == chunks,
        StreamView::fresh().with_chunks(chunks).line == text::open_line(
            bytes::joined_texts(chunks),
        ),
        StreamView::fresh().with_chunks(chunks).complete == has_end(chunks),
        !StreamView::fresh().with_chunks(chunks).failed,
    decreases chunks.len(),
{
    if chunks.len() == 0 {
        assert(StreamView::fresh().chunks =~= chunks);
        assert(text::open_line(Seq::<char>::empty()) =~= Seq::<char>::empty());
        assert(text::lines_of(Seq::<char>::empty()).len() == 0);
        assert(forall|n: int| 0 <= n <= 0 ==> #[trigger] chunks.take(n) =~= chunks);
    } else {
        let rest = chunks.drop_last();
        let chunk = chunks.last();
        law_recording_is_faithful(rest);
        assert(rest.push(chunk) =~= chunks);
        lemma_joined_push(rest, chunk);
        lemma_ends_by_open_line(bytes::joined_texts(rest), chunk);
    }
}

/// What a leader knows after some pieces of bytes is what it knows after their texts.
proof fn lemma_pieces_as_chunks(pieces: Seq<Seq<u8>>)
    ensures
        StreamView::fresh().with_pieces(pieces) == (StreamView {
            pending: bytes::open_after(pieces),
            ..StreamView::fresh().with_chunks(bytes::texts_of(pieces))
        }),
    decreases pieces.len(),
{
    if pieces.len() == 0 {
        assert(bytes::texts_of(pieces) =~= Seq::<Seq<char>>::empty());
        assert(bytes::open_after(pieces) =~= Seq::<u8>::empty());
    } else {
        lemma_pieces_as_chunks(pieces.drop_last());
        let texts = bytes::texts_of(pieces);
        assert(texts.drop_last() =~= bytes::texts_of(pieces.drop_last()));
    }
}

/// Chunks say nothing about whether the client listens.
proof fn lemma_chunks_keep_primary(stream: StreamView, chunks: Seq<Seq<char>>)
    ensures
        stream.with_chunks(chunks).primary == stream.primary,
    decreases chunks.len(),
{
    if chunks.len() > 0 {
        lemma_chunks_keep_primary(stream, chunks.drop_last());
    }
}

/// What a leader records of pieces of bytes is one text for each, in their order, and it
/// knows the answer to be complete exactly where the end event came in these texts.
pub proof fn law_pieces_are_recorded(pieces: Seq<Seq<u8>>)
    ensures
        ({
            let stream = StreamView::fresh().with_pieces(pieces);
            &&& stream.chunks == bytes::texts_of(pieces)
            &&& stream.pending == bytes::open_after(pieces)
            &&& stream.complete == has_end(bytes::texts_of(pieces))
            &&& !stream.failed
            &&& stream.primary
        }),
{
    lemma_pieces_as_chunks(pieces);
    law_recording_is_faithful(bytes::texts_of(pieces));
    lemma_chunks_keep_primary(StreamView::fresh(), bytes::texts_of(pieces));
}

/// A whole answer is kept, wherever it is cut: where the bytes that upstream sent are UTF-8 as
/// a whole, and their text has the end event, the answer is kept, with those bytes.
pub proof fn law_whole_answers_are_kept(pieces: Seq<Seq<u8>>)
    requires
        vstd::utf8::valid_utf8(bytes::joined_bytes(pieces)),
        ends(vstd::utf8::decode_utf8(bytes::joined_bytes(pieces))),
    ensures
        StreamView::fresh().with_pieces(pieces).kept(),
        vstd::utf8::encode_utf8(
            bytes::joined_texts(StreamView::fresh().with_pieces(pieces).chunks),
        ) == bytes::joined_bytes(pieces),
{
    let texts = bytes::texts_of(pieces);
    law_raw_bytes_are_recorded(pieces);
    law_pieces_are_recorded(pieces);
    bytes::law_bytes_come_through(pieces);
    assert(texts.take(texts.len() as int) =~= texts);
    assert(has_end(texts));
    law_recording_is_faithful(texts);
    lemma_end_needs_chunks(texts);
}

/// Without a chunk there is no end event.
proof fn lemma_end_needs_chunks(chunks: Seq<Seq<char>>)
    requires
        has_end(chunks),
    ensures
        chunks.len() > 0,
{
    if chunks.len() == 0 {
        law_recording_is_faithful(chunks);
    }
}

/// A leader streams and records the raw bytes that upstream sent: where they are UTF-8 as a
/// whole, the recorded chunks together encode to just these bytes, however they were cut, and
/// no rest is left over.
pub proof fn law_raw_bytes_are_recorded(pieces: Seq<Seq<u8>>)
    requires
        vstd::utf8::valid_utf8(bytes::joined_bytes(pieces)),
    ensures
        ({
            let stream = StreamView::fresh().with_pieces(pieces);
            &&& vstd::utf8::encode_utf8(bytes::joined_texts(stream.chunks)) == bytes::joined_bytes(
                pieces,
            )
            &&& stream.chunks.len() == pieces.len()
            &&& stream.with_rest() == stream
        }),
{
    law_pieces_are_recorded(pieces);
    bytes::law_bytes_come_through(pieces);
    bytes::law_one_text_for_each_piece(pieces);
}

/// Who listens makes no difference to what is recorded: it is the same when the client leaves
/// before something comes as when it leaves afterwards.
pub proof fn law_listeners_do_not_matter(
    stream: StreamView,
    chunk: Seq<char>,
    piece: Seq<u8>,
    primary: bool,
)
    ensures
        stream.with_primary(primary).with_chunk(chunk) == stream.with_chunk(chunk).with_primary(
            primary,
        ),
        stream.with_primary(primary).with_bytes(piece) == stream.with_bytes(piece).with_primary(
            primary,
        ),
        stream.with_primary(primary).with_rest() == stream.with_rest().with_primary(primary),
        stream.with_primary(primary).with_failure() == stream.with_failure().with_primary(primary),
        stream.with_primary(primary).kept() == stream.kept(),
{
}

/// An answer that breaks off before the end event is not kept: a stream that is recorded
/// from the start is kept exactly where the end event came in its chunks, wherever they were
/// cut.
pub proof fn law_partial_answers_are_not_kept(chunks: Seq<Seq<char>>)
    ensures
        StreamView::fresh().with_chunks(chunks).kept() == has_end(chunks),
{
    law_recording_is_faithful(chunks);
    if has_end(chunks) {
        lemma_end_needs_chunks(chunks);
    }
}

/// An answer whose reading failed before the end event is not kept, whatever comes after; one
/// whose end event came before the failure is.
pub proof fn law_failed_answers_are_not_kept(chunks: Seq<Seq<char>>, after: Seq<Seq<char>>)
    ensures
        StreamView::fresh().with_chunks(chunks).with_failure().with_chunks(after).kept()
            == has_end(chunks),
    decreases after.len(),
{
    law_recording_is_faithful(chunks);
    let failed = StreamView::fresh().with_chunks(chunks).with_failure();
    lemma_failure_stays(failed, after);
    if has_end(chunks) {
        lemma_end_needs_chunks(chunks);
    }
}

/// After a failure, chunks change nothing about whether the answer is complete.
proof fn lemma_failure_stays(stream: StreamView, after: Seq<Seq<char>>)
    requires
        stream.failed,
    ensures
        stream.with_chunks(after).failed,
        stream.with_chunks(after).complete == stream.complete,
        stream.with_chunks(after).chunks.len() == stream.chunks.len() + after.len(),
    decreases after.len(),
{
    if after.len() > 0 {
        lemma_failure_stays(stream, after.drop_last());
    }
}

/// The end marker within the text of an answer does not end it: a chunk with which no line
/// becomes the end event leaves a stream as incomplete as it was.
pub proof fn law_marker_in_the_text_ends_nothing(stream: StreamView, chunk: Seq<char>)
    requires
        forall|i: int|
            0 <= i < text::lines_of(stream.line + chunk).len() ==> !is_end_line(
                #[trigger] text::lines_of(stream.line + chunk)[i],
            ),
    ensures
        stream.with_chunk(chunk).complete == stream.complete,
{
}

/// A hit replays what was streamed: where an answer was recorded and stored, and is the most
/// similar one to a later request for its model, a client that asks for a stream gets the
/// chunks that upstream sent, in their order.
pub proof fn law_hit_replays_stream(
    chunks: Seq<Seq<char>>,
    entries: Seq<vector_store::EntryView>,
    entry: vector_store::EntryView,
    scores: Seq<u32>,
    hash: Seq<char>,
    threshold: u32,
    found: Option<PayloadView>,
    action: Action,
)
    requires
        entry.payload.sse_chunks == StreamView::fresh().with_chunks(chunks).chunks,
        !vector_store::has_hash(entries, entry.payload.prompt_hash),
        scores.len() == vector_store::after_insert(entries, entry).len(),
        score::at_least(scores.last(), threshold),
        forall|j: int|
            #![trigger vector_store::after_insert(entries, entry)[j]]
            0 <= j < scores.len() - 1 && vector_store::eligible(
                vector_store::after_insert(entries, entry)[j],
                scores[j],
                entry.payload.model,
                threshold,
            ) ==> score::above(scores.last(), scores[j]),
        vector_store::answers(
            vector_store::after_insert(entries, entry),
            scores,
            hash,
            entry.payload.model,
            threshold,
            found,
        ),
        found is Some ==> replays(action, true, found->Some_0),
    ensures
        found is Some,
        action matches Action::ReplayStream { head, chunks: replayed } && text::texts(replayed@)
            == chunks,
{
    law_recording_is_faithful(chunks);
    vector_store::law_stored_answer_is_found(entries, entry, scores, hash, threshold, found);
}

/// Each request that reaches the store is counted once, as a hit or as a miss.
pub proof fn law_hit_or_miss(
    plan: RequestPlan,
    event: Event,
    before: Metrics,
    in_flight: Map<Seq<char>, broadcast::Sender<String>>,
    decision: Decision,
    after: Metrics,
    then_in_flight: Map<Seq<char>, broadcast::Sender<String>>,
)
    requires
        decides(plan, event, before, in_flight, decision, after, then_in_flight),
        event is Found || event is Missing || event is SearchFailed,
    ensures
        event is Found ==> after.cache_hits == state::one_more(before.cache_hits)
            && after.cache_misses == before.cache_misses,
        !(event is Found) ==> after.cache_hits == before.cache_hits && after.cache_misses
            == state::one_more(before.cache_misses),
        after.total_requests == before.total_requests,
{
}

/// One step in serving requests: one comes in, or the next action for one is decided.
pub enum ServingStep {
    Arrive,
    Decide { event: Event, decision: Decision },
}

/// Whether a step changes the counters so.
pub open spec fn steps(step: ServingStep, before: Metrics, after: Metrics) -> bool {
    match step {
        ServingStep::Arrive => after == before.with_request(),
        ServingStep::Decide { event, decision } => exists|
            plan: RequestPlan,
            in_flight: Map<Seq<char>, broadcast::Sender<String>>,
            then_in_flight: Map<Seq<char>, broadcast::Sender<String>>,
        | #[trigger]
            decides(plan, event, before, in_flight, decision, after, then_in_flight),
    }
}

/// Whether some steps, of any requests in any order, change the counters so, from their start.
pub open spec fn counts_from_start(run: Seq<ServingStep>, counts: Seq<Metrics>) -> bool {
    &&& counts.len() == run.len() + 1
    &&& counts[0] == (Metrics {
        total_requests: 0,
        cache_hits: 0,
        cache_misses: 0,
        coalesced_requests: 0,
    })
    &&& forall|i: int|
        0 <= i < run.len() ==> #[trigger] steps(run[i], counts[i], counts[i + 1])
}

/// How many requests came in, went past the cache, hit, missed and were coalesced.
pub struct Tally {
    pub arrived: nat,
    pub bypassed: nat,
    pub hits: nat,
    pub misses: nat,
    pub coalesced: nat,
}

impl Tally {
    /// One more step.
    pub open spec fn with_step(self, step: ServingStep) -> Tally {
        match step {
            ServingStep::Arrive => Tally { arrived: self.arrived + 1, ..self },
            ServingStep::Decide { event, decision } => match decision.action {
                Action::Search { .. } => self,
                Action::Bypass => Tally { bypassed: self.bypassed + 1, ..self },
                Action::ReplayStream { .. } | Action::ReplayWhole { .. } => Tally {
                    hits: self.hits + 1,
                    ..self
                },
                Action::Lead { .. } => Tally { misses: self.misses + 1, ..self },
                Action::Follow { .. } => Tally {
                    misses: self.misses + 1,
                    coalesced: self.coalesced + 1,
                    ..self
                },
            },
        }
    }

    /// The number of requests that have their reply.
    pub open spec fn replied(self) -> nat {
        self.bypassed + self.hits + self.misses
    }
}

/// How many requests came in, and what became of them, in some steps.
pub open spec fn tally(run: Seq<ServingStep>) -> Tally
    decreases run.len(),
{
    if run.len() == 0 {
        Tally { arrived: 0, bypassed: 0, hits: 0, misses: 0, coalesced: 0 }
    } else {
        tally(run.drop_last()).with_step(run.last())
    }
}

/// The counters count just what happened: whatever requests are served, in whatever order
/// their steps come, the counters are the numbers of the requests that came in, that were
/// answered from the cache, that were not, and that listened to another. Each request of the
/// last kind is also one of those that were not answered from the cache. The one condition is
/// that there are no more steps than a counter can count.
pub proof fn law_counts_are_exact(run: Seq<ServingStep>, counts: Seq<Metrics>)
    requires
        counts_from_start(run, counts),
        run.len() <= u64::MAX,
    ensures
        counts.last().total_requests == tally(run).arrived,
        counts.last().cache_hits == tally(run).hits,
        counts.last().cache_misses == tally(run).misses,
        counts.last().coalesced_requests == tally(run).coalesced,
        tally(run).coalesced <= tally(run).misses,
        tally(run).arrived + tally(run).replied() <= run.len(),
    decreases run.len(),
{
    if run.len() > 0 {
        let n = run.len() - 1;
        let earlier = counts.drop_last();
        assert forall|i: int| 0 <= i < n implies #[trigger] steps(
            run.drop_last()[i],
            earlier[i],
            earlier[i + 1],
        ) by {
            assert(steps(run[i], counts[i], counts[i + 1]));
        }
        law_counts_are_exact(run.drop_last(), earlier);
        assert(steps(run[n], counts[n], counts[n + 1]));
        assert(earlier.last() == counts[n]);
    }
}

/// When every request that came in has its reply, the hits, the misses and the requests that
/// went past the cache together are the requests.
pub proof fn law_counts_add_up(run: Seq<ServingStep>, counts: Seq<Metrics>)
    requires
        counts_from_start(run, counts),
        run.len() <= u64::MAX,
        tally(run).replied() == tally(run).arrived,
    ensures
        counts.last().cache_hits + counts.last().cache_misses + tally(run).bypassed
            == counts.last().total_requests,
        counts.last().coalesced_requests <= counts.last().cache_misses,
{
    law_counts_are_exact(run, counts);
}

/// No counter ever goes down.
pub proof fn law_counts_never_go_down(
    run: Seq<ServingStep>,
    counts: Seq<Metrics>,
    from: int,
    to: int,
)
    requires
        counts_from_start(run, counts),
        run.len() <= u64::MAX,
        0 <= from <= to < counts.len(),
    ensures
        counts[from].total_requests <= counts[to].total_requests,
        counts[from].cache_hits <= counts[to].cache_hits,
        counts[from].cache_misses <= counts[to].cache_misses,
        counts[from].coalesced_requests <= counts[to].coalesced_requests,
    decreases to - from,
{
    if from < to {
        law_counts_never_go_down(run, counts, from, to - 1);
        let before = run.take(to - 1);
        let upto = counts.take(to);
        assert forall|i: int| 0 <= i < before.len() implies #[trigger] steps(
            before[i],
            upto[i],
            upto[i + 1],
        ) by {
            assert(steps(run[i], counts[i], counts[i + 1]));
        }
        law_counts_are_exact(before, upto);
        assert(upto.last() == counts[to - 1]);
        assert(steps(run[to - 1], counts[to - 1], counts[to]));
    }
}

/// The store is asked once for each request, when its embedding is there, and with what the
/// request needs: its embedding, digest and model, and the threshold of its plan.
pub proof fn law_store_is_asked_once(
    plan: RequestPlan,
    event: Event,
    before: Metrics,
    in_flight: Map<Seq<char>, broadcast::Sender<String>>,
    decision: Decision,
    after: Metrics,
    then_in_flight: Map<Seq<char>, broadcast::Sender<String>>,
)
    requires
        decides(plan, event, before, in_flight, decision, after, then_in_flight),
    ensures
        decision.action is Search <==> event is EmbeddingReady,
        event matches Event::EmbeddingReady { vector } ==> searches(
            decision.action,
            plan,
            vector@,
        ),
{
}

/// Whether an event is what the store said to a search.
pub open spec fn tells(event: Event, found: Option<PayloadView>) -> bool {
    match found {
        Some(view) => event matches Event::Found { payload } && payload@ == view,
        None => event is Missing,
    }
}

/// A request whose digest and model are stored is a hit, whatever the similarity of its
/// embedding: it is answered from the cache and asks nobody upstream.
pub proof fn law_known_request_is_hit(
    entries: Seq<vector_store::EntryView>,
    scores: Seq<u32>,
    plan: RequestPlan,
    found: Option<PayloadView>,
    event: Event,
    before: Metrics,
    in_flight: Map<Seq<char>, broadcast::Sender<String>>,
    decision: Decision,
    after: Metrics,
    then_in_flight: Map<Seq<char>, broadcast::Sender<String>>,
)
    requires
        vector_store::has_exact(entries, plan.prompt_hash@, plan.model@),
        vector_store::answers(
            entries,
            scores,
            plan.prompt_hash@,
            plan.model@,
            plan.threshold,
            found,
        ),
        tells(event, found),
        decides(plan, event, before, in_flight, decision, after, then_in_flight),
    ensures
        found is Some,
        replays(decision.action, plan.is_streaming, found->Some_0),
        then_in_flight == in_flight,
        after == before.with_hit(),
{
    vector_store::law_exact_is_found(
        entries,
        scores,
        plan.prompt_hash@,
        plan.model@,
        plan.threshold,
        found,
    );
}

/// The answer is stored before the key is given up: while a kept answer is not stored, its
/// leader holds the key, and the key leaves the requests in flight only when nothing is kept
/// or the store has said what came of it.
pub proof fn law_stored_before_released(
    event: EndEvent,
    key: Seq<char>,
    in_flight: Map<Seq<char>, broadcast::Sender<String>>,
    action: EndAction,
    then_guard: Option<Seq<char>>,
    then_in_flight: Map<Seq<char>, broadcast::Sender<String>>,
)
    requires
        winds_up(event, Some(key), in_flight, action, then_guard, then_in_flight),
        in_flight.contains_key(key),
    ensures
        action is Store ==> then_in_flight == in_flight && then_guard == Some(key),
        !then_in_flight.contains_key(key) ==> event is Stored || event is StoreFailed || event
            == (EndEvent::Ended { kept: None }),
        event is Stored || event is StoreFailed ==> then_in_flight == in_flight.remove(key),
{
}

/// An equal request that comes after the release never leads a second time: where a leader
/// has stored its answer and then given up its key, a later request with the digest and the
/// model of the answer is answered from the store, and asks nobody upstream. It is so where
/// the store then has an answer for this digest and model, be it the one that was just stored
/// or an earlier one, until so many new answers came after it that it had to leave.
pub proof fn law_no_second_leader(
    payload: CachePayload,
    vector: Seq<u32>,
    key: Seq<char>,
    in_flight_at_end: Map<Seq<char>, broadcast::Sender<String>>,
    action: EndAction,
    guard: Option<Seq<char>>,
    in_flight_while_storing: Map<Seq<char>, broadcast::Sender<String>>,
    entries: Seq<vector_store::EntryView>,
    place: int,
    more: Seq<vector_store::EntryView>,
    scores: Seq<u32>,
    plan: RequestPlan,
    found: Option<PayloadView>,
    event: Event,
    before: Metrics,
    in_flight: Map<Seq<char>, broadcast::Sender<String>>,
    decision: Decision,
    after: Metrics,
    then_in_flight: Map<Seq<char>, broadcast::Sender<String>>,
)
    requires
        in_flight_at_end.contains_key(key),
        winds_up(
            EndEvent::Ended { kept: Some(payload) },
            Some(key),
            in_flight_at_end,
            action,
            guard,
            in_flight_while_storing,
        ),
        entries.len() <= vector_store::MAX_CACHE_ENTRIES,
        ({
            let stored = vector_store::after_insert(
                entries,
                (vector_store::EntryView { vector, payload: payload@ }),
            );
            &&& 0 <= place < stored.len()
            &&& stored[place].payload.prompt_hash == payload@.prompt_hash
            &&& stored[place].payload.model == payload@.model
            &&& vector_store::still_there(stored, place, more)
        }),
        plan.prompt_hash@ == payload@.prompt_hash,
        plan.model@ == payload@.model,
        vector_store::answers(
            vector_store::after_inserts(
                vector_store::after_insert(
                    entries,
                    (vector_store::EntryView { vector, payload: payload@ }),
                ),
                more,
            ),
            scores,
            plan.prompt_hash@,
            plan.model@,
            plan.threshold,
            found,
        ),
        tells(event, found),
        decides(plan, event, before, in_flight, decision, after, then_in_flight),
    ensures
        action == (EndAction::Store { payload }),
        in_flight_while_storing.contains_key(key),
        found is Some,
        !(decision.action is Lead),
        replays(decision.action, plan.is_streaming, found->Some_0),
        then_in_flight == in_flight,
{
    let entry = vector_store::EntryView { vector, payload: payload@ };
    vector_store::law_entry_stays(vector_store::after_insert(entries, entry), place, more);
    law_known_request_is_hit(
        vector_store::after_inserts(vector_store::after_insert(entries, entry), more),
        scores,
        plan,
        found,
        event,
        before,
        in_flight,
        decision,
        after,
        then_in_flight,
    );
}

/// A hit, and a request that goes past the cache, leave the requests in flight alone.
pub proof fn law_hits_ask_nobody(
    plan: RequestPlan,
    event: Event,
    before: Metrics,
    in_flight: Map<Seq<char>, broadcast::Sender<String>>,
    decision: Decision,
    after: Metrics,
    then_in_flight: Map<Seq<char>, broadcast::Sender<String>>,
)
    requires
        decides(plan, event, before, in_flight, decision, after, then_in_flight),
        event is Found || event is EmbeddingFailed || event is EmbeddingReady,
    ensures
        then_in_flight == in_flight,
        event is Found ==> !(decision.action is Lead) && !(decision.action is Bypass),
{
}

/// Whether requests with those plans, whose answers are not stored or for which the store
/// could not be asked, come in one after another and are decided so, where nobody gives up one
/// key in between. What happens to all other keys, and to the counters, in between is open.
pub open spec fn misses_in_a_row(
    key: Seq<char>,
    plans: Seq<RequestPlan>,
    events: Seq<Event>,
    counts: Seq<Metrics>,
    in_flight: Seq<Map<Seq<char>, broadcast::Sender<String>>>,
    decisions: Seq<Decision>,
    then_counts: Seq<Metrics>,
    then_in_flight: Seq<Map<Seq<char>, broadcast::Sender<String>>>,
) -> bool {
    &&& events.len() == plans.len()
    &&& counts.len() == plans.len()
    &&& in_flight.len() == plans.len()
    &&& decisions.len() == plans.len()
    &&& then_counts.len() == plans.len()
    &&& then_in_flight.len() == plans.len()
    &&& forall|i: int|
        0 <= i < events.len() ==> #[trigger] events[i] is Missing || events[i] is SearchFailed
    &&& forall|i: int|
        0 <= i < plans.len() ==> #[trigger] decides(
            plans[i],
            events[i],
            counts[i],
            in_flight[i],
            decisions[i],
            then_counts[i],
            then_in_flight[i],
        )
    &&& forall|i: int|
        0 <= i < plans.len() - 1 ==> coalescing::agree_on(
            #[trigger] then_in_flight[i],
            in_flight[i + 1],
            key,
        )
}

/// The part in coalescing that a miss takes.
pub open spec fn slot_of(
    plan: RequestPlan,
    before: Metrics,
    in_flight: Map<Seq<char>, broadcast::Sender<String>>,
    decision: Decision,
    after: Metrics,
    then_in_flight: Map<Seq<char>, broadcast::Sender<String>>,
) -> CoalescingSlot {
    choose|slot: CoalescingSlot| #[trigger]
        takes_part(plan, before, in_flight, decision, after, then_in_flight, slot)
}

/// Of all the equal requests that come in while none of them is done, exactly one asks
/// upstream: the first. Every other one is answered from its channel, whatever other requests
/// come in or are done in between.
pub proof fn law_one_request_goes_upstream(
    plans: Seq<RequestPlan>,
    events: Seq<Event>,
    counts: Seq<Metrics>,
    in_flight: Seq<Map<Seq<char>, broadcast::Sender<String>>>,
    decisions: Seq<Decision>,
    then_counts: Seq<Metrics>,
    then_in_flight: Seq<Map<Seq<char>, broadcast::Sender<String>>>,
    first: int,
    other: int,
)
    requires
        0 <= first < other < plans.len(),
        misses_in_a_row(
            plans[first].coalescing_key@,
            plans,
            events,
            counts,
            in_flight,
            decisions,
            then_counts,
            then_in_flight,
        ),
        plans[first].coalescing_key@ == plans[other].coalescing_key@,
        !in_flight[first].contains_key(plans[first].coalescing_key@),
    ensures
        decisions[first].action is Lead,
        decisions[other].action is Follow,
        coalescing::listens_to(decisions[other].action->receiver)
            == decisions[first].action->sender,
{
    let keys = Seq::new(plans.len(), |i: int| plans[i].coalescing_key@);
    let slots = Seq::new(
        plans.len(),
        |i: int|
            slot_of(
                plans[i],
                counts[i],
                in_flight[i],
                decisions[i],
                then_counts[i],
                then_in_flight[i],
            ),
    );
    assert forall|i: int| 0 <= i < plans.len() implies takes_part(
        plans[i],
        counts[i],
        in_flight[i],
        decisions[i],
        then_counts[i],
        then_in_flight[i],
        #[trigger] slots[i],
    ) by {
        assert(events[i] is Missing || events[i] is SearchFailed);
        assert(decides(
            plans[i],
            events[i],
            counts[i],
            in_flight[i],
            decisions[i],
            then_counts[i],
            then_in_flight[i],
        ));
    }
    assert forall|i: int| 0 <= i < keys.len() implies #[trigger] coalescing::acquires(
        in_flight[i],
        keys[i],
        slots[i],
        then_in_flight[i],
    ) by {
        assert(takes_part(
            plans[i],
            counts[i],
            in_flight[i],
            decisions[i],
            then_counts[i],
            then_in_flight[i],
            slots[i],
        ));
    }
    coalescing::law_one_leader(in_flight, keys, slots, then_in_flight, first, other);
    assert(takes_slot(decisions[first].action, slots[first]));
    assert(takes_slot(decisions[other].action, slots[other]));
}

/// A leader that upstream refuses, or that cannot reach it, leaves no trace among the
/// requests in flight: they are as before it came.
pub proof fn law_refused_leader_leaves_no_trace(
    before: Map<Seq<char>, broadcast::Sender<String>>,
    key: Seq<char>,
    slot: CoalescingSlot,
    during: Map<Seq<char>, broadcast::Sender<String>>,
    after: Map<Seq<char>, broadcast::Sender<String>>,
)
    requires
        coalescing::acquires(before, key, slot, during),
        slot is Leader,
        after == during.remove(key),
    ensures
        after == before,
{
    coalescing::law_release_undoes_lead(before, key, slot, during);
}

/// Equal requests meet: where two requests have the same model, and messages with the same
/// roles and contents, their plans have the same prompt, digest and key.
pub proof fn law_equal_requests_meet(
    request: ChatCompletionRequest,
    other: ChatCompletionRequest,
    plan: RequestPlan,
    other_plan: RequestPlan,
)
    requires
        plans(plan, request),
        plans(other_plan, other),
        request.model@ == other.model@,
        request.messages@.len() == other.messages@.len(),
        forall|i: int|
            0 <= i < request.messages@.len() ==> (#[trigger] request.messages@[i]).role@
                == other.messages@[i].role@ && request.messages@[i].content@
                == other.messages@[i].content@,
    ensures
        plan.prompt@ == other_plan.prompt@,
        plan.prompt_hash@ == other_plan.prompt_hash@,
        plan.coalescing_key@ == other_plan.coalescing_key@,
{
    models::law_prompt_from_roles_and_contents(request.messages@, other.messages@);
}

/// Different requests do not meet: two plans with one key, whose digests have the 64
/// characters of every digest, are for one model and one digest.
pub proof fn law_different_requests_do_not_meet(plan: RequestPlan, other_plan: RequestPlan)
    requires
        plan.coalescing_key@ == models::key_of(plan.model@, plan.prompt_hash@),
        other_plan.coalescing_key@ == models::key_of(other_plan.model@, other_plan.prompt_hash@),
        plan.prompt_hash@.len() == 64,
        other_plan.prompt_hash@.len() == 64,
        plan.coalescing_key@ == other_plan.coalescing_key@,
    ensures
        plan.model@ == other_plan.model@,
        plan.prompt_hash@ == other_plan.prompt_hash@,
{
    models::law_key_tells_request(
        plan.model@,
        plan.prompt_hash@,
        other_plan.model@,
        other_plan.prompt_hash@,
    );
}

/// A head says what its fields hold, each header in its place.
pub proof fn law_head_says(head: ReplyHead)
    ensures
        head@.status == head.status,
        head@.headers.len() == head.headers@.len(),
        forall|i: int|
            0 <= i < head.headers@.len() ==> (#[trigger] head@.headers[i]).0 == head.headers@[i].0@
                && head@.headers[i].1 == head.headers@[i].1@,
{
}

/// Every reply tells by its status header where it comes from. Streams come as events that
/// nobody keeps, with success; what is passed on past the cache has the status that upstream
/// gave.
pub proof fn law_heads(source: ReplySource, status: u16)
    ensures
        source.label() == match source {
            ReplySource::Hit => "HIT"@,
            ReplySource::Miss => "MISS"@,
            ReplySource::Coalesced => "COALESCED"@,
            ReplySource::Bypass => "BYPASS"@,
        },
        stream_head_view(source).status == 200,
        stream_head_view(source).headers == seq![
            ("content-type"@, "text/event-stream"@),
            ("cache-control"@, "no-cache"@),
            ("connection"@, "keep-alive"@),
            ("x-infercache-status"@, source.label()),
        ],
        json_head_view().status == 200,
        json_head_view().headers == seq![
            ("content-type"@, "application/json"@),
            ("x-infercache-status"@, "HIT"@),
        ],
        bypass_head_view(status).status == status,
        bypass_head_view(status).headers == seq![
            ("content-type"@, "text/event-stream"@),
            ("x-infercache-status"@, "BYPASS"@),
        ],
{
}

/// A plan is made of the request alone: whether it asks for a stream, the prompt of all its
/// messages, the digest of all of the prompt, the model as it was given, and the key of both.
pub proof fn law_plan_of_a_request(plan: RequestPlan, request: ChatCompletionRequest)
    requires
        plans(plan, request),
    ensures
        plan.is_streaming <==> request.stream == Some(true),
        plan.prompt@ == models::prompt_of(request.messages@),
        plan.prompt_hash@ == digest::hex_text(
            digest::sha256(vstd::utf8::encode_utf8(models::prompt_of(request.messages@))),
        ),
        plan.model@ == request.model@,
        plan.coalescing_key@ == plan.model@ + seq![':'] + plan.prompt_hash@,
{
    reveal_strlit(":");
    assert(":"@ =~= seq![':']);
}

/// A request whose prompt has no embedding goes past the cache, and one whose prompt has its
/// embedding asks the store; neither counts or changes anything yet.
pub proof fn law_decision_before_the_search(
    plan: RequestPlan,
    event: Event,
    before: Metrics,
    in_flight: Map<Seq<char>, broadcast::Sender<String>>,
    decision: Decision,
    after: Metrics,
    then_in_flight: Map<Seq<char>, broadcast::Sender<String>>,
)
    requires
        decides(plan, event, before, in_flight, decision, after, then_in_flight),
        event is EmbeddingFailed || event is EmbeddingReady,
    ensures
        event is EmbeddingFailed ==> decision.action is Bypass,
        event matches Event::EmbeddingReady { vector: embedding } ==> match decision.action {
            Action::Search { vector, prompt_hash, model, threshold } => vector@ == embedding@
                && prompt_hash@ == plan.prompt_hash@ && model@ == plan.model@ && threshold
                == plan.threshold,
            _ => false,
        },
        decision.updates@.len() == 0,
        after == before,
        then_in_flight == in_flight,
{
}

/// A hit gives the client the stored answer: all its chunks as they are, in their order, where
/// it asks for a stream, and else the whole completion. It counts as a hit.
pub proof fn law_decision_on_a_hit(
    plan: RequestPlan,
    payload: CachePayload,
    before: Metrics,
    in_flight: Map<Seq<char>, broadcast::Sender<String>>,
    decision: Decision,
    after: Metrics,
    then_in_flight: Map<Seq<char>, broadcast::Sender<String>>,
)
    requires
        decides(
            plan,
            Event::Found { payload },
            before,
            in_flight,
            decision,
            after,
            then_in_flight,
        ),
    ensures
        plan.is_streaming ==> match decision.action {
            Action::ReplayStream { head, chunks } => {
                &&& head@ == stream_head_view(ReplySource::Hit)
                &&& chunks@.len() == payload.sse_chunks@.len()
                &&& forall|i: int|
                    0 <= i < chunks@.len() ==> (#[trigger] chunks@[i])@ == payload.sse_chunks@[i]@
            },
            _ => false,
        },
        !plan.is_streaming ==> match decision.action {
            Action::ReplayWhole { head, body } => head@ == json_head_view() && json::contents(body)
                == models::blank_answer(payload@).with_chunks(
                text::texts(payload.sse_chunks@),
            ).completion(payload.model@),
            _ => false,
        },
        metrics::update_views(decision.updates@) == metrics::hit_updates(),
        after.total_requests == before.total_requests,
        after.cache_hits as int == (before.cache_hits + 1) % 0x1_0000_0000_0000_0000,
        after.cache_misses == before.cache_misses,
        after.coalesced_requests == before.coalesced_requests,
        then_in_flight == in_flight,
{
    state::law_counts_go_up_by_one(before);
    if plan.is_streaming {
        if let Action::ReplayStream { head, chunks } = decision.action {
            assert forall|i: int| 0 <= i < chunks@.len() implies (#[trigger] chunks@[i])@
                == payload.sse_chunks@[i]@ by {
                assert(text::texts(chunks@)[i] == payload@.sse_chunks[i]);
            }
            assert(text::texts(chunks@).len() == payload@.sse_chunks.len());
        }
    }
}

/// A request that is not answered from the cache listens to the request in flight with its
/// key, where there is one, and else leads on a channel of its own. It counts as a miss, and
/// also as coalesced where it listens.
pub proof fn law_decision_on_a_miss(
    plan: RequestPlan,
    event: Event,
    before: Metrics,
    in_flight: Map<Seq<char>, broadcast::Sender<String>>,
    decision: Decision,
    after: Metrics,
    then_in_flight: Map<Seq<char>, broadcast::Sender<String>>,
)
    requires
        decides(plan, event, before, in_flight, decision, after, then_in_flight),
        event is Missing || event is SearchFailed,
    ensures
        in_flight.contains_key(plan.coalescing_key@) ==> {
            &&& match decision.action {
                Action::Follow { head, receiver } => head@ == stream_head_view(
                    ReplySource::Coalesced,
                ) && coalescing::listens_to(receiver) == in_flight[plan.coalescing_key@],
                _ => false,
            }
            &&& metrics::update_views(decision.updates@) == metrics::coalesced_updates(plan.model@)
            &&& after.coalesced_requests as int == (before.coalesced_requests + 1)
                % 0x1_0000_0000_0000_0000
            &&& then_in_flight == in_flight
        },
        !in_flight.contains_key(plan.coalescing_key@) ==> {
            &&& match decision.action {
                Action::Lead { sender, key } => {
                    &&& key@ == plan.coalescing_key@
                    &&& coalescing::capacity(sender) == 128
                    &&& forall|other: Seq<char>| #[trigger]
                        in_flight.contains_key(other) ==> in_flight[other] != sender
                    &&& then_in_flight == in_flight.insert(key@, sender)
                },
                _ => false,
            }
            &&& metrics::update_views(decision.updates@) == metrics::miss_updates()
            &&& after.coalesced_requests == before.coalesced_requests
        },
        after.total_requests == before.total_requests,
        after.cache_hits == before.cache_hits,
        after.cache_misses as int == (before.cache_misses + 1) % 0x1_0000_0000_0000_0000,
{
    let slot = slot_of(plan, before, in_flight, decision, after, then_in_flight);
    assert(takes_part(plan, before, in_flight, decision, after, then_in_flight, slot));
    coalescing::law_what_a_request_gets(in_flight, plan.coalescing_key@, slot, then_in_flight);
    state::law_counts_go_up_by_one(before);
    state::law_counts_go_up_by_one(before.with_miss());
}

/// A leader tells its client that upstream cannot be reached, with the status of a bad
/// gateway; passes on what upstream refused with, status and body; and else streams.
pub proof fn law_replies_of_a_leader(event: LeaderEvent, reply: LeaderReply)
    requires
        leader_replies(event, reply),
    ensures
        match (event, reply) {
            (LeaderEvent::Unreachable, LeaderReply::GatewayError { status, body }) => status == 502
                && json::contents(body) == leader_error_json(),
            (
                LeaderEvent::Refused { status, text },
                LeaderReply::PassOn { status: passed, text: passed_text },
            ) => passed == status && passed_text@ == text@,
            (LeaderEvent::Accepted, LeaderReply::Stream { head }) => head@ == stream_head_view(
                ReplySource::Miss,
            ),
            _ => false,
        },
{
}

/// The error bodies hold a message, and that of a leader also a type.
pub proof fn law_error_bodies()
    ensures
        ({
            let leader = leader_error_json().field("error"@)->Some_0;
            let bypass = bypass_error_json().field("error"@)->Some_0;
            let message = json::Json::Text("Failed to connect to upstream LLM. Please retry."@);
            &&& leader_error_json()->Record_0.dom() =~= set!["error"@]
            &&& bypass_error_json()->Record_0.dom() =~= set!["error"@]
            &&& leader is Record && leader->Record_0.dom() =~= set!["message"@, "type"@]
            &&& leader.field("message"@) == Some(message)
            &&& leader.field("type"@) == Some(json::Json::Text("infercache_gateway_error"@))
            &&& bypass is Record && bypass->Record_0.dom() =~= set!["message"@]
            &&& bypass.field("message"@) == Some(message)
        }),
{
    reveal_strlit("message");
    reveal_strlit("type");
    assert("message"@.len() == 7 && "type"@.len() == 4);
    assert(leader_error_json()->Record_0.dom() =~= set!["error"@]);
    assert(bypass_error_json()->Record_0.dom() =~= set!["error"@]);
    assert(leader_error_json()->Record_0["error"@]->Record_0.dom() =~= set!["message"@, "type"@]);
    assert(bypass_error_json()->Record_0["error"@]->Record_0.dom() =~= set!["message"@]);
}

/// The statuses of success are those from 200 to 299.
pub proof fn law_success_statuses(status: u16)
    ensures
        is_success(status) <==> status / 100 == 2,
{
}

/// Where a line of a text is the event that ends an answer: it begins with `data:`, and the
/// rest of it is the end marker between runs of white space.
pub proof fn law_end_lines(line: Seq<char>)
    ensures
        is_end_line(line) <==> {
            &&& line.len() >= 5
            &&& line.take(5) == seq!['d', 'a', 't', 'a', ':']
            &&& text::trimmed(line.skip(5)) == seq!['[', 'D', 'O', 'N', 'E', ']']
        },
{
    reveal_strlit("data:");
    reveal_strlit("[DONE]");
    assert("data:"@ =~= seq!['d', 'a', 't', 'a', ':']);
    assert("[DONE]"@ =~= seq!['[', 'D', 'O', 'N', 'E', ']']);
    if line.len() >= 5 {
        assert(line.subrange(0, 5) =~= line.take(5));
    }
}

/// The end event may stand in any line of a text: it does where the first line is it, or
/// where it stands in the lines that follow, and in no other text.
pub proof fn law_end_in_any_line(line: Seq<char>, rest: Seq<char>)
    requires
        !line.contains('\n'),
    ensures
        ends(line.push('\n') + rest) <==> is_end_line(line) || ends(rest),
        ends(line) <==> is_end_line(line),
{
    text::law_lines(line, rest);
    text::law_lines(line, Seq::empty());
    let start = line.push('\n');
    let all = text::lines_of(start + rest);
    let after = text::lines_of(rest);
    if line.len() > 0 && line.last() == '\r' {
        lemma_return_is_white(line);
    }
    if ends(start + rest) {
        let i = choose|i: int| 0 <= i < all.len() && is_end_line(#[trigger] all[i]);
        if i > 0 {
            assert(is_end_line(after[i - 1]));
        }
    }
    if is_end_line(line) {
        assert(is_end_line(all[0]));
        lemma_end_line_is_not_empty(line);
        assert(is_end_line(text::lines_of(line)[0]));
    }
    if ends(rest) {
        let i = choose|i: int| 0 <= i < after.len() && is_end_line(#[trigger] after[i]);
        assert(is_end_line(all[i + 1]));
    }
}

/// The end event has characters.
proof fn lemma_end_line_is_not_empty(line: Seq<char>)
    requires
        is_end_line(line),
    ensures
        line.len() > 0,
{
    law_end_lines(line);
}

/// A carriage return at the end of a line makes no difference to whether it is the end event.
proof fn lemma_return_is_white(line: Seq<char>)
    requires
        line.len() > 0 && line.last() == '\r',
    ensures
        is_end_line(line) == is_end_line(line.take(line.len() - 1)),
{
    law_end_lines(line);
    law_end_lines(line.take(line.len() - 1));
    let short = line.take(line.len() - 1);
    if line.len() > 5 {
        let data = line.skip(5);
        assert(data.last() == '\r');
        assert(text::white_space('\r'));
        assert(data.drop_last() =~= short.skip(5));
        assert(text::trimmed_end(data) == text::trimmed_end(data.drop_last()));
        assert(line.take(5) =~= short.take(5));
    } else if line.len() == 5 {
        assert(line.take(5)[4] == '\r');
    }
}

/// A leader begins with nothing recorded, nothing waiting, and its client listening.
pub proof fn law_fresh_stream()
    ensures
        StreamView::fresh().chunks.len() == 0,
        StreamView::fresh().pending.len() == 0,
        StreamView::fresh().line.len() == 0,
        !StreamView::fresh().complete,
        !StreamView::fresh().failed,
        StreamView::fresh().primary,
{
}

/// A chunk of text is recorded whole, after those before it. The answer is complete from then
/// on where the end event stands in what the open line and the chunk are together, and reading
/// did not fail before. Nothing else changes.
pub proof fn law_chunk_is_recorded_whole(stream: StreamView, chunk: Seq<char>)
    ensures
        stream.with_chunk(chunk).chunks == stream.chunks.push(chunk),
        stream.with_chunk(chunk).pending == stream.pending,
        stream.with_chunk(chunk).line == text::open_line(stream.line + chunk),
        stream.with_chunk(chunk).complete <==> stream.complete || (!stream.failed && exists|i: int|
            0 <= i < text::lines_of(stream.line + chunk).len() && is_end_line(
                #[trigger] text::lines_of(stream.line + chunk)[i],
            )),
        stream.with_chunk(chunk).failed == stream.failed,
        stream.with_chunk(chunk).primary == stream.primary,
{
}

/// What is delivered of a piece of bytes is what is recorded of it: all of its text, with the
/// bytes that waited before, up to a character that is not complete, which waits. Where that
/// much is UTF-8, the delivered text and the bytes that wait are just the bytes that waited
/// before and those of the piece.
pub proof fn law_delivered_is_recorded(stream: StreamView, piece: Seq<u8>)
    ensures
        stream.with_bytes(piece).chunks == stream.chunks.push(stream.completed_by(piece)),
        stream.with_bytes(piece) == (StreamView {
            pending: stream.with_bytes(piece).pending,
            ..stream.with_chunk(stream.completed_by(piece))
        }),
        stream.completed_by(piece) == bytes::text_of(bytes::decided_part(stream.pending + piece)),
        stream.with_bytes(piece).pending == bytes::open_part(stream.pending + piece),
        vstd::utf8::valid_utf8(bytes::decided_part(stream.pending + piece)) ==> (
        vstd::utf8::encode_utf8(stream.completed_by(piece)) + stream.with_bytes(piece).pending
            == stream.pending + piece),
{
    let data = stream.pending + piece;
    bytes::law_text_has_the_bytes(bytes::decided_part(data));
    bytes::law_only_an_open_character_waits(data, 0);
}

/// The text that is delivered of each piece of a run, from the start.
pub open spec fn deliveries(pieces: Seq<Seq<u8>>) -> Seq<Seq<char>> {
    Seq::new(
        pieces.len(),
        |i: int| StreamView::fresh().with_pieces(pieces.take(i)).completed_by(pieces[i]),
    )
}

/// The client and all listeners get the raw bytes that upstream sent: one delivery for each
/// piece, in their order, and where the bytes are UTF-8 as a whole, the delivered texts
/// together encode to just these bytes, however they were cut. What is delivered is what is
/// recorded.
pub proof fn law_raw_bytes_are_delivered(pieces: Seq<Seq<u8>>)
    ensures
        deliveries(pieces).len() == pieces.len(),
        deliveries(pieces) == StreamView::fresh().with_pieces(pieces).chunks,
        vstd::utf8::valid_utf8(pieces.flatten()) ==> vstd::utf8::encode_utf8(
            deliveries(pieces).flatten(),
        ) == pieces.flatten(),
{
    lemma_deliveries_are_recorded(pieces);
    bytes::law_joined_in_order(pieces, deliveries(pieces));
    if vstd::utf8::valid_utf8(pieces.flatten()) {
        law_raw_bytes_are_recorded(pieces);
    }
}

/// What is delivered is what is recorded.
proof fn lemma_deliveries_are_recorded(pieces: Seq<Seq<u8>>)
    ensures
        deliveries(pieces) == StreamView::fresh().with_pieces(pieces).chunks,
    decreases pieces.len(),
{
    if pieces.len() == 0 {
        assert(deliveries(pieces) =~= StreamView::fresh().with_pieces(pieces).chunks);
    } else {
        let before = pieces.drop_last();
        let n = before.len() as int;
        lemma_deliveries_are_recorded(before);
        assert forall|i: int| 0 <= i < n implies #[trigger] pieces.take(i) == before.take(i) by {
            assert(pieces.take(i) =~= before.take(i));
        }
        assert(pieces.take(n) =~= before);
        let last = StreamView::fresh().with_pieces(before).completed_by(pieces.last());
        assert(deliveries(pieces) =~= deliveries(before).push(last));
    }
}

/// Pieces of bytes and chunks of text are taken up one after another, none is left out.
pub proof fn law_taken_up_in_order(
    stream: StreamView,
    chunks: Seq<Seq<char>>,
    chunk: Seq<char>,
    pieces: Seq<Seq<u8>>,
    piece: Seq<u8>,
)
    ensures
        stream.with_chunks(Seq::empty()) == stream,
        stream.with_chunks(chunks.push(chunk)) == stream.with_chunks(chunks).with_chunk(chunk),
        stream.with_pieces(Seq::empty()) == stream,
        stream.with_pieces(pieces.push(piece)) == stream.with_pieces(pieces).with_bytes(piece),
{
    assert(chunks.push(chunk).drop_last() =~= chunks);
    assert(pieces.push(piece).drop_last() =~= pieces);
}

/// Bytes that still wait when no more come are recorded as one more chunk, and where none
/// wait, nothing changes.
pub proof fn law_rest_is_recorded(stream: StreamView)
    ensures
        stream.pending.len() == 0 ==> stream.with_rest() == stream,
        stream.pending.len() > 0 ==> {
            &&& stream.with_rest().chunks == stream.chunks.push(bytes::text_of(stream.pending))
            &&& stream.with_rest().pending.len() == 0
            &&& stream.with_rest() == (StreamView {
                pending: stream.with_rest().pending,
                ..stream.with_chunk(bytes::text_of(stream.pending))
            })
        },
{
}

/// A failure, or that the client left, changes nothing of what was recorded; an answer is kept
/// exactly where it is complete and has a chunk.
pub proof fn law_failure_and_leaving(stream: StreamView, primary: bool)
    ensures
        stream.with_failure().failed,
        stream.with_failure().chunks == stream.chunks,
        stream.with_failure().pending == stream.pending,
        stream.with_failure().line == stream.line,
        stream.with_failure().complete == stream.complete,
        stream.with_failure().primary == stream.primary,
        stream.with_primary(primary).primary == primary,
        stream.with_primary(primary).chunks == stream.chunks,
        stream.with_primary(primary).pending == stream.pending,
        stream.with_primary(primary).line == stream.line,
        stream.with_primary(primary).complete == stream.complete,
        stream.with_primary(primary).failed == stream.failed,
        stream.kept() <==> stream.complete && stream.chunks.len() > 0,
{
}

/// At the end of a stream, a kept answer is handed to the store as it is, while nothing is
/// given up; and when the store has said what came of it, or nothing is kept, the leader is
/// done and just its key is given up.
pub proof fn law_end_of_a_stream(
    event: EndEvent,
    guard: Option<Seq<char>>,
    in_flight: Map<Seq<char>, broadcast::Sender<String>>,
    action: EndAction,
    then_guard: Option<Seq<char>>,
    then_in_flight: Map<Seq<char>, broadcast::Sender<String>>,
)
    requires
        winds_up(event, guard, in_flight, action, then_guard, then_in_flight),
    ensures
        match event {
            EndEvent::Ended { kept: Some(payload) } => {
                &&& action == (EndAction::Store { payload })
                &&& then_guard == guard
                &&& then_in_flight == in_flight
            },
            _ => {
                &&& action is Done
                &&& then_guard is None
                &&& guard is Some ==> then_in_flight == in_flight.remove(guard->Some_0)
                &&& guard is None ==> then_in_flight == in_flight
            },
        },
{
}

}
