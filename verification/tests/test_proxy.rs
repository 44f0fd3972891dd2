use dashmap::DashMap;
use infercache::bytes::decode;
use infercache::coalescing::{CoalescingEngine, CoalescingGuard, CoalescingSlot};
use infercache::config::{Config, Environment};
use infercache::models::{CachePayload, ChatCompletionRequest, ChatMessage};
use infercache::proxy::{
    begin_request, bypass, decide, is_end, lead, succeeded, upstream_auth, wind_up, Action,
    BypassReply, EndAction, EndEvent, Event, LeaderEvent, LeaderReply, LeaderStream, Pace,
    ReplyHead, UpstreamAuth, UpstreamReply,
};
use infercache::state::Metrics;
use infercache::vector_store::InMemoryVectorStore;

fn request(content: &str, stream: Option<bool>) -> ChatCompletionRequest {
    ChatCompletionRequest {
        model: "gpt-4o-mini".to_string(),
        messages: vec![ChatMessage {
            role: "user".to_string(),
            content: content.to_string(),
            name: None,
        }],
        stream,
        temperature: None,
        max_tokens: None,
        extra: serde_json::Map::new(),
    }
}

fn config() -> Config {
    Config::from_env(Environment {
        host: None,
        port: None,
        upstream_url: None,
        upstream_api_key: None,
        similarity_threshold: None,
        vector_backend: None,
        qdrant_url: None,
        qdrant_collection: None,
        model_id: None,
        cors_allowed_origins: None,
    })
}

fn header<'a>(head: &'a ReplyHead, name: &str) -> Option<&'a str> {
    head.headers.iter().find(|h| h.0 == name).map(|h| h.1.as_str())
}

fn payload(chunks: Vec<&str>) -> CachePayload {
    CachePayload::new(
        "hash".to_string(),
        "prompt".to_string(),
        "gpt-4o-mini".to_string(),
        chunks.into_iter().map(|c| c.to_string()).collect(),
    )
}

#[test]
fn plan_of_a_request() {
    let mut metrics = Metrics::new();
    let plan = begin_request(&request("hi", Some(true)), &config(), &mut metrics);
    assert!(plan.is_streaming);
    assert_eq!(plan.prompt, "user: hi");
    assert_eq!(plan.prompt_hash, ChatCompletionRequest::prompt_hash_from_prompt("user: hi"));
    assert_eq!(plan.model, "gpt-4o-mini");
    assert_eq!(plan.coalescing_key, request("hi", None).coalescing_key());
    assert_eq!(plan.threshold, 0.95f32.to_bits());
    assert_eq!(metrics.total_requests, 1);
    assert!(!begin_request(&request("hi", None), &config(), &mut metrics).is_streaming);
    assert!(!begin_request(&request("hi", Some(false)), &config(), &mut metrics).is_streaming);
}

#[test]
fn miss_is_recorded_and_then_hit() {
    let mut metrics = Metrics::new();
    let mut engine = CoalescingEngine::new(DashMap::new());
    let mut store = InMemoryVectorStore::new();
    let similarity = |a: &[u32], b: &[u32]| if a == b { 1.0f32.to_bits() } else { 0.0f32.to_bits() };
    let vector = vec![1u32, 2, 3];
    let req = request("Explain memory budget of InferCache", Some(true));
    let upstream: Vec<&str> = vec![
        "data: {\"id\":\"chatcmpl-mock\",\"created\":1700000000,\"choices\":[{\"index\":0,\"delta\":{\"role\":\"assistant\",\"content\":\"InferCache \"}}]}\n\n",
        "data: {\"id\":\"chatcmpl-mock\",\"created\":1700000000,\"choices\":[{\"index\":0,\"delta\":{\"content\":\"is blistering fast.\"}}]}\n\n",
        "data: [DONE]\n\n",
    ];

    // The first request misses and leads.
    let plan = begin_request(&req, &config(), &mut metrics);
    let ready = Event::EmbeddingReady { vector: vector.clone() };
    match decide(&plan, ready, &mut metrics, &mut engine).action {
        Action::Search { vector: asked, prompt_hash, model, threshold } => {
            assert_eq!(asked, vector);
            assert_eq!(prompt_hash, plan.prompt_hash);
            assert_eq!(model, "gpt-4o-mini");
            assert_eq!(threshold, 0.95f32.to_bits());
            assert!(store.search(&asked, &prompt_hash, &model, threshold, similarity).is_none());
        }
        _ => panic!("the store is asked"),
    }
    let decision = decide(&plan, Event::Missing, &mut metrics, &mut engine);
    assert_eq!(decision.updates.len(), 2);
    let key = match decision.action {
        Action::Lead { key, .. } => key,
        _ => panic!("the first request leads"),
    };
    assert_eq!(key, plan.coalescing_key);
    let mut guard = CoalescingGuard::new(key);
    match lead(LeaderEvent::Accepted, &mut guard, &mut engine) {
        LeaderReply::Stream { head } => {
            assert_eq!(head.status, 200);
            assert_eq!(header(&head, "x-infercache-status"), Some("MISS"));
        }
        _ => panic!("the answer is streamed"),
    }
    let mut stream = LeaderStream::new();
    for chunk in &upstream {
        let delivery = stream.receive(chunk.as_bytes());
        assert_eq!(&delivery.text, chunk);
        assert!(delivery.to_primary);
        assert_eq!(stream.delivered(true, 0), Pace::Continue);
    }
    let stored = stream
        .finish(plan.prompt_hash.clone(), plan.prompt.clone(), plan.model.clone())
        .unwrap();
    assert_eq!(stored.prompt_hash, plan.prompt_hash);
    assert_eq!(stored.prompt, plan.prompt);
    // The answer is stored before the key is given up.
    match wind_up(EndEvent::Ended { kept: Some(stored) }, &mut guard, &mut engine) {
        EndAction::Store { payload } => store.insert(payload, vector.clone()),
        EndAction::Done => panic!("the answer is stored"),
    }
    assert!(matches!(engine.acquire(plan.coalescing_key.clone()), CoalescingSlot::Subscriber { .. }));
    assert!(matches!(wind_up(EndEvent::Stored, &mut guard, &mut engine), EndAction::Done));

    // The second request hits, and the first answer is replayed.
    let plan = begin_request(&req, &config(), &mut metrics);
    let found = store
        .search(&[9], &plan.prompt_hash, &plan.model, plan.threshold, similarity)
        .unwrap();
    let decision = decide(&plan, Event::Found { payload: found }, &mut metrics, &mut engine);
    assert_eq!(decision.updates.len(), 4);
    match decision.action {
        Action::ReplayStream { head, chunks } => {
            assert_eq!(header(&head, "x-infercache-status"), Some("HIT"));
            assert_eq!(chunks, upstream);
        }
        _ => panic!("the stored events are replayed"),
    }
    assert_eq!(metrics.total_requests, 2);
    assert_eq!(metrics.cache_hits, 1);
    assert_eq!(metrics.cache_misses, 1);
    assert_eq!(metrics.coalesced_requests, 0);
}

#[test]
fn hit_without_stream_is_one_json_value() {
    let mut metrics = Metrics::new();
    let mut engine = CoalescingEngine::new(DashMap::new());
    let plan = begin_request(&request("hi", None), &config(), &mut metrics);
    let found = payload(vec!["data: {\"id\":\"x\",\"choices\":[{\"delta\":{\"content\":\"yes\"}}]}\n\n"]);
    match decide(&plan, Event::Found { payload: found }, &mut metrics, &mut engine).action {
        Action::ReplayWhole { head, body } => {
            assert_eq!(head.status, 200);
            assert_eq!(head.headers.len(), 2);
            assert_eq!(header(&head, "content-type"), Some("application/json"));
            assert_eq!(header(&head, "x-infercache-status"), Some("HIT"));
            assert_eq!(body["choices"][0]["message"]["content"], "yes");
            assert_eq!(body["id"], "x");
        }
        _ => panic!("the answer is one JSON value"),
    }
}

#[test]
fn equal_misses_follow_the_first() {
    let mut metrics = Metrics::new();
    let mut engine = CoalescingEngine::new(DashMap::new());
    let plan = begin_request(&request("hi", Some(true)), &config(), &mut metrics);
    let other = begin_request(&request("ho", Some(true)), &config(), &mut metrics);
    let sender = match decide(&plan, Event::SearchFailed, &mut metrics, &mut engine).action {
        Action::Lead { sender, .. } => sender,
        _ => panic!("the first leads"),
    };
    assert!(matches!(
        decide(&other, Event::Missing, &mut metrics, &mut engine).action,
        Action::Lead { .. }
    ));
    let mut receivers = Vec::new();
    for _ in 0..99 {
        match decide(&plan, Event::Missing, &mut metrics, &mut engine).action {
            Action::Follow { head, receiver } => {
                assert_eq!(head.status, 200);
                assert_eq!(header(&head, "content-type"), Some("text/event-stream"));
                assert_eq!(header(&head, "cache-control"), Some("no-cache"));
                assert_eq!(header(&head, "connection"), Some("keep-alive"));
                assert_eq!(header(&head, "x-infercache-status"), Some("COALESCED"));
                receivers.push(receiver);
            }
            _ => panic!("the others follow"),
        }
    }
    assert_eq!(sender.send("data: x\n\n".to_string()).unwrap(), 99);
    for receiver in receivers.iter_mut() {
        assert_eq!(receiver.try_recv().unwrap(), "data: x\n\n");
    }
    assert_eq!(metrics.cache_misses, 101);
    assert_eq!(metrics.coalesced_requests, 99);
}

#[test]
fn no_embedding_goes_past_the_cache() {
    let mut metrics = Metrics::new();
    let mut engine = CoalescingEngine::new(DashMap::new());
    let plan = begin_request(&request("hi", None), &config(), &mut metrics);
    let decision = decide(&plan, Event::EmbeddingFailed, &mut metrics, &mut engine);
    assert!(matches!(decision.action, Action::Bypass));
    assert!(decision.updates.is_empty());
    assert_eq!(metrics.cache_hits + metrics.cache_misses, 0);
    match bypass(UpstreamReply::Answered { status: 429 }) {
        BypassReply::Stream { head } => {
            assert_eq!(head.status, 429);
            assert_eq!(head.headers.len(), 2);
            assert_eq!(header(&head, "content-type"), Some("text/event-stream"));
            assert_eq!(header(&head, "x-infercache-status"), Some("BYPASS"));
        }
        _ => panic!("upstream answered"),
    }
    match bypass(UpstreamReply::Unreachable) {
        BypassReply::GatewayError { status, body } => {
            assert_eq!(status, 502);
            assert_eq!(
                serde_json::to_string(&body).unwrap(),
                "{\"error\":{\"message\":\"Failed to connect to upstream LLM. Please retry.\"}}"
            );
        }
        _ => panic!("upstream cannot be reached"),
    }
}

#[test]
fn leader_that_does_not_stream_gives_up_its_key() {
    for refused in [false, true] {
        let mut engine = CoalescingEngine::new(DashMap::new());
        let _slot = engine.acquire("k".to_string());
        let mut guard = CoalescingGuard::new("k".to_string());
        let event = if refused {
            LeaderEvent::Refused { status: 401, text: "no key".to_string() }
        } else {
            LeaderEvent::Unreachable
        };
        match lead(event, &mut guard, &mut engine) {
            LeaderReply::PassOn { status, text } => {
                assert!(refused);
                assert_eq!(status, 401);
                assert_eq!(text, "no key");
            }
            LeaderReply::GatewayError { status, body } => {
                assert!(!refused);
                assert_eq!(status, 502);
                assert_eq!(body["error"]["message"], "Failed to connect to upstream LLM. Please retry.");
                assert_eq!(body["error"]["type"], "infercache_gateway_error");
            }
            LeaderReply::Stream { .. } => panic!("nothing is streamed"),
        }
        assert!(matches!(engine.acquire("k".to_string()), CoalescingSlot::Leader { .. }));
    }
    assert!(succeeded(200) && succeeded(299));
    assert!(!succeeded(199) && !succeeded(300) && !succeeded(500));
}

#[test]
fn authorization_of_the_client_comes_first() {
    let key = Some("sk".to_string());
    assert!(matches!(upstream_auth(true, &key), UpstreamAuth::FromClient));
    assert!(matches!(upstream_auth(true, &None), UpstreamAuth::FromClient));
    assert!(matches!(upstream_auth(false, &key), UpstreamAuth::Own { value } if value == "Bearer sk"));
    assert!(matches!(upstream_auth(false, &None), UpstreamAuth::Absent));
}

#[test]
fn answer_without_end_event_is_not_kept() {
    let mut stream = LeaderStream::new();
    stream.receive(b"data: {\"a\":1}\n\n");
    stream.receive(b"data: [DO");
    stream.receive(b"NE\n\n");
    assert!(stream.finish("h".to_string(), "p".to_string(), "m".to_string()).is_none());
    assert!(LeaderStream::new().into_chunks().is_none());
    let mut stream = LeaderStream::new();
    assert!(stream.receive_text("x\r\ndata:  [DONE] \r\n"));
    stream.receive_text("z");
    assert_eq!(stream.into_chunks().unwrap(), vec!["x\r\ndata:  [DONE] \r\n", "z"]);
}

#[test]
fn end_event_is_a_line_of_its_own() {
    assert!(is_end("data: [DONE]"));
    assert!(is_end("data: [DONE]\n\n"));
    assert!(is_end("data: {\"a\":1}\n\ndata: [DONE]\n\n"));
    assert!(!is_end(""));
    assert!(!is_end("[DONE]"));
    assert!(!is_end("x [DONE] y"));
    assert!(is_end("data:[DONE]\n\n"));
    assert!(is_end("a\r\ndata:\t[DONE] \r\n\r\n"));
    assert!(!is_end("dat: [DONE]"));
    assert!(!is_end("data [DONE]"));
    assert!(!is_end(" data: [DONE]"));
    assert!(!is_end("data: [DONE] y"));
    assert!(!is_end("data: {\"choices\":[{\"delta\":{\"content\":\"say [DONE]\"}}]}\n\n"));
}

#[test]
fn answer_that_broke_off_is_not_kept() {
    let cut = "data: {\"choices\":[{\"delta\":{\"content\":\"say [DONE]\"}}]}\n\n";
    let mut stream = LeaderStream::new();
    assert_eq!(stream.receive(cut.as_bytes()).text, cut);
    assert!(stream.fail());
    assert!(stream.finish("h".to_string(), "p".to_string(), "m".to_string()).is_none());

    // What comes after a failure completes nothing.
    let mut stream = LeaderStream::new();
    stream.receive_text("data: a\n\n");
    stream.fail();
    stream.receive_text("data: [DONE]\n\n");
    assert!(stream.into_chunks().is_none());

    // An answer that was complete before the failure is kept.
    let mut stream = LeaderStream::new();
    stream.receive_text("data: [DONE]\n\n");
    stream.fail();
    assert_eq!(stream.into_chunks().unwrap(), vec!["data: [DONE]\n\n"]);
}

#[test]
fn key_is_given_up_when_nothing_is_stored() {
    for event in [EndEvent::Ended { kept: None }, EndEvent::StoreFailed, EndEvent::Stored] {
        let mut engine = CoalescingEngine::new(DashMap::new());
        let _slot = engine.acquire("k".to_string());
        let mut guard = CoalescingGuard::new("k".to_string());
        assert!(matches!(wind_up(event, &mut guard, &mut engine), EndAction::Done));
        assert!(matches!(engine.acquire("k".to_string()), CoalescingSlot::Leader { .. }));
    }
}

#[test]
fn known_request_hits_whatever_the_similarity() {
    let mut metrics = Metrics::new();
    let mut engine = CoalescingEngine::new(DashMap::new());
    let mut store = InMemoryVectorStore::new();
    let mut req = request("", Some(true));
    req.messages.clear();
    let plan = begin_request(&req, &config(), &mut metrics);
    assert_eq!(plan.prompt, "");
    let zeros = vec![0u32; 384];
    store.insert(
        CachePayload::new(
            plan.prompt_hash.clone(),
            plan.prompt.clone(),
            plan.model.clone(),
            vec!["data: [DONE]\n\n".to_string()],
        ),
        zeros.clone(),
    );
    let none = |_: &[u32], _: &[u32]| 0.0f32.to_bits();
    let found = store
        .search(&zeros, &plan.prompt_hash, &plan.model, plan.threshold, none)
        .unwrap();
    match decide(&plan, Event::Found { payload: found }, &mut metrics, &mut engine).action {
        Action::ReplayStream { head, chunks } => {
            assert_eq!(header(&head, "x-infercache-status"), Some("HIT"));
            assert_eq!(chunks, vec!["data: [DONE]\n\n"]);
        }
        _ => panic!("the stored answer is replayed"),
    }
}

#[test]
fn every_request_is_counted_once() {
    let mut metrics = Metrics::new();
    let mut engine = CoalescingEngine::new(DashMap::new());
    let plans: Vec<_> = ["a", "b", "b", "b", "c"]
        .into_iter()
        .map(|content| begin_request(&request(content, Some(true)), &config(), &mut metrics))
        .collect();
    let events = vec![
        Event::EmbeddingFailed,
        Event::Missing,
        Event::SearchFailed,
        Event::Missing,
        Event::Found { payload: payload(vec!["x"]) },
    ];
    for (plan, event) in plans.iter().zip(events) {
        decide(plan, event, &mut metrics, &mut engine);
    }
    assert_eq!(metrics.total_requests, 5);
    assert_eq!(metrics.cache_hits, 1);
    assert_eq!(metrics.cache_misses, 3);
    assert_eq!(metrics.coalesced_requests, 2);
    assert_eq!(metrics.cache_hits + metrics.cache_misses + 1, metrics.total_requests);
}

#[test]
fn bytes_that_are_no_utf8_are_replaced() {
    assert_eq!(decode(&[b'a', 0xff, b'b']), "a\u{fffd}b");
    let mut stream = LeaderStream::new();
    assert_eq!(stream.receive(&[b'a', 0xff, b'b']).text, "a\u{fffd}b");
    assert_eq!(stream.receive("\u{e9}\u{1f600}".as_bytes()).text, "\u{e9}\u{1f600}");
    assert!(stream.receive_rest().is_none());
    // A character that is never completed is replaced at the end.
    assert_eq!(stream.receive(&[b'x', 0xf0, 0x9f]).text, "x");
    let rest = stream.receive_rest().unwrap();
    assert_eq!(rest.text, "\u{fffd}");
    assert!(rest.to_primary);
    assert!(stream.receive_rest().is_none());
    // So is one that goes on with something else.
    assert_eq!(stream.receive(&[0xe2, 0x82]).text, "");
    assert_eq!(stream.receive(b"y").text, "\u{fffd}y");
}

#[test]
fn characters_may_be_cut_between_chunks() {
    let whole = "data: {\"x\":\"a\u{e9}\u{20ac}\u{1f600}z\"}\n\ndata: [DONE]\n\n";
    let bytes = whole.as_bytes();
    for size in 1..=bytes.len() {
        let mut stream = LeaderStream::new();
        let mut texts = Vec::new();
        for piece in bytes.chunks(size) {
            texts.push(stream.receive(piece).text);
        }
        assert!(stream.receive_rest().is_none());
        assert_eq!(texts.concat(), whole);
        assert_eq!(texts.len(), (bytes.len() + size - 1) / size);
        assert_eq!(stream.into_chunks().unwrap(), texts);
    }
}

#[test]
fn whole_answer_is_kept_wherever_it_is_cut() {
    for whole in [
        "data: A\n\ndata: [DONE]\n\n",
        "data: \u{e9}\u{1f600}\r\n\r\ndata: [DONE]\r\n\r\n",
        "data:A\n\ndata:[DONE]\n\n",
    ] {
        let bytes = whole.as_bytes();
        for i in 0..=bytes.len() {
            for j in i..=bytes.len() {
                let mut stream = LeaderStream::new();
                stream.receive(&bytes[..i]);
                stream.receive(&bytes[i..j]);
                stream.receive(&bytes[j..]);
                let kept = stream
                    .finish("h".to_string(), "p".to_string(), "m".to_string())
                    .unwrap();
                assert_eq!(kept.sse_chunks.concat(), whole);
            }
        }
    }
}

#[test]
fn cut_does_not_make_an_end_event() {
    // The marker stands within a line that began in an earlier chunk.
    let mut stream = LeaderStream::new();
    stream.receive_text("data: {\"content\":\"say ");
    stream.receive_text("data: [DONE]");
    stream.receive_text("\"}\n\n");
    assert!(stream.into_chunks().is_none());

    // A line that ended does not go on.
    let mut stream = LeaderStream::new();
    stream.receive_text("data:\n");
    stream.receive_text(" [DONE]\n\n");
    assert!(stream.into_chunks().is_none());

    // A failure between the parts of the event leaves the answer incomplete.
    let mut stream = LeaderStream::new();
    stream.receive_text("data: A\n\ndata: ");
    stream.fail();
    stream.receive_text("[DONE]\n\n");
    assert!(stream.into_chunks().is_none());
}

#[test]
fn answer_with_a_cut_end_event_is_stored_before_the_key_is_given_up() {
    let mut engine = CoalescingEngine::new(DashMap::new());
    let _slot = engine.acquire("k".to_string());
    let mut guard = CoalescingGuard::new("k".to_string());
    let mut stream = LeaderStream::new();
    stream.receive(b"data: A\n\ndata: ");
    stream.receive(b"[DONE]\n\n");
    assert!(stream.receive_rest().is_none());
    let kept = stream.finish("h".to_string(), "p".to_string(), "m".to_string());
    match wind_up(EndEvent::Ended { kept }, &mut guard, &mut engine) {
        EndAction::Store { payload } => {
            assert_eq!(payload.sse_chunks, vec!["data: A\n\ndata: ", "[DONE]\n\n"]);
        }
        EndAction::Done => panic!("the answer is stored"),
    }
    assert!(matches!(engine.acquire("k".to_string()), CoalescingSlot::Subscriber { .. }));
    assert!(matches!(wind_up(EndEvent::Stored, &mut guard, &mut engine), EndAction::Done));
    assert!(matches!(engine.acquire("k".to_string()), CoalescingSlot::Leader { .. }));
}

#[test]
fn equal_misses_follow_while_others_are_done() {
    let mut metrics = Metrics::new();
    let mut engine = CoalescingEngine::new(DashMap::new());
    let plan = begin_request(&request("hi", Some(true)), &config(), &mut metrics);
    let other = begin_request(&request("ho", Some(true)), &config(), &mut metrics);
    for round in 0..3 {
        let action = decide(&plan, Event::Missing, &mut metrics, &mut engine).action;
        assert_eq!(matches!(action, Action::Lead { .. }), round == 0);
        assert_eq!(matches!(action, Action::Follow { .. }), round > 0);
        let action = decide(&other, Event::Missing, &mut metrics, &mut engine).action;
        assert!(matches!(action, Action::Lead { .. }));
        engine.release(&other.coalescing_key);
    }
}

#[test]
fn reading_stops_when_nobody_listens() {
    let mut stream = LeaderStream::new();
    assert_eq!(stream.delivered(true, 0), Pace::Continue);
    assert_eq!(stream.delivered(false, 1), Pace::Continue);
    assert!(!stream.receive(b"x").to_primary);
    assert_eq!(stream.delivered(false, 1), Pace::Continue);
    assert_eq!(stream.delivered(true, 0), Pace::Stop);
    assert!(!stream.fail());
    let mut alone = LeaderStream::new();
    assert_eq!(alone.delivered(false, 0), Pace::Stop);
}
