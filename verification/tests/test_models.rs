use infercache::models::{Answer, CachePayload, ChatCompletionRequest, ChatMessage};

fn message(role: &str, content: &str) -> ChatMessage {
    ChatMessage {
        role: role.to_string(),
        content: content.to_string(),
        name: None,
    }
}

fn request(model: &str, messages: Vec<ChatMessage>) -> ChatCompletionRequest {
    ChatCompletionRequest {
        model: model.to_string(),
        messages,
        stream: None,
        temperature: None,
        max_tokens: None,
        extra: serde_json::Map::new(),
    }
}

fn payload(hash: &str, chunks: Vec<&str>, seconds: Option<u64>) -> CachePayload {
    CachePayload::stored_at(
        hash.to_string(),
        "sample prompt".to_string(),
        "gpt-4o-mini".to_string(),
        chunks.into_iter().map(|c| c.to_string()).collect(),
        seconds,
    )
}

#[test]
fn test_prompt_extraction_and_hashing() {
    let req = ChatCompletionRequest {
        model: "gpt-4o-mini".to_string(),
        messages: vec![
            ChatMessage {
                role: "system".to_string(),
                content: "You are an ultra-fast caching proxy.".to_string(),
                name: None,
            },
            ChatMessage {
                role: "user".to_string(),
                content: "What is the memory budget of InferCache?".to_string(),
                name: None,
            },
        ],
        stream: Some(true),
        temperature: None,
        max_tokens: None,
        extra: serde_json::Map::new(),
    };

    let prompt = req.extract_prompt();
    assert!(prompt.contains("system: You are an ultra-fast caching proxy."));
    assert!(prompt.contains("user: What is the memory budget of InferCache?"));

    let hash = req.prompt_hash();
    assert_eq!(hash.len(), 64); // SHA-256 hex string

    let key = req.coalescing_key();
    assert_eq!(key, format!("gpt-4o-mini:{}", hash));
}

#[test]
fn test_cache_payload_to_non_streaming_json() {
    let chunks = vec![
        "data: {\"id\":\"chatcmpl-test\",\"object\":\"chat.completion.chunk\",\"created\":1700000000,\"model\":\"gpt-4o-mini\",\"choices\":[{\"index\":0,\"delta\":{\"role\":\"assistant\",\"content\":\"InferCache \"},\"finish_reason\":null}]}\n\n".to_string(),
        "data: {\"id\":\"chatcmpl-test\",\"object\":\"chat.completion.chunk\",\"created\":1700000000,\"model\":\"gpt-4o-mini\",\"choices\":[{\"index\":0,\"delta\":{\"content\":\"runs in <300MB RAM.\"},\"finish_reason\":null}]}\n\n".to_string(),
        "data: [DONE]\n\n".to_string(),
    ];

    let payload = CachePayload::new(
        "abc123hash".to_string(),
        "sample prompt".to_string(),
        "gpt-4o-mini".to_string(),
        chunks,
    );

    let json_resp = payload.to_non_streaming_json();
    assert_eq!(json_resp["model"], "gpt-4o-mini");
    assert_eq!(json_resp["cached"], true);
    assert_eq!(
        json_resp["choices"][0]["message"]["content"],
        "InferCache runs in <300MB RAM."
    );
}

#[test]
fn prompt_joins_messages_and_drops_white_space_at_the_end() {
    let req = request("m", vec![message("system", "be brief"), message("user", " hi \u{3000}\n\t")]);
    assert_eq!(req.extract_prompt(), "system: be brief\nuser:  hi");
    assert_eq!(request("m", vec![]).extract_prompt(), "");
    assert_eq!(request("m", vec![message("user", "")]).extract_prompt(), "user:");
}

#[test]
fn prompt_hash_is_sha256_in_hexadecimal() {
    assert_eq!(
        ChatCompletionRequest::prompt_hash_from_prompt("abc"),
        "ba7816bf8f01cfea414140de5dae2223b00361a396177a9cb410ff61f20015ad"
    );
    assert_eq!(
        request("m", vec![]).prompt_hash(),
        "e3b0c44298fc1c149afbf4c8996fb92427ae41e4649b934ca495991b7852b855"
    );
}

#[test]
fn key_depends_on_model_roles_and_contents_alone() {
    let first = request("gpt-4o", vec![message("user", "hello")]);
    let mut named = request("gpt-4o", vec![message("user", "hello")]);
    named.messages[0].name = Some("ada".to_string());
    named.stream = Some(true);
    named.max_tokens = Some(5);
    named.temperature = Some(0.5f32.to_bits());
    assert_eq!(first.coalescing_key(), named.coalescing_key());
    let other_model = request("gpt-4o-mini", vec![message("user", "hello")]);
    assert_ne!(first.coalescing_key(), other_model.coalescing_key());
    let other_role = request("gpt-4o", vec![message("system", "hello")]);
    assert_ne!(first.coalescing_key(), other_role.coalescing_key());
}

#[test]
fn whole_completion_of_an_empty_answer() {
    let json = payload("0123456789abcdef", vec![], Some(1_700_000_001)).to_non_streaming_json();
    let text = serde_json::to_string(&json).unwrap();
    let expected: serde_json::Value = serde_json::from_str(
        "{\"id\":\"chatcmpl-cache-01234567\",\"object\":\"chat.completion\",\
         \"created\":1700000001,\"model\":\"gpt-4o-mini\",\"choices\":[{\"index\":0,\
         \"message\":{\"role\":\"assistant\",\"content\":\"\"},\"finish_reason\":\"stop\"}],\
         \"usage\":{\"prompt_tokens\":0,\"completion_tokens\":0,\"total_tokens\":0},\
         \"cached\":true}",
    )
    .unwrap();
    assert_eq!(json, expected, "{}", text);
}

#[test]
fn id_keeps_a_short_digest_and_one_cut_inside_a_character() {
    assert_eq!(payload("abc", vec![], None).to_non_streaming_json()["id"], "chatcmpl-cache-abc");
    assert_eq!(
        payload("12345678", vec![], None).to_non_streaming_json()["id"],
        "chatcmpl-cache-12345678"
    );
    assert_eq!(
        payload("1234567\u{e9}9", vec![], None).to_non_streaming_json()["id"],
        "chatcmpl-cache-1234567\u{e9}9"
    );
    assert_eq!(
        payload("123456\u{e9}9", vec![], None).to_non_streaming_json()["id"],
        "chatcmpl-cache-123456\u{e9}"
    );
}

#[test]
fn events_replace_id_and_time_and_add_text() {
    let json = payload(
        "h",
        vec![
            "data: {\"id\":\"one\",\"created\":1}\n\ndata: {\"choices\":[{\"delta\":{\"content\":\"a\"}}]}\r\n",
            ": comment\ndata: not json\ndata: {\"id\":7,\"created\":1.5}\n",
            "data: {\"id\":\"two\",\"created\":-4,\"choices\":[{\"delta\":{\"content\":\"b\"}},{\"delta\":{\"content\":\"x\"}}]}",
            "data:  [DONE] \n\n",
        ],
        Some(9),
    )
    .to_non_streaming_json();
    assert_eq!(json["id"], "two");
    assert_eq!(json["created"], -4);
    assert_eq!(json["choices"][0]["message"]["content"], "ab");
    assert_eq!(json["choices"].as_array().unwrap().len(), 1);
}

#[test]
fn events_without_the_expected_shape_add_nothing() {
    let mut answer = Answer { id: "i".to_string(), created: 3, content: "c".to_string() };
    for event in [
        "null",
        "[]",
        "{\"choices\":{}}",
        "{\"choices\":[]}",
        "{\"choices\":[{\"delta\":{\"content\":null}}]}",
        "{\"created\":9223372036854775808}",
    ] {
        let value: serde_json::Value = serde_json::from_str(event).unwrap();
        answer.absorb_event(&value);
    }
    assert_eq!(answer.id, "i");
    assert_eq!(answer.created, 3);
    assert_eq!(answer.content, "c");
    let value: serde_json::Value =
        serde_json::from_str("{\"id\":\"n\",\"created\":8,\"choices\":[{\"delta\":{\"content\":\"d\"}}]}")
            .unwrap();
    answer.absorb_event(&value);
    assert_eq!(answer.id, "n");
    assert_eq!(answer.created, 8);
    assert_eq!(answer.content, "cd");
}

#[test]
fn payload_keeps_its_parts_and_the_time() {
    let before = std::time::SystemTime::now()
        .duration_since(std::time::UNIX_EPOCH)
        .unwrap()
        .as_secs() as i64;
    let made = CachePayload::new(
        "h".to_string(),
        "p".to_string(),
        "m".to_string(),
        vec!["a".to_string(), "b".to_string()],
    );
    assert_eq!(made.prompt_hash, "h");
    assert_eq!(made.prompt, "p");
    assert_eq!(made.model, "m");
    assert_eq!(made.sse_chunks, vec!["a", "b"]);
    assert!(made.created_at >= before && made.created_at < before + 60);
    assert_eq!(payload("h", vec![], None).created_at, 0);
    assert_eq!(payload("h", vec![], Some(42)).created_at, 42);
    let copy = made.clone();
    assert_eq!(copy.sse_chunks, made.sse_chunks);
    assert_eq!(copy.created_at, made.created_at);
    assert_eq!(message("r", "c").clone().content, "c");
}

#[test]
fn chunks_in_two_runs_give_the_same_answer() {
    let first = "data: {\"id\":\"a\",\"choices\":[{\"delta\":{\"content\":\"x\"}}]}\n";
    let second = "data: {\"choices\":[{\"delta\":{\"content\":\"y\"}}]}\n";
    let mut whole = Answer { id: String::new(), created: 0, content: String::new() };
    whole.absorb_chunk(&format!("{}{}", first, second));
    let mut parts = Answer { id: String::new(), created: 0, content: String::new() };
    parts.absorb_chunk(first);
    parts.absorb_chunk(second);
    assert_eq!(whole.content, "xy");
    assert_eq!(parts.content, "xy");
    assert_eq!(whole.id, parts.id);
    assert_eq!(whole.to_completion("m"), parts.to_completion("m"));
}
