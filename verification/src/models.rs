//! Chat requests and the payloads that the cache keeps for them.
use crate::digest;
use crate::json;
use crate::text;
use vstd::prelude::*;
use vstd::string::*;

verus! {

/// One message of a chat.
#[derive(Debug)]
pub struct ChatMessage {
    pub role: String,
    pub content: String,
    pub name: Option<String>,
}

impl Clone for ChatMessage {
    fn clone(&self) -> (r: Self)
        ensures
            r == *self,
    {
        ChatMessage {
            role: self.role.clone(),
            content: self.content.clone(),
            name: match &self.name {
                Some(name) => Some(name.clone()),
                None => None,
            },
        }
    }
}

/// A chat completion request. The sampling temperature is kept by the bits of its
/// single-precision representation.
#[derive(Debug)]
pub struct ChatCompletionRequest {
    pub model: String,
    pub messages: Vec<ChatMessage>,
    pub stream: Option<bool>,
    pub temperature: Option<u32>,
    pub max_tokens: Option<u32>,
    pub extra: serde_json::Map<String, serde_json::Value>,
}

/// The messages one after another, each as its role, a colon and a space, its content and a
/// line feed.
pub open spec fn joined_messages(messages: Seq<ChatMessage>) -> Seq<char>
    decreases messages.len(),
{
    if messages.len() == 0 {
        Seq::empty()
    } else {
        let last = messages.last();
        joined_messages(messages.drop_last()) + last.role@ + ": "@ + last.content@ + "\n"@
    }
}

/// The prompt of some messages.
pub open spec fn prompt_of(messages: Seq<ChatMessage>) -> Seq<char> {
    text::trimmed_end(joined_messages(messages))
}

/// The key under which requests for one model and one prompt digest meet.
pub open spec fn key_of(model: Seq<char>, prompt_hash: Seq<char>) -> Seq<char> {
    model + ":"@ + prompt_hash
}

/// The key of a model and a prompt digest.
pub fn make_key(model: &str, prompt_hash: &str) -> (r: String)
    ensures
        r@ == key_of(model@, prompt_hash@),
{
    let mut key = model.to_owned();
    key.append(":");
    key.append(prompt_hash);
    key
}

impl ChatCompletionRequest {
    /// The canonical prompt of the messages.
    pub fn extract_prompt(&self) -> (r: String)
        ensures
            r@ == prompt_of(self.messages@),
    {
        let mut full_prompt = String::new();
        let mut i: usize = 0;
        assert(self.messages@.take(0) =~= Seq::<ChatMessage>::empty());
        while i < self.messages.len()
            invariant
                i <= self.messages@.len(),
                full_prompt@ == joined_messages(self.messages@.take(i as int)),
            decreases self.messages@.len() - i,
        {
            let message = &self.messages[i];
            full_prompt.append(message.role.as_str());
            full_prompt.append(": ");
            full_prompt.append(message.content.as_str());
            full_prompt.append("\n");
            assert(self.messages@.take(i + 1).drop_last() =~= self.messages@.take(i as int));
            i += 1;
        }
        assert(self.messages@.take(i as int) =~= self.messages@);
        text::trim_end(full_prompt.as_str())
    }

    /// The SHA-256 digest of a prompt, in hexadecimal.
    pub fn prompt_hash_from_prompt(prompt: &str) -> (r: String)
        ensures
            r@ == digest::text_digest(prompt@),
            r@.len() == 64,
    {
        digest::digest(prompt)
    }

    /// The SHA-256 digest of the prompt, in hexadecimal.
    pub fn prompt_hash(&self) -> (r: String)
        ensures
            r@ == digest::text_digest(prompt_of(self.messages@)),
            r@.len() == 64,
    {
        let prompt = self.extract_prompt();
        Self::prompt_hash_from_prompt(prompt.as_str())
    }

    /// The key by which equal requests in flight are found.
    pub fn coalescing_key(&self) -> (r: String)
        ensures
            r@ == key_of(self.model@, digest::text_digest(prompt_of(self.messages@))),
            r@.len() == self.model@.len() + 65,
    {
        let hash = self.prompt_hash();
        proof {
            reveal_strlit(":");
        }
        make_key(self.model.as_str(), hash.as_str())
    }
}

/// What the cache keeps of one answered request.
#[derive(Debug)]
pub struct CachePayload {
    /// The digest of the prompt.
    pub prompt_hash: String,
    /// The prompt.
    pub prompt: String,
    /// The model that answered.
    pub model: String,
    /// The server-sent events of the answer, as they came.
    pub sse_chunks: Vec<String>,
    /// The time of storing, in seconds of Unix time.
    pub created_at: i64,
}

/// What a payload says, by its characters and numbers.
#[verifier::ext_equal]
pub struct PayloadView {
    pub prompt_hash: Seq<char>,
    pub prompt: Seq<char>,
    pub model: Seq<char>,
    pub sse_chunks: Seq<Seq<char>>,
    pub created_at: i64,
}

impl View for CachePayload {
    type V = PayloadView;

    open spec fn view(&self) -> PayloadView {
        PayloadView {
            prompt_hash: self.prompt_hash@,
            prompt: self.prompt@,
            model: self.model@,
            sse_chunks: text::texts(self.sse_chunks@),
            created_at: self.created_at,
        }
    }
}

impl Clone for CachePayload {
    fn clone(&self) -> (r: Self)
        ensures
            r@ == self@,
    {
        let mut sse_chunks: Vec<String> = Vec::new();
        let mut i: usize = 0;
        while i < self.sse_chunks.len()
            invariant
                i <= self.sse_chunks@.len(),
                sse_chunks@.len() == i,
                forall|j: int| 0 <= j < i ==> (#[trigger] sse_chunks@[j])@ == self.sse_chunks@[j]@,
            decreases self.sse_chunks@.len() - i,
        {
            sse_chunks.push(self.sse_chunks[i].clone());
            i += 1;
        }
        assert(text::texts(sse_chunks@) =~= text::texts(self.sse_chunks@));
        CachePayload {
            prompt_hash: self.prompt_hash.clone(),
            prompt: self.prompt.clone(),
            model: self.model.clone(),
            sse_chunks,
            created_at: self.created_at,
        }
    }
}

/// Calls `std::time::SystemTime::elapsed` on the Unix epoch, and gives the whole seconds that
/// went by, or nothing where the clock stands before the epoch. Nothing is said of the time.
#[verifier::external_body]
fn seconds_since_epoch() -> (r: Option<u64>) {
    std::time::UNIX_EPOCH.elapsed().ok().map(|elapsed| elapsed.as_secs())
}

/// The time of storing for a reading of the clock: zero where the clock stands before the
/// Unix epoch.
pub open spec fn storing_time(seconds: Option<u64>) -> i64 {
    match seconds {
        Some(n) => n as i64,
        None => 0,
    }
}

/// Whether the clock can have given that reading when it was asked.
pub closed spec fn clock_says(seconds: Option<u64>) -> bool {
    call_ensures(seconds_since_epoch, (), seconds)
}

impl CachePayload {
    /// A payload that is stored now: the time that it carries is a reading of the clock, of
    /// which nothing more is known.
    pub fn new(prompt_hash: String, prompt: String, model: String, sse_chunks: Vec<String>) -> (r:
        Self)
        ensures
            r.prompt_hash == prompt_hash,
            r.prompt == prompt,
            r.model == model,
            r.sse_chunks == sse_chunks,
            exists|seconds: Option<u64>| #[trigger]
                clock_says(seconds) && r.created_at == storing_time(seconds),
    {
        let clock = seconds_since_epoch;
        let seconds = clock();
        assert(clock_says(seconds));
        Self::stored_at(prompt_hash, prompt, model, sse_chunks, seconds)
    }

    /// A payload that is stored at a given reading of the clock.
    pub fn stored_at(
        prompt_hash: String,
        prompt: String,
        model: String,
        sse_chunks: Vec<String>,
        seconds: Option<u64>,
    ) -> (r: Self)
        ensures
            r.prompt_hash == prompt_hash,
            r.prompt == prompt,
            r.model == model,
            r.sse_chunks == sse_chunks,
            r.created_at == storing_time(seconds),
    {
        let created_at: i64 = match seconds {
            Some(n) => n as i64,
            None => 0,
        };
        CachePayload { prompt_hash, prompt, model, sse_chunks, created_at }
    }
}

/// What is known of a whole answer after some of its events.
#[verifier::ext_equal]
pub struct AnswerView {
    pub id: Seq<char>,
    pub created: i64,
    pub content: Seq<char>,
}

/// What is known of a whole answer after some of its events.
#[derive(Debug)]
pub struct Answer {
    pub id: String,
    pub created: i64,
    pub content: String,
}

impl View for Answer {
    type V = AnswerView;

    open spec fn view(&self) -> AnswerView {
        AnswerView { id: self.id@, created: self.created, content: self.content@ }
    }
}

/// The text that an event adds to the answer: `choices[0].delta.content`.
pub open spec fn delta_of(event: json::Json) -> Option<Seq<char>> {
    match event.field("choices"@) {
        Some(choices) => match choices.item(0) {
            Some(choice) => match choice.field("delta"@) {
                Some(delta) => match delta.field("content"@) {
                    Some(content) => content.text(),
                    None => None,
                },
                None => None,
            },
            None => None,
        },
        None => None,
    }
}

/// The id that an event carries.
pub open spec fn id_of(event: json::Json) -> Option<Seq<char>> {
    match event.field("id"@) {
        Some(id) => id.text(),
        None => None,
    }
}

/// The time of creation that an event carries.
pub open spec fn created_of(event: json::Json) -> Option<i64> {
    match event.field("created"@) {
        Some(created) => created.int64(),
        None => None,
    }
}

impl AnswerView {
    /// One more event: its id and its time replace those before, its text comes at the end.
    pub open spec fn with_event(self, event: json::Json) -> AnswerView {
        AnswerView {
            id: match id_of(event) {
                Some(id) => id,
                None => self.id,
            },
            created: match created_of(event) {
                Some(created) => created,
                None => self.created,
            },
            content: match delta_of(event) {
                Some(delta) => self.content + delta,
                None => self.content,
            },
        }
    }

    /// One more line. Only a line that begins with `data: ` counts; the end marker and what
    /// is no JSON add nothing.
    pub open spec fn with_line(self, line: Seq<char>) -> AnswerView {
        if !"data: "@.is_prefix_of(line) {
            self
        } else {
            let data = line.skip("data: "@.len() as int);
            if text::trimmed(data) == "[DONE]"@ {
                self
            } else {
                match json::parsed(data) {
                    Some(event) => self.with_event(event),
                    None => self,
                }
            }
        }
    }

    /// Some more lines, in their order.
    pub open spec fn with_lines(self, lines: Seq<Seq<char>>) -> AnswerView
        decreases lines.len(),
    {
        if lines.len() == 0 {
            self
        } else {
            self.with_lines(lines.drop_last()).with_line(lines.last())
        }
    }

    /// Some more chunks, each line by line, in their order.
    pub open spec fn with_chunks(self, chunks: Seq<Seq<char>>) -> AnswerView
        decreases chunks.len(),
    {
        if chunks.len() == 0 {
            self
        } else {
            self.with_chunks(chunks.drop_last()).with_lines(text::lines_of(chunks.last()))
        }
    }

    /// The answer as one chat completion of a model.
    pub open spec fn completion(self, model: Seq<char>) -> json::Json {
        let message = json::Json::Record(
            map![
                "role"@ => json::Json::Text("assistant"@),
                "content"@ => json::Json::Text(self.content),
            ],
        );
        let choice = json::Json::Record(
            map![
                "index"@ => json::Json::Int(0),
                "message"@ => message,
                "finish_reason"@ => json::Json::Text("stop"@),
            ],
        );
        let usage = json::Json::Record(
            map![
                "prompt_tokens"@ => json::Json::Int(0),
                "completion_tokens"@ => json::Json::Int(0),
                "total_tokens"@ => json::Json::Int(0),
            ],
        );
        json::Json::Record(
            map![
                "id"@ => json::Json::Text(self.id),
                "object"@ => json::Json::Text("chat.completion"@),
                "created"@ => json::Json::Int(self.created as int),
                "model"@ => json::Json::Text(model),
                "choices"@ => json::Json::List(seq![choice]),
                "usage"@ => usage,
                "cached"@ => json::Json::Bool(true),
            ],
        )
    }
}

impl Answer {
    /// Takes up one event: its id and its time replace those before, its text comes at the
    /// end.
    pub fn absorb_event(&mut self, event: &serde_json::Value)
        ensures
            final(self)@ == old(self)@.with_event(json::contents(*event)),
    {
        if let Some(id) = json::field(event, "id") {
            if let Some(id) = json::as_text(id) {
                self.id = id.to_owned();
            }
        }
        if let Some(created) = json::field(event, "created") {
            if let Some(created) = json::as_int64(created) {
                self.created = created;
            }
        }
        if let Some(choices) = json::field(event, "choices") {
            if let Some(choice) = json::item(choices, 0) {
                if let Some(delta) = json::field(choice, "delta") {
                    if let Some(content) = json::field(delta, "content") {
                        if let Some(content) = json::as_text(content) {
                            self.content.append(content);
                        }
                    }
                }
            }
        }
    }

    /// Takes up one line.
    pub fn absorb_line(&mut self, line: &str)
        ensures
            final(self)@ == old(self)@.with_line(line@),
    {
        if let Some(data) = text::after_prefix(line, "data: ") {
            let marker = text::trim(data.as_str());
            if !text::same(marker.as_str(), "[DONE]") {
                if let Ok(event) = json::parse(data.as_str()) {
                    self.absorb_event(&event);
                }
            }
        }
    }

    /// Takes up one chunk, line by line.
    pub fn absorb_chunk(&mut self, chunk: &str)
        ensures
            final(self)@ == old(self)@.with_lines(text::lines_of(chunk@)),
    {
        let lines = text::lines(chunk);
        let ghost all = text::texts(lines@);
        let ghost start = self@;
        let mut i: usize = 0;
        assert(all.take(0) =~= Seq::<Seq<char>>::empty());
        while i < lines.len()
            invariant
                i <= lines@.len(),
                all == text::texts(lines@),
                self@ == start.with_lines(all.take(i as int)),
            decreases lines@.len() - i,
        {
            self.absorb_line(lines[i].as_str());
            assert(all.take(i + 1).drop_last() =~= all.take(i as int));
            i += 1;
        }
        assert(all.take(i as int) =~= all);
    }
}

/// The first eight bytes of a digest, where they end a character; else the whole digest.
pub open spec fn short_hash(hash: Seq<char>) -> Seq<char> {
    let bytes = vstd::utf8::encode_utf8(hash);
    if vstd::utf8::is_char_boundary(bytes, 8) {
        vstd::utf8::decode_utf8(bytes.subrange(0, 8))
    } else {
        hash
    }
}

/// What is known of an answer before any of its events.
pub open spec fn blank_answer(payload: PayloadView) -> AnswerView {
    AnswerView {
        id: "chatcmpl-cache-"@ + short_hash(payload.prompt_hash),
        created: payload.created_at,
        content: Seq::empty(),
    }
}

impl PayloadView {
    /// The stored answer as one chat completion.
    pub open spec fn completion(self) -> json::Json {
        blank_answer(self).with_chunks(self.sse_chunks).completion(self.model)
    }
}

/// A record of the number of tokens, all zero.
fn no_usage() -> (r: serde_json::Value)
    ensures
        json::contents(r) == json::Json::Record(
            map![
                "prompt_tokens"@ => json::Json::Int(0),
                "completion_tokens"@ => json::Json::Int(0),
                "total_tokens"@ => json::Json::Int(0),
            ],
        ),
{
    let mut usage = json::empty_record();
    json::put(&mut usage, "prompt_tokens", json::of_i64(0));
    json::put(&mut usage, "completion_tokens", json::of_i64(0));
    json::put(&mut usage, "total_tokens", json::of_i64(0));
    json::of_record(usage)
}

impl Answer {
    /// The answer as one chat completion of a model.
    pub fn to_completion(&self, model: &str) -> (r: serde_json::Value)
        ensures
            json::contents(r) == self@.completion(model@),
    {
        let mut message = json::empty_record();
        json::put_text(&mut message, "role", "assistant");
        json::put_text(&mut message, "content", self.content.as_str());

        let mut choice = json::empty_record();
        json::put(&mut choice, "index", json::of_i64(0));
        json::put(&mut choice, "message", json::of_record(message));
        json::put_text(&mut choice, "finish_reason", "stop");
        let mut choices: Vec<serde_json::Value> = Vec::new();
        choices.push(json::of_record(choice));

        let mut completion = json::empty_record();
        json::put_text(&mut completion, "id", self.id.as_str());
        json::put_text(&mut completion, "object", "chat.completion");
        json::put(&mut completion, "created", json::of_i64(self.created));
        json::put_text(&mut completion, "model", model);
        assert(json::all_contents(choices@) =~= seq![json::contents(choices@[0])]);
        json::put(&mut completion, "choices", json::of_list(choices));
        json::put(&mut completion, "usage", no_usage());
        json::put(&mut completion, "cached", json::of_bool(true));
        json::of_record(completion)
    }
}

impl CachePayload {
    /// What is known of the stored answer before any of its events.
    fn blank_answer(&self) -> (r: Answer)
        ensures
            r@ == blank_answer(self@),
    {
        let hash = self.prompt_hash.as_str();
        let mut id = "chatcmpl-cache-".to_owned();
        if hash.is_char_boundary(8) {
            let (head, _tail) = hash.split_at(8);
            proof {
                vstd::utf8::encode_utf8_decode_utf8(head@);
            }
            id.append(head);
        } else {
            id.append(hash);
        }
        Answer { id, created: self.created_at, content: String::new() }
    }

    /// The stored answer as one chat completion, put together from the stored events.
    pub fn to_non_streaming_json(&self) -> (r: serde_json::Value)
        ensures
            json::contents(r) == self@.completion(),
    {
        let mut answer = self.blank_answer();
        let ghost chunks = self@.sse_chunks;
        let mut i: usize = 0;
        assert(chunks.take(0) =~= Seq::<Seq<char>>::empty());
        while i < self.sse_chunks.len()
            invariant
                i <= self.sse_chunks@.len(),
                chunks == text::texts(self.sse_chunks@),
                answer@ == blank_answer(self@).with_chunks(chunks.take(i as int)),
            decreases self.sse_chunks@.len() - i,
        {
            answer.absorb_chunk(self.sse_chunks[i].as_str());
            assert(chunks.take(i + 1).drop_last() =~= chunks.take(i as int));
            i += 1;
        }
        assert(chunks.take(i as int) =~= chunks);
        answer.to_completion(self.model.as_str())
    }
}

/// The key of a request tells its model and its digest: two requests whose digests have the
/// 64 characters of every digest meet under one key only where both agree.
pub proof fn law_key_tells_request(
    model: Seq<char>,
    hash: Seq<char>,
    other_model: Seq<char>,
    other_hash: Seq<char>,
)
    requires
        hash.len() == 64,
        other_hash.len() == 64,
        key_of(model, hash) == key_of(other_model, other_hash),
    ensures
        model == other_model,
        hash == other_hash,
{
    reveal_strlit(":");
    let key = key_of(model, hash);
    let other = key_of(other_model, other_hash);
    assert(key.len() == model.len() + 65);
    assert(other.len() == other_model.len() + 65);
    assert(key.take(model.len() as int) =~= model);
    assert(other.take(other_model.len() as int) =~= other_model);
    assert(key.skip(model.len() as int + 1) =~= hash);
    assert(other.skip(other_model.len() as int + 1) =~= other_hash);
}

/// The prompt, and with it the digest and the key, depends on nothing but the roles and the
/// contents of the messages.
pub proof fn law_prompt_from_roles_and_contents(
    messages: Seq<ChatMessage>,
    others: Seq<ChatMessage>,
)
    requires
        messages.len() == others.len(),
        forall|i: int|
            0 <= i < messages.len() ==> (#[trigger] messages[i]).role@ == others[i].role@
                && messages[i].content@ == others[i].content@,
    ensures
        joined_messages(messages) == joined_messages(others),
        prompt_of(messages) == prompt_of(others),
    decreases messages.len(),
{
    if messages.len() > 0 {
        assert forall|i: int| 0 <= i < messages.len() - 1 implies (
        #[trigger] messages.drop_last()[i]).role@ == others.drop_last()[i].role@
            && messages.drop_last()[i].content@ == others.drop_last()[i].content@ by {
            assert(messages[i].role@ == others[i].role@);
        }
        law_prompt_from_roles_and_contents(messages.drop_last(), others.drop_last());
        let last = messages.len() - 1;
        assert(messages[last].role@ == others[last].role@);
    }
}

/// A prompt does not end with white space.
pub proof fn law_prompt_is_trimmed(messages: Seq<ChatMessage>)
    ensures
        prompt_of(messages).len() > 0 ==> !text::white_space(prompt_of(messages).last()),
{
    text::law_trimmed_end(joined_messages(messages));
}

/// An answer that comes in two runs of chunks is the same as one that comes in a single run.
pub proof fn law_chunks_in_runs(
    start: AnswerView,
    first: Seq<Seq<char>>,
    second: Seq<Seq<char>>,
)
    ensures
        start.with_chunks(first + second) == start.with_chunks(first).with_chunks(second),
    decreases second.len(),
{
    if second.len() == 0 {
        assert(first + second =~= first);
    } else {
        law_chunks_in_runs(start, first, second.drop_last());
        assert((first + second).drop_last() =~= first + second.drop_last());
    }
}

/// A chunk none of whose lines begins with `data: ` adds nothing to an answer.
pub proof fn law_other_lines_add_nothing(start: AnswerView, lines: Seq<Seq<char>>)
    requires
        forall|i: int| 0 <= i < lines.len() ==> !"data: "@.is_prefix_of(#[trigger] lines[i]),
    ensures
        start.with_lines(lines) == start,
    decreases lines.len(),
{
    if lines.len() > 0 {
        assert forall|i: int| 0 <= i < lines.len() - 1 implies !"data: "@.is_prefix_of(
            #[trigger] lines.drop_last()[i],
        ) by {
            assert(!"data: "@.is_prefix_of(lines[i]));
        }
        law_other_lines_add_nothing(start, lines.drop_last());
        assert(!"data: "@.is_prefix_of(lines[lines.len() - 1]));
    }
}

/// The text of an answer only grows, whatever chunks come.
pub proof fn law_content_grows(start: AnswerView, chunks: Seq<Seq<char>>)
    ensures
        start.content.is_prefix_of(start.with_chunks(chunks).content),
    decreases chunks.len(),
{
    if chunks.len() == 0 {
        assert(start.content.subrange(0, start.content.len() as int) =~= start.content);
    } else {
        law_content_grows(start, chunks.drop_last());
        let before = start.with_chunks(chunks.drop_last());
        lemma_content_grows_by_lines(before, text::lines_of(chunks.last()));
        lemma_prefix_transitive(
            start.content,
            before.content,
            start.with_chunks(chunks).content,
        );
    }
}

proof fn lemma_content_grows_by_lines(start: AnswerView, lines: Seq<Seq<char>>)
    ensures
        start.content.is_prefix_of(start.with_lines(lines).content),
    decreases lines.len(),
{
    if lines.len() == 0 {
        assert(start.content.subrange(0, start.content.len() as int) =~= start.content);
    } else {
        lemma_content_grows_by_lines(start, lines.drop_last());
        let before = start.with_lines(lines.drop_last());
        let after = start.with_lines(lines);
        assert(after.content.subrange(0, before.content.len() as int) =~= before.content);
        lemma_prefix_transitive(start.content, before.content, after.content);
    }
}

proof fn lemma_prefix_transitive(a: Seq<char>, b: Seq<char>, c: Seq<char>)
    requires
        a.is_prefix_of(b),
        b.is_prefix_of(c),
    ensures
        a.is_prefix_of(c),
{
    assert(c.subrange(0, a.len() as int) =~= b.subrange(0, a.len() as int));
}

/// A stored answer as one completion: it names the model of the payload, is marked as cached,
/// and its only choice has the text put together from the events.
pub proof fn law_completion_says(payload: PayloadView)
    ensures
        payload.completion().field("model"@) == Some(json::Json::Text(payload.model)),
        payload.completion().field("cached"@) == Some(json::Json::Bool(true)),
        payload.completion().field("choices"@) is Some,
        payload.completion().field("choices"@)->Some_0.item(0) is Some,
        payload.completion().field("choices"@)->Some_0.item(1) is None,
        ({
            let choice = payload.completion().field("choices"@)->Some_0.item(0)->Some_0;
            &&& choice.field("message"@) is Some
            &&& choice.field("message"@)->Some_0.field("content"@) == Some(
                json::Json::Text(blank_answer(payload).with_chunks(payload.sse_chunks).content),
            )
        }),
{
    reveal_strlit("id");
    reveal_strlit("object");
    reveal_strlit("created");
    reveal_strlit("model");
    reveal_strlit("choices");
    reveal_strlit("usage");
    reveal_strlit("cached");
    reveal_strlit("index");
    reveal_strlit("message");
    reveal_strlit("finish_reason");
    reveal_strlit("role");
    reveal_strlit("content");
    assert("model"@[0] == 'm' && "usage"@[0] == 'u');
    assert("choices"@.len() == 7 && "message"@.len() == 7);
}

/// A digest in ASCII is cut to its first eight characters, where it has so many.
pub proof fn law_short_hash_of_ascii(hash: Seq<char>)
    requires
        vstd::utf8::is_ascii_chars(hash),
    ensures
        hash.len() >= 8 ==> short_hash(hash) == hash.take(8),
        hash.len() < 8 ==> short_hash(hash) == hash,
{
    let bytes = vstd::utf8::encode_utf8(hash);
    vstd::utf8::is_ascii_chars_encode_utf8(hash);
    vstd::utf8::encode_utf8_valid_utf8(hash);
    if hash.len() >= 8 {
        let head = hash.take(8);
        assert(vstd::utf8::is_ascii_chars(head));
        vstd::utf8::is_ascii_chars_encode_utf8(head);
        assert(vstd::utf8::encode_utf8(head) =~= bytes.subrange(0, 8));
        vstd::utf8::encode_utf8_decode_utf8(head);
        if hash.len() == 8 {
            vstd::utf8::is_char_boundary_start_end_of_seq(bytes);
        } else {
            vstd::utf8::is_char_boundary_iff_is_leading_byte(bytes, 8);
        }
        assert(vstd::utf8::is_char_boundary(bytes, 8));
    }
}

/// Every message is in the prompt, in its order, as its role, a colon, a blank, its content
/// and a line feed.
pub proof fn law_every_message_is_joined(messages: Seq<ChatMessage>, message: ChatMessage)
    ensures
        joined_messages(Seq::empty()) == Seq::<char>::empty(),
        joined_messages(messages.push(message)) == joined_messages(messages) + message.role@ + seq![
            ':',
            ' ',
        ] + message.content@ + seq!['\n'],
{
    reveal_strlit(": ");
    reveal_strlit("\n");
    assert(": "@ =~= seq![':', ' ']);
    assert("\n"@ =~= seq!['\n']);
    assert(messages.push(message).drop_last() =~= messages);
}

/// The prompt is all of the joined messages but the white space at their end.
pub proof fn law_prompt_is_the_joined_messages(messages: Seq<ChatMessage>)
    ensures
        prompt_of(messages).len() <= joined_messages(messages).len(),
        prompt_of(messages) == joined_messages(messages).take(prompt_of(messages).len() as int),
        forall|i: int|
            prompt_of(messages).len() <= i < joined_messages(messages).len() ==> text::white_space(
                #[trigger] joined_messages(messages)[i],
            ),
        prompt_of(messages).len() > 0 ==> !text::white_space(prompt_of(messages).last()),
{
    text::law_trimmed_end(joined_messages(messages));
}

/// What stands before the last message stays in the prompt as it is, up to the role of that
/// message at least, where the role has something other than white space.
pub proof fn law_earlier_turns_stay(messages: Seq<ChatMessage>, message: ChatMessage, i: int)
    requires
        0 <= i < message.role@.len(),
        !text::white_space(message.role@[i]),
    ensures
        prompt_of(messages.push(message)).len() > joined_messages(messages).len() + i,
        prompt_of(messages.push(message)).take(joined_messages(messages).len() as int)
            == joined_messages(messages),
{
    let all = messages.push(message);
    let before = joined_messages(messages);
    law_every_message_is_joined(messages, message);
    law_prompt_is_the_joined_messages(all);
    assert(joined_messages(all)[before.len() + i] == message.role@[i]);
    assert(prompt_of(all).len() > before.len() + i);
    assert(prompt_of(all).take(before.len() as int) =~= before);
}

/// The key is the model, a colon and the digest.
pub proof fn law_key_parts(model: Seq<char>, hash: Seq<char>)
    ensures
        key_of(model, hash).len() == model.len() + 1 + hash.len(),
        key_of(model, hash).take(model.len() as int) == model,
        key_of(model, hash)[model.len() as int] == ':',
        key_of(model, hash).skip(model.len() as int + 1) == hash,
{
    reveal_strlit(":");
    assert(":"@ =~= seq![':']);
    assert(key_of(model, hash).take(model.len() as int) =~= model);
    assert(key_of(model, hash).skip(model.len() as int + 1) =~= hash);
}

/// A payload says what its fields hold, each chunk in its place.
pub proof fn law_payload_says(payload: CachePayload)
    ensures
        payload@.prompt_hash == payload.prompt_hash@,
        payload@.prompt == payload.prompt@,
        payload@.model == payload.model@,
        payload@.created_at == payload.created_at,
        payload@.sse_chunks.len() == payload.sse_chunks@.len(),
        forall|i: int|
            0 <= i < payload.sse_chunks@.len() ==> #[trigger] payload@.sse_chunks[i]
                == payload.sse_chunks@[i]@,
{
}

/// An answer says what its fields hold.
pub proof fn law_answer_says(answer: Answer)
    ensures
        answer@.id == answer.id@,
        answer@.created == answer.created,
        answer@.content == answer.content@,
{
}

/// The time of storing is the reading of the clock; zero where there is none.
pub proof fn law_storing_time(seconds: u64)
    ensures
        storing_time(None) == 0,
        seconds <= i64::MAX ==> storing_time(Some(seconds)) == seconds,
        seconds > i64::MAX ==> storing_time(Some(seconds)) == seconds - 0x1_0000_0000_0000_0000,
{
    assert(seconds > 0x7fff_ffff_ffff_ffff ==> seconds as i64 == seconds
        - 0x1_0000_0000_0000_0000) by (bit_vector);
}

/// The text of an event is that of `choices[0].delta.content`, whatever characters it has:
/// there is one exactly where the event has that path and a text at its end.
pub proof fn law_text_of_an_event(event: json::Json, delta: Seq<char>)
    ensures
        delta_of(event) == Some(delta) <==> {
            &&& event is Record
            &&& event->Record_0.contains_key("choices"@)
            &&& event->Record_0["choices"@] is List
            &&& event->Record_0["choices"@]->List_0.len() > 0
            &&& event->Record_0["choices"@]->List_0[0] is Record
            &&& event->Record_0["choices"@]->List_0[0]->Record_0.contains_key("delta"@)
            &&& event->Record_0["choices"@]->List_0[0]->Record_0["delta"@] is Record
            &&& event->Record_0["choices"@]->List_0[0]->Record_0["delta"@]->Record_0.contains_key(
                "content"@,
            )
            &&& event->Record_0["choices"@]->List_0[0]->Record_0["delta"@]->Record_0["content"@]
                == json::Json::Text(delta)
        },
{
}

/// The id of an event is its text under `id`, and its time the integer of 64 bits under
/// `created`.
pub proof fn law_id_and_time_of_an_event(event: json::Json, id: Seq<char>, created: i64)
    ensures
        id_of(event) == Some(id) <==> event is Record && event->Record_0.contains_key("id"@)
            && event->Record_0["id"@] == json::Json::Text(id),
        created_of(event) == Some(created) <==> event is Record && event->Record_0.contains_key(
            "created"@,
        ) && event->Record_0["created"@] == json::Json::Int(created as int),
{
}

/// Every event counts: its text comes at the end of what was said before, whatever it is, and
/// its id and its time take the place of those before.
pub proof fn law_every_event_counts(start: AnswerView, event: json::Json)
    ensures
        delta_of(event) is Some ==> start.with_event(event).content == start.content
            + delta_of(event)->Some_0,
        delta_of(event) is None ==> start.with_event(event).content == start.content,
        id_of(event) is Some ==> start.with_event(event).id == id_of(event)->Some_0,
        id_of(event) is None ==> start.with_event(event).id == start.id,
        created_of(event) is Some ==> start.with_event(event).created == created_of(event)->Some_0,
        created_of(event) is None ==> start.with_event(event).created == start.created,
{
}

/// A line with the prefix `data: ` counts as the event that its data is; the end marker and
/// what is no JSON count as nothing. So does every other line.
pub proof fn law_lines_are_events(start: AnswerView, data: Seq<char>, line: Seq<char>)
    ensures
        text::trimmed(data) == "[DONE]"@ ==> start.with_line("data: "@ + data) == start,
        text::trimmed(data) != "[DONE]"@ && json::parsed(data) is Some ==> start.with_line(
            "data: "@ + data,
        ) == start.with_event(json::parsed(data)->Some_0),
        json::parsed(data) is None ==> start.with_line("data: "@ + data) == start,
        !"data: "@.is_prefix_of(line) ==> start.with_line(line) == start,
{
    let whole = "data: "@ + data;
    assert("data: "@.is_prefix_of(whole)) by {
        assert(whole.subrange(0, "data: "@.len() as int) =~= "data: "@);
    }
    assert(whole.skip("data: "@.len() as int) =~= data);
}

/// Lines and chunks are taken up one after another, none is left out.
pub proof fn law_lines_and_chunks_in_order(
    start: AnswerView,
    lines: Seq<Seq<char>>,
    line: Seq<char>,
    chunks: Seq<Seq<char>>,
    chunk: Seq<char>,
)
    ensures
        start.with_lines(Seq::empty()) == start,
        start.with_lines(lines.push(line)) == start.with_lines(lines).with_line(line),
        start.with_chunks(Seq::empty()) == start,
        start.with_chunks(chunks.push(chunk)) == start.with_chunks(chunks).with_lines(
            text::lines_of(chunk),
        ),
{
    assert(lines.push(line).drop_last() =~= lines);
    assert(chunks.push(chunk).drop_last() =~= chunks);
}

/// The text that a line of a stream says: that of its event, and nothing where it has none.
pub open spec fn said_by(line: Seq<char>) -> Seq<char> {
    if "data: "@.is_prefix_of(line) && text::trimmed(line.skip(6)) != "[DONE]"@ && json::parsed(
        line.skip(6),
    ) is Some && delta_of(json::parsed(line.skip(6))->Some_0) is Some {
        delta_of(json::parsed(line.skip(6))->Some_0)->Some_0
    } else {
        Seq::empty()
    }
}

/// What is said is all that the lines say, one after another.
proof fn lemma_content_of_lines(start: AnswerView, lines: Seq<Seq<char>>)
    ensures
        start.with_lines(lines).content == start.content + lines.map_values(
            |line: Seq<char>| said_by(line),
        ).flatten(),
    decreases lines.len(),
{
    let say = |line: Seq<char>| said_by(line);
    reveal_strlit("data: ");
    if lines.len() == 0 {
        assert(lines.map_values(say).flatten() =~= Seq::<char>::empty());
        assert(start.content + Seq::<char>::empty() =~= start.content);
    } else {
        let before = lines.drop_last();
        lemma_content_of_lines(start, before);
        assert(lines.map_values(say) =~= before.map_values(say).push(said_by(lines.last())));
        before.map_values(say).lemma_flatten_push(said_by(lines.last()));
        assert(start.with_lines(lines).content =~= start.with_lines(before).content + said_by(
            lines.last(),
        ));
        assert(start.with_lines(lines).content =~= start.content + lines.map_values(say).flatten());
    }
}

/// The text of a completion is all that its events say: `choices[0].delta.content` of every
/// line of every chunk that has one, in their order, nothing left out and nothing added.
pub proof fn law_completion_says_every_delta(start: AnswerView, chunks: Seq<Seq<char>>)
    ensures
        start.with_chunks(chunks).content == start.content + chunks.map_values(
            |chunk: Seq<char>|
                text::lines_of(chunk).map_values(|line: Seq<char>| said_by(line)).flatten(),
        ).flatten(),
    decreases chunks.len(),
{
    let say = |chunk: Seq<char>|
        text::lines_of(chunk).map_values(|line: Seq<char>| said_by(line)).flatten();
    if chunks.len() == 0 {
        assert(chunks.map_values(say).flatten() =~= Seq::<char>::empty());
        assert(start.content + Seq::<char>::empty() =~= start.content);
    } else {
        let before = chunks.drop_last();
        law_completion_says_every_delta(start, before);
        lemma_content_of_lines(start.with_chunks(before), text::lines_of(chunks.last()));
        assert(chunks.map_values(say) =~= before.map_values(say).push(say(chunks.last())));
        before.map_values(say).lemma_flatten_push(say(chunks.last()));
        assert(start.with_chunks(chunks).content =~= start.content + chunks.map_values(
            say,
        ).flatten());
    }
}

/// A digest is cut after eight bytes where a character ends there, and else not at all.
pub proof fn law_short_hash(hash: Seq<char>)
    ensures
        vstd::utf8::is_char_boundary(vstd::utf8::encode_utf8(hash), 8) ==> vstd::utf8::encode_utf8(
            short_hash(hash),
        ) == vstd::utf8::encode_utf8(hash).take(8),
        !vstd::utf8::is_char_boundary(vstd::utf8::encode_utf8(hash), 8) ==> short_hash(hash)
            == hash,
{
    let bytes = vstd::utf8::encode_utf8(hash);
    vstd::utf8::encode_utf8_valid_utf8(hash);
    if vstd::utf8::is_char_boundary(bytes, 8) {
        vstd::utf8::valid_utf8_split(bytes, 8);
        vstd::utf8::decode_utf8_encode_utf8(bytes.subrange(0, 8));
        assert(bytes.subrange(0, 8) =~= bytes.take(8));
    }
}

/// Before any of its events, an answer has the id of the cache with the short digest, the time
/// of storing and no text.
pub proof fn law_blank_answer(payload: PayloadView)
    ensures
        blank_answer(payload).id == "chatcmpl-cache-"@ + short_hash(payload.prompt_hash),
        blank_answer(payload).created == payload.created_at,
        blank_answer(payload).content.len() == 0,
{
}

/// A completion has just these entries, with the id, the time and the text of the answer, and
/// the name of the model.
pub proof fn law_completion_entries(answer: AnswerView, model: Seq<char>)
    ensures
        ({
            let c = answer.completion(model);
            let choice = c.field("choices"@)->Some_0.item(0)->Some_0;
            let message = choice.field("message"@)->Some_0;
            let usage = c.field("usage"@)->Some_0;
            &&& c is Record && c->Record_0.dom() =~= set![
                "id"@,
                "object"@,
                "created"@,
                "model"@,
                "choices"@,
                "usage"@,
                "cached"@,
            ]
            &&& c.field("id"@) == Some(json::Json::Text(answer.id))
            &&& c.field("object"@) == Some(json::Json::Text("chat.completion"@))
            &&& c.field("created"@) == Some(json::Json::Int(answer.created as int))
            &&& c.field("model"@) == Some(json::Json::Text(model))
            &&& c.field("cached"@) == Some(json::Json::Bool(true))
            &&& c.field("choices"@) is Some && c.field("choices"@)->Some_0 is List
            &&& c.field("choices"@)->Some_0->List_0.len() == 1
            &&& choice is Record && choice->Record_0.dom() =~= set![
                "index"@,
                "message"@,
                "finish_reason"@,
            ]
            &&& choice.field("index"@) == Some(json::Json::Int(0))
            &&& choice.field("finish_reason"@) == Some(json::Json::Text("stop"@))
            &&& message is Record && message->Record_0.dom() =~= set!["role"@, "content"@]
            &&& message.field("role"@) == Some(json::Json::Text("assistant"@))
            &&& message.field("content"@) == Some(json::Json::Text(answer.content))
            &&& usage is Record && usage->Record_0.dom() =~= set![
                "prompt_tokens"@,
                "completion_tokens"@,
                "total_tokens"@,
            ]
            &&& usage.field("prompt_tokens"@) == Some(json::Json::Int(0))
            &&& usage.field("completion_tokens"@) == Some(json::Json::Int(0))
            &&& usage.field("total_tokens"@) == Some(json::Json::Int(0))
        }),
{
    reveal_strlit("id");
    reveal_strlit("object");
    reveal_strlit("created");
    reveal_strlit("model");
    reveal_strlit("choices");
    reveal_strlit("usage");
    reveal_strlit("cached");
    reveal_strlit("index");
    reveal_strlit("message");
    reveal_strlit("finish_reason");
    reveal_strlit("role");
    reveal_strlit("content");
    reveal_strlit("prompt_tokens");
    reveal_strlit("completion_tokens");
    reveal_strlit("total_tokens");
    assert("model"@[0] != "usage"@[0]);
    assert("object"@[0] != "cached"@[0]);
    assert("choices"@[1] != "created"@[1]);
    assert("id"@.len() == 2 && "object"@.len() == 6 && "created"@.len() == 7 && "model"@.len() == 5
        && "choices"@.len() == 7 && "usage"@.len() == 5 && "cached"@.len() == 6);
    assert("index"@.len() == 5 && "message"@.len() == 7 && "finish_reason"@.len() == 13);
    assert("role"@.len() == 4 && "content"@.len() == 7);
    assert("prompt_tokens"@.len() == 13 && "completion_tokens"@.len() == 17
        && "total_tokens"@.len() == 12);
    let c = answer.completion(model);
    let entries = c->Record_0;
    assert(entries.dom() =~= set![
        "id"@,
        "object"@,
        "created"@,
        "model"@,
        "choices"@,
        "usage"@,
        "cached"@,
    ]);
    let choice = entries["choices"@]->List_0[0];
    assert(choice->Record_0.dom() =~= set!["index"@, "message"@, "finish_reason"@]);
    assert(choice->Record_0["message"@]->Record_0.dom() =~= set!["role"@, "content"@]);
    assert(entries["usage"@]->Record_0.dom() =~= set![
        "prompt_tokens"@,
        "completion_tokens"@,
        "total_tokens"@,
    ]);
}

/// A stored answer as one completion is that of its events, taken up from the blank answer.
pub proof fn law_stored_answer_as_completion(payload: PayloadView)
    ensures
        payload.completion() == blank_answer(payload).with_chunks(payload.sse_chunks).completion(
            payload.model,
        ),
{
}

/// What a stored answer says as one completion is all that its events say, in their order.
pub proof fn law_stored_answer_says_every_delta(payload: PayloadView)
    ensures
        payload.completion().field("choices"@)->Some_0.item(0)->Some_0.field(
            "message"@,
        )->Some_0.field("content"@) == Some(
            json::Json::Text(
                payload.sse_chunks.map_values(
                    |chunk: Seq<char>|
                        text::lines_of(chunk).map_values(|line: Seq<char>| said_by(line)).flatten(),
                ).flatten(),
            ),
        ),
{
    let start = blank_answer(payload);
    let said = payload.sse_chunks.map_values(
        |chunk: Seq<char>|
            text::lines_of(chunk).map_values(|line: Seq<char>| said_by(line)).flatten(),
    ).flatten();
    law_completion_says_every_delta(start, payload.sse_chunks);
    law_completion_entries(start.with_chunks(payload.sse_chunks), payload.model);
    assert(start.content + said =~= said);
}

/// Only what came of asking the clock counts as a reading of it.
proof fn law_readings_come_from_the_clock(seconds: Option<u64>)
    requires
        clock_says(seconds),
    ensures
        call_ensures(seconds_since_epoch, (), seconds),
{
}

}
