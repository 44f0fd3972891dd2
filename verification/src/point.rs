//! Cached answers as the points of a vector database.
use crate::models::CachePayload;
use crate::models::PayloadView;
use crate::score;
use crate::text;
use vstd::prelude::*;

verus! {

/// A value of a point: a text, an integer, a list, or anything else.
pub enum FieldValue {
    Text(String),
    Integer(i64),
    List(Vec<FieldValue>),
    Other,
}

impl FieldValue {
    /// The characters of a text.
    pub open spec fn text(self) -> Option<Seq<char>> {
        match self {
            FieldValue::Text(text) => Some(text@),
            _ => None,
        }
    }
}

/// A point that a search found: its score, as the bits of a single-precision number, and its
/// values by their names.
pub struct FoundPoint {
    pub score: u32,
    pub fields: Vec<(String, FieldValue)>,
}

/// A point that is to be kept: its name and its values by theirs.
pub struct NewPoint {
    pub id: String,
    pub fields: Vec<(String, FieldValue)>,
}

/// The first value under a name.
pub open spec fn lookup(fields: Seq<(String, FieldValue)>, name: Seq<char>) -> Option<FieldValue>
    decreases fields.len(),
{
    if fields.len() == 0 {
        None
    } else if fields[0].0@ == name {
        Some(fields[0].1)
    } else {
        lookup(fields.drop_first(), name)
    }
}

/// The text under a name; empty where there is none.
pub open spec fn text_field(fields: Seq<(String, FieldValue)>, name: Seq<char>) -> Seq<char> {
    match lookup(fields, name) {
        Some(FieldValue::Text(text)) => text@,
        _ => Seq::empty(),
    }
}

/// The integer under a name; zero where there is none.
pub open spec fn integer_field(fields: Seq<(String, FieldValue)>, name: Seq<char>) -> i64 {
    match lookup(fields, name) {
        Some(FieldValue::Integer(number)) => number,
        _ => 0,
    }
}

/// The texts of the list under a name, without what is no text; none where there is no list.
pub open spec fn texts_field(fields: Seq<(String, FieldValue)>, name: Seq<char>) -> Seq<Seq<char>> {
    match lookup(fields, name) {
        Some(FieldValue::List(items)) => items@.filter_map(|item: FieldValue| item.text()),
        _ => Seq::empty(),
    }
}

/// The payload that the values of a point say.
pub open spec fn payload_of(fields: Seq<(String, FieldValue)>) -> PayloadView {
    PayloadView {
        prompt_hash: text_field(fields, "prompt_hash"@),
        prompt: text_field(fields, "prompt"@),
        model: text_field(fields, "model"@),
        sse_chunks: texts_field(fields, "sse_chunks"@),
        created_at: integer_field(fields, "created_at"@),
    }
}

/// The answer that a found point gives to a request: its payload, unless its score is below
/// the threshold or it is for another model.
pub open spec fn point_answer(
    point: Option<FoundPoint>,
    model: Seq<char>,
    threshold: u32,
) -> Option<PayloadView> {
    match point {
        Some(found) => if score::above(threshold, found.score) || text_field(
            found.fields@,
            "model"@,
        ) != model {
            None
        } else {
            Some(payload_of(found.fields@))
        },
        None => None,
    }
}

/// Whether the values of a point are those of a payload.
pub open spec fn describes(fields: Seq<(String, FieldValue)>, payload: PayloadView) -> bool {
    &&& fields.len() == 5
    &&& fields[0].0@ == "prompt_hash"@ && fields[0].1.text() == Some(payload.prompt_hash)
    &&& fields[1].0@ == "prompt"@ && fields[1].1.text() == Some(payload.prompt)
    &&& fields[2].0@ == "model"@ && fields[2].1.text() == Some(payload.model)
    &&& fields[3].0@ == "created_at"@ && fields[3].1 == FieldValue::Integer(payload.created_at)
    &&& fields[4].0@ == "sse_chunks"@ && fields[4].1 is List && is_text_list(
        fields[4].1->List_0@,
        payload.sse_chunks,
    )
}

/// Whether a list holds those texts and nothing else.
pub open spec fn is_text_list(items: Seq<FieldValue>, chunks: Seq<Seq<char>>) -> bool {
    items.len() == chunks.len() && forall|i: int|
        0 <= i < items.len() ==> (#[trigger] items[i]).text() == Some(chunks[i])
}

/// The first value under a name.
fn find<'a>(fields: &'a Vec<(String, FieldValue)>, name: &str) -> (r: Option<&'a FieldValue>)
    ensures
        match r {
            Some(value) => lookup(fields@, name@) == Some(*value),
            None => lookup(fields@, name@) is None,
        },
{
    let mut i: usize = 0;
    assert(fields@.skip(0) =~= fields@);
    while i < fields.len()
        invariant
            i <= fields@.len(),
            lookup(fields@, name@) == lookup(fields@.skip(i as int), name@),
        decreases fields@.len() - i,
    {
        let field = &fields[i];
        assert(fields@.skip(i as int).drop_first() =~= fields@.skip(i + 1));
        if text::same(field.0.as_str(), name) {
            return Some(&field.1);
        }
        i += 1;
    }
    None
}

/// The text under a name; empty where there is none.
fn find_text(fields: &Vec<(String, FieldValue)>, name: &str) -> (r: String)
    ensures
        r@ == text_field(fields@, name@),
{
    match find(fields, name) {
        Some(FieldValue::Text(text)) => text.clone(),
        _ => String::new(),
    }
}

/// The integer under a name; zero where there is none.
fn find_integer(fields: &Vec<(String, FieldValue)>, name: &str) -> (r: i64)
    ensures
        r == integer_field(fields@, name@),
{
    match find(fields, name) {
        Some(FieldValue::Integer(number)) => *number,
        _ => 0,
    }
}

/// The texts of a list, without what is no text.
fn list_texts(items: &Vec<FieldValue>) -> (r: Vec<String>)
    ensures
        text::texts(r@) == items@.filter_map(|item: FieldValue| item.text()),
{
    let ghost pick = |item: FieldValue| item.text();
    let mut out: Vec<String> = Vec::new();
    let mut i: usize = 0;
    assert(items@.take(0) =~= Seq::<FieldValue>::empty());
    assert(text::texts(out@) =~= Seq::<Seq<char>>::empty());
    while i < items.len()
        invariant
            i <= items@.len(),
            pick == (|item: FieldValue| item.text()),
            text::texts(out@) == items@.take(i as int).filter_map(pick),
        decreases items@.len() - i,
    {
        let ghost before = text::texts(out@);
        assert(items@.take(i + 1).drop_last() =~= items@.take(i as int));
        match &items[i] {
            FieldValue::Text(chunk) => {
                out.push(chunk.clone());
                assert(text::texts(out@) =~= before.push(chunk@));
                assert(text::texts(out@) =~= before + seq![chunk@]);
            },
            _ => {},
        }
        i += 1;
    }
    assert(items@.take(i as int) =~= items@);
    out
}

/// The texts of the list under a name; none where there is no list.
fn find_texts(fields: &Vec<(String, FieldValue)>, name: &str) -> (r: Vec<String>)
    ensures
        text::texts(r@) == texts_field(fields@, name@),
{
    match find(fields, name) {
        Some(FieldValue::List(items)) => list_texts(items),
        _ => {
            let none: Vec<String> = Vec::new();
            assert(text::texts(none@) =~= Seq::<Seq<char>>::empty());
            none
        },
    }
}

/// The answer that a found point gives to a request.
pub fn read_point(point: Option<FoundPoint>, model: &str, threshold: u32) -> (r: Option<CachePayload>)
    ensures
        match r {
            Some(payload) => point_answer(point, model@, threshold) == Some(payload@),
            None => point_answer(point, model@, threshold) is None,
        },
{
    match point {
        Some(found) => {
            if score::gt(threshold, found.score) {
                return None;
            }
            let stored_model = find_text(&found.fields, "model");
            if !text::same(stored_model.as_str(), model) {
                return None;
            }
            Some(
                CachePayload {
                    prompt_hash: find_text(&found.fields, "prompt_hash"),
                    prompt: find_text(&found.fields, "prompt"),
                    model: stored_model,
                    sse_chunks: find_texts(&found.fields, "sse_chunks"),
                    created_at: find_integer(&found.fields, "created_at"),
                },
            )
        },
        None => None,
    }
}

/// The point that keeps a payload. Its name is the digest of the prompt, so that a later
/// answer to the same prompt takes its place.
pub fn write_point(payload: CachePayload) -> (r: NewPoint)
    ensures
        r.id@ == payload@.prompt_hash,
        describes(r.fields@, payload@),
{
    let id = payload.prompt_hash.clone();
    let mut chunks: Vec<FieldValue> = Vec::new();
    let mut i: usize = 0;
    while i < payload.sse_chunks.len()
        invariant
            i <= payload.sse_chunks@.len(),
            chunks@.len() == i,
            forall|j: int|
                0 <= j < i ==> (#[trigger] chunks@[j]).text() == Some(payload.sse_chunks@[j]@),
        decreases payload.sse_chunks@.len() - i,
    {
        chunks.push(FieldValue::Text(payload.sse_chunks[i].clone()));
        i += 1;
    }
    assert(is_text_list(chunks@, payload@.sse_chunks));
    let mut fields: Vec<(String, FieldValue)> = Vec::new();
    fields.push(("prompt_hash".to_owned(), FieldValue::Text(payload.prompt_hash)));
    fields.push(("prompt".to_owned(), FieldValue::Text(payload.prompt)));
    fields.push(("model".to_owned(), FieldValue::Text(payload.model)));
    fields.push(("created_at".to_owned(), FieldValue::Integer(payload.created_at)));
    fields.push(("sse_chunks".to_owned(), FieldValue::List(chunks)));
    NewPoint { id, fields }
}

/// Whether a collection has to be made: whether none of the names is that of the collection.
pub fn collection_missing(names: &Vec<String>, collection: &str) -> (r: bool)
    ensures
        r == !text::texts(names@).contains(collection@),
{
    !text::listed(names, collection)
}

/// A list of texts alone gives back those texts.
proof fn lemma_text_list(items: Seq<FieldValue>, chunks: Seq<Seq<char>>)
    requires
        is_text_list(items, chunks),
    ensures
        items.filter_map(|item: FieldValue| item.text()) == chunks,
    decreases items.len(),
{
    let pick = |item: FieldValue| item.text();
    if items.len() > 0 {
        let n = items.len() - 1;
        assert forall|i: int| 0 <= i < n implies (#[trigger] items.drop_last()[i]).text() == Some(
            chunks.drop_last()[i],
        ) by {
            assert(items[i].text() == Some(chunks[i]));
        }
        lemma_text_list(items.drop_last(), chunks.drop_last());
        assert(items[n].text() == Some(chunks[n]));
        assert(chunks.drop_last() + seq![chunks[n]] =~= chunks);
    } else {
        assert(chunks =~= Seq::<Seq<char>>::empty());
    }
}

/// Whether no two values have the same name.
pub open spec fn names_differ(fields: Seq<(String, FieldValue)>) -> bool {
    forall|i: int, j: int|
        0 <= i < j < fields.len() ==> (#[trigger] fields[i]).0@ != (#[trigger] fields[j]).0@
}

/// Whether a text stands under a name.
pub open spec fn has_text(
    fields: Seq<(String, FieldValue)>,
    name: Seq<char>,
    text: Seq<char>,
) -> bool {
    exists|i: int|
        0 <= i < fields.len() && (#[trigger] fields[i]).0@ == name && fields[i].1.text() == Some(
            text,
        )
}

/// Whether an integer stands under a name.
pub open spec fn has_integer(
    fields: Seq<(String, FieldValue)>,
    name: Seq<char>,
    number: i64,
) -> bool {
    exists|i: int|
        0 <= i < fields.len() && (#[trigger] fields[i]).0@ == name && fields[i].1
            == FieldValue::Integer(number)
}

/// Whether a list of texts stands under a name.
pub open spec fn has_texts(
    fields: Seq<(String, FieldValue)>,
    name: Seq<char>,
    texts: Seq<Seq<char>>,
) -> bool {
    exists|i: int|
        0 <= i < fields.len() && (#[trigger] fields[i]).0@ == name && fields[i].1 is List
            && is_text_list(fields[i].1->List_0@, texts)
}

/// Whether the values of a point, in whatever order, hold a payload: each under its name, and
/// no two under one name.
pub open spec fn holds(fields: Seq<(String, FieldValue)>, payload: PayloadView) -> bool {
    &&& names_differ(fields)
    &&& has_text(fields, "prompt_hash"@, payload.prompt_hash)
    &&& has_text(fields, "prompt"@, payload.prompt)
    &&& has_text(fields, "model"@, payload.model)
    &&& has_integer(fields, "created_at"@, payload.created_at)
    &&& has_texts(fields, "sse_chunks"@, payload.sse_chunks)
}

/// Where no two values have the same name, a value is found under its name wherever it stands.
proof fn lemma_lookup(fields: Seq<(String, FieldValue)>, i: int)
    requires
        names_differ(fields),
        0 <= i < fields.len(),
    ensures
        lookup(fields, fields[i].0@) == Some(fields[i].1),
    decreases fields.len(),
{
    if i > 0 {
        assert(fields[0].0@ != fields[i].0@);
        let rest = fields.drop_first();
        assert forall|j: int, k: int| 0 <= j < k < rest.len() implies (#[trigger] rest[j]).0@ != (
        #[trigger] rest[k]).0@ by {
            assert(fields[j + 1].0@ != fields[k + 1].0@);
        }
        lemma_lookup(rest, i - 1);
        assert(rest[i - 1] == fields[i]);
    }
}

/// A search that finds a point which holds a payload, in whatever order its values come, gives
/// back that payload, where the request is for the model of the payload and the score is not
/// below the threshold.
pub proof fn law_read_back(point: FoundPoint, payload: PayloadView, threshold: u32)
    requires
        holds(point.fields@, payload),
        !score::above(threshold, point.score),
    ensures
        point_answer(Some(point), payload.model, threshold) == Some(payload),
{
    let f = point.fields@;
    let hash = choose|i: int|
        0 <= i < f.len() && (#[trigger] f[i]).0@ == "prompt_hash"@ && f[i].1.text() == Some(
            payload.prompt_hash,
        );
    lemma_lookup(f, hash);
    let prompt = choose|i: int|
        0 <= i < f.len() && (#[trigger] f[i]).0@ == "prompt"@ && f[i].1.text() == Some(
            payload.prompt,
        );
    lemma_lookup(f, prompt);
    let model = choose|i: int|
        0 <= i < f.len() && (#[trigger] f[i]).0@ == "model"@ && f[i].1.text() == Some(
            payload.model,
        );
    lemma_lookup(f, model);
    let created = choose|i: int|
        0 <= i < f.len() && (#[trigger] f[i]).0@ == "created_at"@ && f[i].1
            == FieldValue::Integer(payload.created_at);
    lemma_lookup(f, created);
    let chunks = choose|i: int|
        0 <= i < f.len() && (#[trigger] f[i]).0@ == "sse_chunks"@ && f[i].1 is List
            && is_text_list(f[i].1->List_0@, payload.sse_chunks);
    lemma_lookup(f, chunks);
    lemma_text_list(f[chunks].1->List_0@, payload.sse_chunks);
    assert(payload_of(f) =~= payload);
}

/// The values of a point that was written hold its payload, in the order in which they were
/// written and in every other one.
pub proof fn law_written_point_holds_payload(
    written: Seq<(String, FieldValue)>,
    found: Seq<(String, FieldValue)>,
    payload: PayloadView,
)
    requires
        describes(written, payload),
        names_differ(found),
        forall|i: int| 0 <= i < written.len() ==> found.contains(#[trigger] written[i]),
    ensures
        holds(written, payload),
        holds(found, payload),
{
    reveal_strlit("prompt_hash");
    reveal_strlit("prompt");
    reveal_strlit("model");
    reveal_strlit("created_at");
    reveal_strlit("sse_chunks");
    assert("prompt_hash"@.len() == 11 && "prompt"@.len() == 6 && "model"@.len() == 5
        && "created_at"@.len() == 10 && "sse_chunks"@.len() == 10);
    assert("created_at"@[0] != "sse_chunks"@[0]);
    assert(names_differ(written));
    assert(found.contains(written[0]) && found.contains(written[1]) && found.contains(written[2])
        && found.contains(written[3]) && found.contains(written[4]));
    let j0 = choose|j: int| 0 <= j < found.len() && #[trigger] found[j] == written[0];
    let j1 = choose|j: int| 0 <= j < found.len() && #[trigger] found[j] == written[1];
    let j2 = choose|j: int| 0 <= j < found.len() && #[trigger] found[j] == written[2];
    let j3 = choose|j: int| 0 <= j < found.len() && #[trigger] found[j] == written[3];
    let j4 = choose|j: int| 0 <= j < found.len() && #[trigger] found[j] == written[4];
    assert(has_text(found, "prompt_hash"@, payload.prompt_hash) && found[j0] == written[0]);
    assert(has_text(found, "prompt"@, payload.prompt) && found[j1] == written[1]);
    assert(has_text(found, "model"@, payload.model) && found[j2] == written[2]);
    assert(has_integer(found, "created_at"@, payload.created_at) && found[j3] == written[3]);
    assert(has_texts(found, "sse_chunks"@, payload.sse_chunks) && found[j4] == written[4]);
}

/// A point for another model never answers a request.
pub proof fn law_points_keep_models_apart(point: Option<FoundPoint>, model: Seq<char>, threshold: u32)
    ensures
        point_answer(point, model, threshold) matches Some(payload) ==> payload.model == model,
{
}

/// The value under a name is the first that stands there, and there is none exactly where no
/// value has the name.
pub proof fn law_first_value_counts(fields: Seq<(String, FieldValue)>, name: Seq<char>, i: int)
    requires
        0 <= i <= fields.len(),
        forall|j: int| 0 <= j < i ==> (#[trigger] fields[j]).0@ != name,
        i < fields.len() ==> fields[i].0@ == name,
    ensures
        i < fields.len() ==> lookup(fields, name) == Some(fields[i].1),
        i == fields.len() ==> lookup(fields, name) is None,
    decreases fields.len(),
{
    if fields.len() > 0 && i > 0 {
        assert(fields[0].0@ != name);
        let rest = fields.drop_first();
        assert forall|j: int| 0 <= j < i - 1 implies (#[trigger] rest[j]).0@ != name by {
            assert(fields[j + 1].0@ != name);
        }
        if i < fields.len() {
            assert(rest[i - 1] == fields[i]);
        }
        law_first_value_counts(rest, name, i - 1);
    }
}

/// A value of another kind than is asked for counts like one that is missing: as an empty
/// text, a zero, or no texts. A value of the right kind counts as it is.
pub proof fn law_values_by_kind(fields: Seq<(String, FieldValue)>, name: Seq<char>)
    ensures
        match lookup(fields, name) {
            Some(FieldValue::Text(text)) => text_field(fields, name) == text@,
            _ => text_field(fields, name).len() == 0,
        },
        match lookup(fields, name) {
            Some(FieldValue::Integer(number)) => integer_field(fields, name) == number,
            _ => integer_field(fields, name) == 0,
        },
        match lookup(fields, name) {
            Some(FieldValue::List(items)) => texts_field(fields, name) == items@.filter_map(
                |item: FieldValue|
                    match item {
                        FieldValue::Text(text) => Some(text@),
                        _ => None,
                    },
            ),
            _ => texts_field(fields, name).len() == 0,
        },
{
    match lookup(fields, name) {
        Some(FieldValue::List(items)) => {
            let pick = |item: FieldValue|
                match item {
                    FieldValue::Text(text) => Some(text@),
                    _ => None,
                };
            assert(pick =~= (|item: FieldValue| item.text()));
        },
        _ => {},
    }
}

/// A found point answers exactly where its score is not below the threshold and its model is
/// the one that was asked for, and then with what its values say under their names.
pub proof fn law_point_answers(point: FoundPoint, model: Seq<char>, threshold: u32)
    ensures
        point_answer(None, model, threshold) is None,
        point_answer(Some(point), model, threshold) is Some <==> !score::above(
            threshold,
            point.score,
        ) && text_field(point.fields@, "model"@) == model,
        point_answer(Some(point), model, threshold) matches Some(payload) ==> {
            &&& payload.prompt_hash == text_field(point.fields@, "prompt_hash"@)
            &&& payload.prompt == text_field(point.fields@, "prompt"@)
            &&& payload.model == text_field(point.fields@, "model"@)
            &&& payload.sse_chunks == texts_field(point.fields@, "sse_chunks"@)
            &&& payload.created_at == integer_field(point.fields@, "created_at"@)
        },
{
}

/// A payload is written as five values under their names, with all that it says.
pub proof fn law_written_values(fields: Seq<(String, FieldValue)>, payload: PayloadView)
    requires
        describes(fields, payload),
    ensures
        fields.len() == 5,
        fields[0].0@ == "prompt_hash"@ && fields[0].1 is Text && fields[0].1->Text_0@
            == payload.prompt_hash,
        fields[1].0@ == "prompt"@ && fields[1].1 is Text && fields[1].1->Text_0@ == payload.prompt,
        fields[2].0@ == "model"@ && fields[2].1 is Text && fields[2].1->Text_0@ == payload.model,
        fields[3].0@ == "created_at"@ && fields[3].1 == FieldValue::Integer(payload.created_at),
        fields[4].0@ == "sse_chunks"@ && fields[4].1 is List,
        fields[4].1->List_0@.len() == payload.sse_chunks.len(),
        forall|i: int|
            0 <= i < payload.sse_chunks.len() ==> (#[trigger] fields[4].1->List_0@[i]) is Text
                && fields[4].1->List_0@[i]->Text_0@ == payload.sse_chunks[i],
{
    assert forall|i: int| 0 <= i < payload.sse_chunks.len() implies (
    #[trigger] fields[4].1->List_0@[i]) is Text && fields[4].1->List_0@[i]->Text_0@
        == payload.sse_chunks[i] by {
        assert(fields[4].1->List_0@[i].text() == Some(payload.sse_chunks[i]));
    }
}

}
