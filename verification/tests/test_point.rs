use infercache::models::CachePayload;
use infercache::point::{collection_missing, read_point, write_point, FieldValue, FoundPoint};

fn payload() -> CachePayload {
    CachePayload::stored_at(
        "hash".to_string(),
        "prompt".to_string(),
        "gpt-4o-mini".to_string(),
        vec!["data: a\n\n".to_string(), "data: [DONE]\n\n".to_string()],
        Some(1_700_000_000),
    )
}

fn score(value: f32) -> u32 {
    value.to_bits()
}

#[test]
fn written_point_is_read_back() {
    let point = write_point(payload());
    assert_eq!(point.id, "hash");
    let names: Vec<&str> = point.fields.iter().map(|f| f.0.as_str()).collect();
    assert_eq!(names, vec!["prompt_hash", "prompt", "model", "created_at", "sse_chunks"]);
    let found = FoundPoint { score: score(0.96), fields: point.fields };
    let back = read_point(Some(found), "gpt-4o-mini", score(0.95)).unwrap();
    assert_eq!(back.prompt_hash, "hash");
    assert_eq!(back.prompt, "prompt");
    assert_eq!(back.model, "gpt-4o-mini");
    assert_eq!(back.sse_chunks, payload().sse_chunks);
    assert_eq!(back.created_at, 1_700_000_000);
}

#[test]
fn written_point_is_read_back_in_any_order() {
    for shift in 0..5 {
        for reversed in [false, true] {
            let mut fields = write_point(payload()).fields;
            fields.rotate_left(shift);
            if reversed {
                fields.reverse();
            }
            fields.insert(shift, ("extra".to_string(), FieldValue::Other));
            let found = FoundPoint { score: score(0.96), fields };
            let back = read_point(Some(found), "gpt-4o-mini", score(0.95)).unwrap();
            assert_eq!(back.prompt_hash, "hash");
            assert_eq!(back.prompt, "prompt");
            assert_eq!(back.model, "gpt-4o-mini");
            assert_eq!(back.sse_chunks, payload().sse_chunks);
            assert_eq!(back.created_at, 1_700_000_000);
        }
    }
}

#[test]
fn point_below_the_threshold_or_for_another_model_is_no_answer() {
    let found = |value: f32| {
        Some(FoundPoint { score: score(value), fields: write_point(payload()).fields })
    };
    assert!(read_point(found(0.94), "gpt-4o-mini", score(0.95)).is_none());
    assert!(read_point(found(0.95), "gpt-4o-mini", score(0.95)).is_some());
    assert!(read_point(found(f32::NAN), "gpt-4o-mini", score(0.95)).is_some());
    assert!(read_point(found(1.0), "gpt-4o", score(0.95)).is_none());
    assert!(read_point(None, "gpt-4o-mini", score(0.95)).is_none());
}

#[test]
fn missing_and_odd_values_count_as_empty() {
    let found = FoundPoint {
        score: score(1.0),
        fields: vec![
            ("prompt".to_string(), FieldValue::Integer(3)),
            ("created_at".to_string(), FieldValue::Text("x".to_string())),
            (
                "sse_chunks".to_string(),
                FieldValue::List(vec![
                    FieldValue::Text("a".to_string()),
                    FieldValue::Other,
                    FieldValue::List(vec![]),
                    FieldValue::Text("b".to_string()),
                ]),
            ),
        ],
    };
    let back = read_point(Some(found), "", score(0.5)).unwrap();
    assert_eq!(back.prompt_hash, "");
    assert_eq!(back.prompt, "");
    assert_eq!(back.model, "");
    assert_eq!(back.sse_chunks, vec!["a", "b"]);
    assert_eq!(back.created_at, 0);
    let no_list = FoundPoint {
        score: score(1.0),
        fields: vec![("sse_chunks".to_string(), FieldValue::Other)],
    };
    assert!(read_point(Some(no_list), "", score(0.5)).unwrap().sse_chunks.is_empty());
}

#[test]
fn collection_is_made_where_its_name_is_missing() {
    let names = vec!["a".to_string(), "infercache".to_string()];
    assert!(!collection_missing(&names, "infercache"));
    assert!(collection_missing(&names, "infer"));
    assert!(collection_missing(&vec![], "infercache"));
}
