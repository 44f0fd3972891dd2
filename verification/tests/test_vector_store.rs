use infercache::models::CachePayload;
use infercache::vector_store::{InMemoryVectorStore, MAX_CACHE_ENTRIES};

fn make_normalized_vector(dim: usize, primary_idx: usize) -> Vec<f32> {
    let mut v = vec![0.0f32; dim];
    v[primary_idx] = 1.0f32;
    v
}

fn bits(vector: &[f32]) -> Vec<u32> {
    vector.iter().map(|x| x.to_bits()).collect()
}

fn dot(a: &[u32], b: &[u32]) -> u32 {
    let sum: f32 = a
        .iter()
        .zip(b.iter())
        .map(|(x, y)| f32::from_bits(*x) * f32::from_bits(*y))
        .sum();
    sum.to_bits()
}

fn entry(hash: &str, model: &str) -> CachePayload {
    CachePayload::new(
        hash.to_string(),
        "prompt".to_string(),
        model.to_string(),
        vec![hash.to_string()],
    )
}

fn threshold() -> u32 {
    0.95f32.to_bits()
}

#[test]
fn test_in_memory_vector_store_cosine_search() {
    let mut store = InMemoryVectorStore::new();

    let vec_384 = make_normalized_vector(384, 0);
    let payload = CachePayload::new(
        "hash_exact".to_string(),
        "Tell me about Rust memory optimization".to_string(),
        "gpt-4o-mini".to_string(),
        vec!["data: {\"test\":1}\n\n".to_string()],
    );

    store.insert(payload.clone(), bits(&vec_384));
    assert_eq!(store.len(), 1);

    // 1. Exact match (cosine similarity = 1.0 >= 0.95)
    let hit = store.search(&bits(&vec_384), "no such hash", "gpt-4o-mini", threshold(), dot);
    assert!(hit.is_some());
    assert_eq!(hit.unwrap().prompt_hash, "hash_exact");

    // 2. High similarity vector (cosine ~0.99 >= 0.95)
    let mut close_vec = vec_384.clone();
    close_vec[0] = 0.995;
    close_vec[1] = 0.09987; // sqrt(0.995^2 + 0.09987^2) ~ 1.0 (dot product ~0.995)
    let hit_close = store.search(&bits(&close_vec), "no such hash", "gpt-4o-mini", threshold(), dot);
    assert!(hit_close.is_some());

    // 3. Low similarity vector (orthogonal: primary_idx 1, dot product = 0.0 < 0.95)
    let orthogonal_vec = make_normalized_vector(384, 1);
    let miss = store.search(&bits(&orthogonal_vec), "no such hash", "gpt-4o-mini", threshold(), dot);
    assert!(miss.is_none());

    // 4. Different model name should not match even if vector is identical
    let diff_model = store.search(&bits(&vec_384), "no such hash", "gpt-4o", threshold(), dot);
    assert!(diff_model.is_none());
}

#[test]
fn test_in_memory_vector_store_deduplication() {
    let mut store = InMemoryVectorStore::new();
    let vec_384 = make_normalized_vector(384, 0);

    let payload1 = CachePayload::new(
        "dup_hash".to_string(),
        "Hello duplicate".to_string(),
        "gpt-4o-mini".to_string(),
        vec!["chunk1".to_string()],
    );
    let payload2 = CachePayload::new(
        "dup_hash".to_string(),
        "Hello duplicate".to_string(),
        "gpt-4o-mini".to_string(),
        vec!["chunk2".to_string()],
    );

    store.insert(payload1, bits(&vec_384));
    assert_eq!(store.len(), 1);

    // Second insert with same prompt_hash must be deduplicated
    store.insert(payload2, bits(&vec_384));
    assert_eq!(store.len(), 1);
    let kept = store.search(&bits(&vec_384), "no such hash", "gpt-4o-mini", threshold(), dot).unwrap();
    assert_eq!(kept.sse_chunks, vec!["chunk1"]);
}

#[test]
fn full_store_evicts_the_oldest_entry() {
    let mut store = InMemoryVectorStore::new();
    assert!(store.is_empty());
    for i in 0..MAX_CACHE_ENTRIES {
        store.insert(entry(&format!("hash {}", i), "m"), vec![(i as u32) + 1]);
    }
    assert_eq!(store.len(), 10_000);
    store.insert(entry("new", "m"), vec![0]);
    assert_eq!(store.len(), 10_000);
    assert!(!store.is_empty());
    let same = |a: &[u32], b: &[u32]| if a == b { 1.0f32.to_bits() } else { 0.0f32.to_bits() };
    assert!(store.search(&[1], "no such hash", "m", threshold(), same).is_none());
    assert_eq!(store.search(&[2], "no such hash", "m", threshold(), same).unwrap().prompt_hash, "hash 1");
    assert_eq!(store.search(&[0], "no such hash", "m", threshold(), same).unwrap().prompt_hash, "new");
    // The digest of the entry that left is free again.
    store.insert(entry("hash 0", "m"), vec![77_777]);
    assert_eq!(store.search(&[77_777], "no such hash", "m", threshold(), same).unwrap().prompt_hash, "hash 0");
    assert!(store.search(&[2], "no such hash", "m", threshold(), same).is_none());
}

#[test]
fn search_takes_the_highest_score_and_then_the_oldest() {
    let mut store = InMemoryVectorStore::new();
    store.insert(entry("low", "m"), vec![0.96f32.to_bits()]);
    store.insert(entry("other model", "n"), vec![1.0f32.to_bits()]);
    store.insert(entry("high", "m"), vec![0.99f32.to_bits()]);
    store.insert(entry("high again", "m"), vec![0.99f32.to_bits()]);
    store.insert(entry("no number", "m"), vec![f32::NAN.to_bits()]);
    let stored = |_: &[u32], b: &[u32]| b[0];
    assert_eq!(store.search(&[], "no such hash", "m", threshold(), stored).unwrap().prompt_hash, "high");
    assert_eq!(
        store.search(&[], "no such hash", "m", 0.99f32.to_bits(), stored).unwrap().prompt_hash,
        "high"
    );
    assert!(store.search(&[], "no such hash", "m", 0.991f32.to_bits(), stored).is_none());
    assert!(store.search(&[], "no such hash", "m", f32::NAN.to_bits(), stored).is_none());
    assert_eq!(store.search(&[], "no such hash", "n", threshold(), stored).unwrap().prompt_hash, "other model");
}

#[test]
fn one_prompt_for_a_second_model_is_not_stored() {
    let mut store = InMemoryVectorStore::new();
    store.insert(entry("hash", "m"), vec![7]);
    store.insert(entry("hash", "n"), vec![7]);
    assert_eq!(store.len(), 1);
    let all = |_: &[u32], _: &[u32]| 1.0f32.to_bits();
    assert!(store.search(&[7], "no such hash", "n", threshold(), all).is_none());
    assert!(store.search(&[7], "no such hash", "m", threshold(), all).is_some());
}

#[test]
fn stored_digest_is_found_whatever_the_similarity() {
    let mut store = InMemoryVectorStore::new();
    let zeros = vec![0.0f32.to_bits(); 384];
    store.insert(entry("first", "m"), zeros.clone());
    store.insert(entry("second", "m"), zeros.clone());
    store.insert(entry("third", "n"), zeros.clone());
    assert_eq!(store.find_exact("second", "m").unwrap().prompt_hash, "second");
    assert!(store.find_exact("second", "n").is_none());
    assert!(store.find_exact("fourth", "m").is_none());
    assert_eq!(store.search(&zeros, "second", "m", threshold(), dot).unwrap().prompt_hash, "second");
    assert_eq!(store.search(&zeros, "third", "n", threshold(), dot).unwrap().prompt_hash, "third");
    assert!(store.search(&zeros, "third", "m", threshold(), dot).is_none());
    assert!(store.search(&zeros, "fourth", "m", threshold(), dot).is_none());
    // A similar answer comes before the exact one.
    let all = |_: &[u32], _: &[u32]| 1.0f32.to_bits();
    assert_eq!(store.search(&zeros, "second", "m", threshold(), all).unwrap().prompt_hash, "first");
}

#[test]
fn stored_answer_stays_while_fewer_come_than_are_kept() {
    let mut store = InMemoryVectorStore::new();
    store.insert(entry("oldest", "m"), vec![]);
    store.insert(entry("kept", "m"), vec![]);
    for i in 0..MAX_CACHE_ENTRIES - 1 {
        store.insert(entry(&format!("hash {}", i), "m"), vec![]);
    }
    assert!(store.find_exact("kept", "m").is_some());
    assert!(store.find_exact("oldest", "m").is_none());
    store.insert(entry("one more", "m"), vec![]);
    assert!(store.find_exact("kept", "m").is_none());
}

#[test]
fn entry_leaves_after_those_before_it() {
    let mut store = InMemoryVectorStore::new();
    for i in 0..MAX_CACHE_ENTRIES {
        store.insert(entry(&format!("hash {}", i), "m"), vec![]);
    }
    // The store is full: an entry stays while no more new ones come than stand before it.
    for i in 0..3 {
        store.insert(entry(&format!("new {}", i), "m"), vec![]);
        store.insert(entry("hash 5", "m"), vec![]);
    }
    assert!(store.find_exact("hash 2", "m").is_none());
    assert!(store.find_exact("hash 3", "m").is_some());
    assert!(store.find_exact("hash 5", "m").is_some());
}
