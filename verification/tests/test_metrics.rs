use infercache::endpoints::{health_body, stats_body};
use infercache::metrics::{
    all_metrics, init_metrics, record_cache_hit, record_cache_miss, record_coalesced,
    record_store_size, MemoryWatch, MetricKind, MetricUpdate, Registration,
};
use infercache::state::Metrics;

#[test]
fn nine_time_series_with_different_names() {
    let all = init_metrics(&mut Registration::new());
    assert_eq!(all.len(), 9);
    for i in 0..all.len() {
        for j in 0..i {
            assert_ne!(all[i].name, all[j].name);
        }
    }
    assert_eq!(all[0].name, "infercache_estimated_usd_saved_usd");
    assert!(matches!(all[0].kind, MetricKind::Gauge));
    assert!(matches!(&all[1].kind, MetricKind::LabelledCounter { label } if label == "status"));
    match &all[2].kind {
        MetricKind::Histogram { bounds } => {
            let seconds: Vec<f64> = bounds.iter().map(|b| *b as f64 / 1e6).collect();
            assert_eq!(seconds, vec![0.005, 0.01, 0.025, 0.05, 0.1, 0.25, 0.5, 1.0, 2.5]);
        }
        _ => panic!("the request duration is a histogram"),
    }
    assert!(matches!(&all[6].kind, MetricKind::LabelledCounter { label } if label == "model"));
    assert_eq!(all[8].help, "Total secure/encrypted cache payloads served");
    assert!(matches!(all[8].kind, MetricKind::Counter));
}

#[test]
fn series_register_with_prometheus() {
    let registry = prometheus::Registry::new();
    let mut registration = Registration::new();
    for _ in 0..3 {
        for definition in init_metrics(&mut registration) {
            let counter = prometheus::IntCounter::new(definition.name, definition.help).unwrap();
            counter.inc();
            registry.register(Box::new(counter)).unwrap();
        }
    }
    assert_eq!(registry.gather().len(), 9);
}

#[test]
fn series_are_registered_once() {
    let mut registration = Registration::new();
    let first: Vec<String> = init_metrics(&mut registration).into_iter().map(|d| d.name).collect();
    let all: Vec<String> = all_metrics().into_iter().map(|d| d.name).collect();
    assert_eq!(first, all);
    assert!(init_metrics(&mut registration).is_empty());
    assert!(init_metrics(&mut registration).is_empty());
}

#[test]
fn size_of_the_store_is_exported() {
    let updates = record_store_size(7);
    assert_eq!(updates.len(), 1);
    assert!(matches!(updates[0], MetricUpdate::VectorStoreSize { entries: 7 }));
    assert!(all_metrics().iter().any(|d| d.name == "infercache_vector_store_size"));
}

#[test]
fn what_each_outcome_adds() {
    let hit = record_cache_hit();
    assert_eq!(hit.len(), 4);
    assert!(matches!(&hit[0], MetricUpdate::CacheOperation { status } if status == "hit"));
    assert!(matches!(hit[1], MetricUpdate::RequestDuration));
    match hit[2] {
        MetricUpdate::UsdSaved { millionths } => assert_eq!(millionths as f64 / 1e6, 0.00035),
        _ => panic!("a hit saves money"),
    }
    assert!(matches!(hit[3], MetricUpdate::EncryptedPayloadServed));

    let miss = record_cache_miss();
    assert_eq!(miss.len(), 2);
    assert!(matches!(&miss[0], MetricUpdate::CacheOperation { status } if status == "miss"));
    assert!(matches!(miss[1], MetricUpdate::RequestDuration));

    let coalesced = record_coalesced("gpt-4o");
    assert_eq!(coalesced.len(), 4);
    assert!(matches!(&coalesced[0], MetricUpdate::CacheOperation { status } if status == "coalesced"));
    assert!(matches!(&coalesced[1], MetricUpdate::CoalescedRequest { model } if model == "gpt-4o"));
    assert!(matches!(coalesced[2], MetricUpdate::RequestDuration));
    assert!(matches!(coalesced[3], MetricUpdate::UsdSaved { millionths: 350 }));
}

#[test]
fn memory_is_read_at_most_every_two_seconds() {
    let mut watch = MemoryWatch::new();
    assert!(watch.is_due(0));
    // Where no reading came, the next one is due at once.
    assert!(watch.record(None, 100).is_empty());
    assert!(watch.is_due(100));
    let updates = watch.record(Some(4096), 1_000);
    assert_eq!(updates.len(), 1);
    assert!(matches!(updates[0], MetricUpdate::MemoryUsage { bytes: 4096 }));
    assert!(!watch.is_due(500));
    assert!(!watch.is_due(1_000));
    assert!(!watch.is_due(2_999));
    assert!(watch.is_due(3_000));
    assert!(watch.record(None, 5_000).is_empty());
    assert!(watch.is_due(5_000));
    watch.record(Some(1), 5_000);
    assert!(!watch.is_due(6_999));
}

#[test]
fn counters_count_and_wrap() {
    let mut metrics = Metrics::new();
    assert_eq!(metrics.hit_ratio(), None);
    metrics.count_request();
    metrics.count_request();
    metrics.count_hit();
    metrics.count_miss();
    metrics.count_coalesced();
    assert_eq!(metrics.total_requests, 2);
    assert_eq!(metrics.cache_hits, 1);
    assert_eq!(metrics.cache_misses, 1);
    assert_eq!(metrics.coalesced_requests, 1);
    assert_eq!(metrics.hit_ratio(), Some((1, 2)));
    metrics.cache_hits = u64::MAX;
    metrics.count_hit();
    assert_eq!(metrics.cache_hits, 0);
}

#[test]
fn bodies_of_the_endpoints() {
    let health = health_body("0.1.0", 1);
    let expected: serde_json::Value = serde_json::from_str(
        "{\"status\":\"healthy\",\"service\":\"infercache\",\"version\":\"0.1.0\",\
         \"cached_embeddings_count\":1,\"target_ram_budget\":\"< 300MB\"}",
    )
    .unwrap();
    assert_eq!(health, expected);

    let metrics = Metrics {
        total_requests: 2,
        cache_hits: 1,
        cache_misses: 1,
        coalesced_requests: 0,
    };
    let stats = stats_body(&metrics, "50.00%", 7);
    let expected: serde_json::Value = serde_json::from_str(
        "{\"total_requests\":2,\"cache_hits\":1,\"cache_misses\":1,\"coalesced_requests\":0,\
         \"cache_hit_rate_pct\":\"50.00%\",\"cached_vectors_in_store\":7}",
    )
    .unwrap();
    assert_eq!(stats, expected);
    let full = Metrics { total_requests: u64::MAX, cache_hits: 0, cache_misses: 0, coalesced_requests: 0 };
    assert_eq!(stats_body(&full, "", 0)["total_requests"], u64::MAX);
}
