//! The bodies of the endpoints that tell how the proxy is.
use crate::json;
use crate::state::Metrics;
use vstd::prelude::*;

verus! {

/// What the health endpoint says.
pub open spec fn health_json(version: Seq<char>, cached_items: int) -> json::Json {
    json::Json::Record(
        map![
            "status"@ => json::Json::Text("healthy"@),
            "service"@ => json::Json::Text("infercache"@),
            "version"@ => json::Json::Text(version),
            "cached_embeddings_count"@ => json::Json::Int(cached_items),
            "target_ram_budget"@ => json::Json::Text("< 300MB"@),
        ],
    )
}

/// What the statistics endpoint says.
pub open spec fn stats_json(
    metrics: Metrics,
    hit_rate_pct: Seq<char>,
    cached_items: int,
) -> json::Json {
    json::Json::Record(
        map![
            "total_requests"@ => json::Json::Int(metrics.total_requests as int),
            "cache_hits"@ => json::Json::Int(metrics.cache_hits as int),
            "cache_misses"@ => json::Json::Int(metrics.cache_misses as int),
            "coalesced_requests"@ => json::Json::Int(metrics.coalesced_requests as int),
            "cache_hit_rate_pct"@ => json::Json::Text(hit_rate_pct),
            "cached_vectors_in_store"@ => json::Json::Int(cached_items),
        ],
    )
}

/// The body of the health endpoint.
pub fn health_body(version: &str, cached_items: usize) -> (r: serde_json::Value)
    ensures
        json::contents(r) == health_json(version@, cached_items as int),
{
    let mut body = json::empty_record();
    json::put_text(&mut body, "status", "healthy");
    json::put_text(&mut body, "service", "infercache");
    json::put_text(&mut body, "version", version);
    json::put(&mut body, "cached_embeddings_count", json::of_u64(cached_items as u64));
    json::put_text(&mut body, "target_ram_budget", "< 300MB");
    json::of_record(body)
}

/// The body of the statistics endpoint. The hit rate comes as text.
pub fn stats_body(metrics: &Metrics, hit_rate_pct: &str, cached_items: usize) -> (r:
    serde_json::Value)
    ensures
        json::contents(r) == stats_json(*metrics, hit_rate_pct@, cached_items as int),
{
    let mut body = json::empty_record();
    json::put(&mut body, "total_requests", json::of_u64(metrics.total_requests));
    json::put(&mut body, "cache_hits", json::of_u64(metrics.cache_hits));
    json::put(&mut body, "cache_misses", json::of_u64(metrics.cache_misses));
    json::put(&mut body, "coalesced_requests", json::of_u64(metrics.coalesced_requests));
    json::put_text(&mut body, "cache_hit_rate_pct", hit_rate_pct);
    json::put(&mut body, "cached_vectors_in_store", json::of_u64(cached_items as u64));
    json::of_record(body)
}

/// The health endpoint says just this, with the version and the number of stored answers.
pub proof fn law_health_entries(version: Seq<char>, cached_items: int)
    ensures
        ({
            let body = health_json(version, cached_items);
            &&& body is Record && body->Record_0.dom() =~= set![
                "status"@,
                "service"@,
                "version"@,
                "cached_embeddings_count"@,
                "target_ram_budget"@,
            ]
            &&& body.field("status"@) == Some(json::Json::Text("healthy"@))
            &&& body.field("service"@) == Some(json::Json::Text("infercache"@))
            &&& body.field("version"@) == Some(json::Json::Text(version))
            &&& body.field("cached_embeddings_count"@) == Some(json::Json::Int(cached_items))
            &&& body.field("target_ram_budget"@) == Some(json::Json::Text("< 300MB"@))
        }),
{
    reveal_strlit("status");
    reveal_strlit("service");
    reveal_strlit("version");
    reveal_strlit("cached_embeddings_count");
    reveal_strlit("target_ram_budget");
    assert("status"@.len() == 6 && "service"@.len() == 7 && "version"@.len() == 7
        && "cached_embeddings_count"@.len() == 23 && "target_ram_budget"@.len() == 17);
    assert("service"@[0] != "version"@[0]);
    assert(health_json(version, cached_items)->Record_0.dom() =~= set![
        "status"@,
        "service"@,
        "version"@,
        "cached_embeddings_count"@,
        "target_ram_budget"@,
    ]);
}

/// The statistics endpoint says just this: each counter under its name, the hit rate as it was
/// given, and the number of stored answers.
pub proof fn law_stats_entries(metrics: Metrics, hit_rate_pct: Seq<char>, cached_items: int)
    ensures
        ({
            let body = stats_json(metrics, hit_rate_pct, cached_items);
            &&& body is Record && body->Record_0.dom() =~= set![
                "total_requests"@,
                "cache_hits"@,
                "cache_misses"@,
                "coalesced_requests"@,
                "cache_hit_rate_pct"@,
                "cached_vectors_in_store"@,
            ]
            &&& body.field("total_requests"@) == Some(
                json::Json::Int(metrics.total_requests as int),
            )
            &&& body.field("cache_hits"@) == Some(json::Json::Int(metrics.cache_hits as int))
            &&& body.field("cache_misses"@) == Some(json::Json::Int(metrics.cache_misses as int))
            &&& body.field("coalesced_requests"@) == Some(
                json::Json::Int(metrics.coalesced_requests as int),
            )
            &&& body.field("cache_hit_rate_pct"@) == Some(json::Json::Text(hit_rate_pct))
            &&& body.field("cached_vectors_in_store"@) == Some(json::Json::Int(cached_items))
        }),
{
    reveal_strlit("total_requests");
    reveal_strlit("cache_hits");
    reveal_strlit("cache_misses");
    reveal_strlit("coalesced_requests");
    reveal_strlit("cache_hit_rate_pct");
    reveal_strlit("cached_vectors_in_store");
    assert("total_requests"@.len() == 14 && "cache_hits"@.len() == 10 && "cache_misses"@.len() == 12
        && "coalesced_requests"@.len() == 18 && "cache_hit_rate_pct"@.len() == 18
        && "cached_vectors_in_store"@.len() == 23);
    assert("coalesced_requests"@[1] != "cache_hit_rate_pct"@[1]);
    assert(stats_json(metrics, hit_rate_pct, cached_items)->Record_0.dom() =~= set![
        "total_requests"@,
        "cache_hits"@,
        "cache_misses"@,
        "coalesced_requests"@,
        "cache_hit_rate_pct"@,
        "cached_vectors_in_store"@,
    ]);
}

}
