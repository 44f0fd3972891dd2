use infercache::config::{choose_backend, parse_port, split_origins, Config, Environment, VectorBackend};

fn unset() -> Environment {
    Environment {
        host: None,
        port: None,
        upstream_url: None,
        upstream_api_key: None,
        similarity_threshold: None,
        vector_backend: None,
        qdrant_url: None,
        qdrant_collection: None,
        model_id: None,
        cors_allowed_origins: None,
    }
}

#[test]
fn defaults_where_nothing_is_set() {
    let config = Config::from_env(unset());
    assert_eq!(config.host, "0.0.0.0");
    assert_eq!(config.port, 8080);
    assert_eq!(config.upstream_url, "https://api.openai.com/v1/chat/completions");
    assert_eq!(config.upstream_api_key, None);
    assert_eq!(f32::from_bits(config.similarity_threshold), 0.95);
    assert_eq!(config.vector_backend, VectorBackend::Memory);
    assert_eq!(config.qdrant_url, "http://localhost:6334");
    assert_eq!(config.qdrant_collection, "infercache");
    assert_eq!(config.model_id, "sentence-transformers/all-MiniLM-L6-v2");
    assert!(config.cors_allowed_origins.is_empty());
}

#[test]
fn settings_are_taken_over() {
    let config = Config::from_env(Environment {
        host: Some("127.0.0.1".to_string()),
        port: Some("9090".to_string()),
        upstream_url: Some("http://up".to_string()),
        upstream_api_key: Some("SECRET".to_string()),
        similarity_threshold: Some(0.5f32.to_bits()),
        vector_backend: Some("QdRant".to_string()),
        qdrant_url: Some("http://q".to_string()),
        qdrant_collection: Some("c".to_string()),
        model_id: Some("m".to_string()),
        cors_allowed_origins: Some("http://localhost:3000, ,https://a.b ,".to_string()),
    });
    assert_eq!(config.host, "127.0.0.1");
    assert_eq!(config.port, 9090);
    assert_eq!(config.upstream_url, "http://up");
    assert_eq!(config.upstream_api_key.as_deref(), Some("SECRET"));
    assert_eq!(config.similarity_threshold, 0.5f32.to_bits());
    assert_eq!(config.vector_backend, VectorBackend::Qdrant);
    assert_eq!(config.qdrant_url, "http://q");
    assert_eq!(config.qdrant_collection, "c");
    assert_eq!(config.model_id, "m");
    assert_eq!(config.cors_allowed_origins, vec!["http://localhost:3000", "https://a.b"]);
}

#[test]
fn ports_that_are_no_number_of_16_bits_fall_back() {
    for (text, port) in [
        ("0", 0),
        ("65535", 65535),
        ("65536", 8080),
        ("+81", 81),
        ("00082", 82),
        ("", 8080),
        ("+", 8080),
        ("-1", 8080),
        (" 80", 8080),
        ("8_0", 8080),
        ("80a", 8080),
        ("99999999999999999999", 8080),
    ] {
        let mut env = unset();
        env.port = Some(text.to_string());
        assert_eq!(Config::from_env(env).port, port, "{:?}", text);
    }
}

#[test]
fn backends_by_name() {
    for (name, backend) in [
        ("qdrant", VectorBackend::Qdrant),
        ("QDRANT", VectorBackend::Qdrant),
        ("memory", VectorBackend::Memory),
        ("qdrant ", VectorBackend::Memory),
        ("", VectorBackend::Memory),
        ("QDR\u{c4}NT", VectorBackend::Memory),
    ] {
        let mut env = unset();
        env.vector_backend = Some(name.to_string());
        assert_eq!(Config::from_env(env).vector_backend, backend, "{:?}", name);
    }
    assert_eq!(choose_backend("qdrant"), VectorBackend::Qdrant);
    assert_eq!(choose_backend("Qdrant"), VectorBackend::Memory);
}

#[test]
fn origins_are_trimmed_and_not_empty() {
    assert!(split_origins("").is_empty());
    assert!(split_origins(" , ,\t").is_empty());
    assert_eq!(split_origins(" a ,b,,  c d "), vec!["a", "b", "c d"]);
}

#[test]
fn ports_are_read_as_numbers_of_16_bits() {
    for text in [
        "", "+", "-", "0", "-0", "+0", "00080", "80", "+80", "++80", "-80", "8 0", " 80", "80 ", "65535",
        "65536", "0065535", "99999999999999999999", "6553a", "a", "0x50", "1.0", "\u{661}", "1_000", "655350a",
    ] {
        assert_eq!(parse_port(text), text.parse::<u16>().ok(), "{:?}", text);
    }
    for n in 0..70_000u32 {
        assert_eq!(parse_port(&n.to_string()), u16::try_from(n).ok());
    }
}
