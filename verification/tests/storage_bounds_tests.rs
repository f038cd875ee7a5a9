use tcfs::storage_bounds::{
    bounds_from_env, bounds_from_json, bounds_from_json_and_env, json_bool, json_u64, json_usize, parse_bool,
    parse_u64, parse_u64_allow_zero, s3_credentials_from_json, JsonNumber, JsonObject, JsonValue, StorageTransportBounds, TransportSettings,
};

fn obj(members: Vec<(&str, JsonValue)>) -> JsonObject {
    JsonObject { members: members.into_iter().map(|(k, v)| (k.to_string(), v)).collect() }
}

fn s(v: &str) -> JsonValue {
    JsonValue::String(v.to_string())
}

fn n(v: u64) -> JsonValue {
    JsonValue::Number(JsonNumber::PosInt(v))
}

#[test]
fn parses_storage_bounds_from_json() {
    let config = obj(vec![
        ("allow_insecure_http", JsonValue::Bool(false)),
        ("max_concurrent_ops", s("7")),
        ("s3_connect_timeout_secs", n(5)),
        ("s3_pool_idle_timeout_secs", s("13")),
        ("s3_pool_max_idle_per_host", n(3)),
        ("s3_http1_only", s("true")),
    ]);
    assert_eq!(
        bounds_from_json(&config),
        StorageTransportBounds {
            allow_insecure_http: Some(false),
            max_concurrent_ops: Some(7),
            s3_connect_timeout_secs: Some(5),
            s3_pool_idle_timeout_secs: Some(13),
            s3_pool_max_idle_per_host: Some(3),
            s3_http1_only: Some(true),
        }
    );
}

#[test]
fn json_bounds_accept_storage_prefixed_keys_and_explicit_false() {
    let config = obj(vec![
        ("storage_allow_insecure_http", JsonValue::Bool(true)),
        ("storage_max_concurrent_ops", n(4)),
        ("storage_s3_connect_timeout_secs", s("6")),
        ("storage_s3_pool_idle_timeout_secs", s("0")),
        ("storage_s3_pool_max_idle_per_host", s("9")),
        ("storage_s3_http1_only", JsonValue::Bool(false)),
    ]);
    assert_eq!(
        bounds_from_json(&config),
        StorageTransportBounds {
            allow_insecure_http: Some(true),
            max_concurrent_ops: Some(4),
            s3_connect_timeout_secs: Some(6),
            s3_pool_idle_timeout_secs: Some(0),
            s3_pool_max_idle_per_host: Some(9),
            s3_http1_only: Some(false),
        }
    );
}

#[test]
fn json_falls_back_to_prefixed_key_when_plain_is_unusable() {
    let config = obj(vec![
        ("max_concurrent_ops", s("lots")),
        ("storage_max_concurrent_ops", n(2)),
        ("s3_http1_only", JsonValue::Null),
        ("storage_s3_http1_only", n(0)),
        ("allow_insecure_http", n(5)),
        ("s3_connect_timeout_secs", JsonValue::Number(JsonNumber::NegInt(-3))),
        ("s3_pool_idle_timeout_secs", JsonValue::Number(JsonNumber::Float)),
    ]);
    let b = bounds_from_json(&config);
    assert_eq!(b.max_concurrent_ops, Some(2));
    assert_eq!(b.s3_http1_only, Some(false));
    assert_eq!(b.allow_insecure_http, Some(true));
    assert_eq!(b.s3_connect_timeout_secs, None);
    assert_eq!(b.s3_pool_idle_timeout_secs, None);
    assert_eq!(b.s3_pool_max_idle_per_host, None);
}

#[test]
fn json_lookups() {
    let config = obj(vec![("a", s(" 12 ")), ("b", JsonValue::Array(vec![])), ("c", s("Yes"))]);
    assert_eq!(json_u64(&config, &["a"]), Some(12));
    assert_eq!(json_u64(&config, &["b", "a"]), Some(12));
    assert_eq!(json_u64(&config, &["zz"]), None);
    assert_eq!(json_usize(&config, &["a"]), Some(12));
    assert_eq!(json_bool(&config, &["c"]), Some(true));
    assert_eq!(json_bool(&config, &["a"]), None);
}

#[test]
fn scalar_parsers() {
    assert_eq!(parse_u64(" 42 "), Some(42));
    assert_eq!(parse_u64("0"), None);
    assert_eq!(parse_u64("+7"), Some(7));
    assert_eq!(parse_u64("-1"), None);
    assert_eq!(parse_u64("18446744073709551616"), None);
    assert_eq!(parse_u64_allow_zero("\t0\n"), Some(0));
    assert_eq!(parse_u64_allow_zero(""), None);
    for w in ["1", "true", "YES", " On "] {
        assert_eq!(parse_bool(w), Some(true), "{w}");
    }
    for w in ["0", "False", "no", "OFF"] {
        assert_eq!(parse_bool(w), Some(false), "{w}");
    }
    assert_eq!(parse_bool("maybe"), None);
}

#[test]
fn env_bounds_and_precedence() {
    let env = vec![
        ("TCFS_STORAGE_ALLOW_INSECURE_HTTP".to_string(), "on".to_string()),
        ("TCFS_STORAGE_MAX_CONCURRENT_OPS".to_string(), "0".to_string()),
        ("TCFS_STORAGE_S3_CONNECT_TIMEOUT_SECS".to_string(), "30".to_string()),
        ("TCFS_STORAGE_S3_HTTP1_ONLY".to_string(), "x".to_string()),
    ];
    let from_env = bounds_from_env(&env);
    assert_eq!(from_env.allow_insecure_http, Some(true));
    assert_eq!(from_env.max_concurrent_ops, None);
    assert_eq!(from_env.s3_connect_timeout_secs, Some(30));
    assert_eq!(from_env.s3_http1_only, None);
    let config = obj(vec![("allow_insecure_http", JsonValue::Bool(false))]);
    let merged = bounds_from_json_and_env(&config, &env);
    assert_eq!(merged.allow_insecure_http, Some(false));
    assert_eq!(merged.s3_connect_timeout_secs, Some(30));
    assert_eq!(merged.max_concurrent_ops(), 0);
}

#[test]
fn apply_overrides_only_set_bounds() {
    let mut settings = TransportSettings {
        allow_insecure_http: false,
        s3_connect_timeout_secs: 10,
        s3_pool_idle_timeout_secs: 90,
        s3_pool_max_idle_per_host: 8,
        s3_http1_only: false,
    };
    let mut bounds = StorageTransportBounds::none();
    bounds.s3_connect_timeout_secs = Some(3);
    bounds.s3_http1_only = Some(true);
    bounds.apply_to_storage_config(&mut settings);
    assert_eq!(
        settings,
        TransportSettings {
            allow_insecure_http: false,
            s3_connect_timeout_secs: 3,
            s3_pool_idle_timeout_secs: 90,
            s3_pool_max_idle_per_host: 8,
            s3_http1_only: true,
        }
    );
}

#[test]
fn credentials_default_bucket_and_require_keys() {
    let config = obj(vec![
        ("s3_endpoint", s("http://localhost:8333")),
        ("s3_access", s("test-access")),
        ("s3_secret", s("test-secret")),
    ]);
    let c = s3_credentials_from_json(&config).expect("complete credentials");
    assert_eq!(c.endpoint, "http://localhost:8333");
    assert_eq!(c.bucket, "tcfs");
    assert_eq!(c.access_key_id, "test-access");
    assert_eq!(c.secret_access_key, "test-secret");

    let with_bucket = obj(vec![
        ("s3_endpoint", s("https://s3.example")),
        ("s3_bucket", s("data")),
        ("s3_access", s("a")),
        ("s3_secret", s("b")),
    ]);
    assert_eq!(s3_credentials_from_json(&with_bucket).expect("complete").bucket, "data");

    let no_secret = obj(vec![("s3_endpoint", s("https://s3.example")), ("s3_access", s("a")), ("s3_secret", s(""))]);
    assert!(s3_credentials_from_json(&no_secret).is_none());
    let numeric_endpoint = obj(vec![("s3_endpoint", n(1)), ("s3_access", s("a")), ("s3_secret", s("b"))]);
    assert!(s3_credentials_from_json(&numeric_endpoint).is_none());
}
