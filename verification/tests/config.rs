use kline::config::KlineConfig;
use kline::error::{u64_to_string, KlineError};
use kline::responses::{KeysResponse, StatusResponse, ValueResponse};

#[test]
fn default_config_values() {
    let c = KlineConfig::default();
    assert_eq!(c.storage.data_dir, "./data");
    assert_eq!(c.storage.compaction_interval_secs, 60);
    assert_eq!(c.storage.max_log_size_mb, 100);
    assert_eq!(c.server.port, 3000);
    assert_eq!(c.server.bind_address, "127.0.0.1");
    assert_eq!(c.server.max_connections, 1000);
    assert_eq!(c.limits.max_key_size, 1024);
    assert_eq!(c.limits.max_value_size, 10_485_760);
    assert_eq!(c.limits.max_keys, 1_000_000);
    assert_eq!(c.ttl.cleanup_interval_secs, 30);
    assert_eq!(c.ttl.default_ttl_secs, None);
    assert_eq!(c.ttl.max_ttl_secs, 86400 * 365);
}

#[test]
fn load_without_file_or_overrides_is_default() {
    let c = KlineConfig::load(None, None, None, None);
    assert_eq!(c.server.port, 3000);
    assert_eq!(c.storage.data_dir, "./data");
    assert_eq!(c.server.bind_address, "127.0.0.1");
}

#[test]
fn load_applies_environment_overrides() {
    let c = KlineConfig::load(
        None,
        Some(8080),
        Some(String::from("/data")),
        Some(String::from("0.0.0.0")),
    );
    assert_eq!(c.server.port, 8080);
    assert_eq!(c.storage.data_dir, "/data");
    assert_eq!(c.server.bind_address, "0.0.0.0");
    assert_eq!(c.limits.max_key_size, 1024);
}

#[test]
fn load_prefers_file_config() {
    let mut file_config = KlineConfig::default();
    file_config.server.port = 4444;
    file_config.limits.max_keys = 7;
    let c = KlineConfig::load(Some(file_config), None, None, None);
    assert_eq!(c.server.port, 4444);
    assert_eq!(c.limits.max_keys, 7);
}

#[test]
fn load_overrides_beat_file_config() {
    let mut file_config = KlineConfig::default();
    file_config.server.port = 4444;
    let c = KlineConfig::load(Some(file_config), Some(5555), None, None);
    assert_eq!(c.server.port, 5555);
}

#[test]
fn apply_env_vars_changes_only_named_fields() {
    let mut c = KlineConfig::default();
    c.apply_env_vars(Some(9999), None, None);
    assert_eq!(c.server.port, 9999);
    assert_eq!(c.storage.data_dir, "./data");
    assert_eq!(c.server.bind_address, "127.0.0.1");
    c.apply_env_vars(None, Some(String::from("/tmp/kv")), None);
    assert_eq!(c.server.port, 9999);
    assert_eq!(c.storage.data_dir, "/tmp/kv");
}

#[test]
fn decimal_rendering() {
    assert_eq!(u64_to_string(0), "0");
    assert_eq!(u64_to_string(7), "7");
    assert_eq!(u64_to_string(10), "10");
    assert_eq!(u64_to_string(10_485_760), "10485760");
    assert_eq!(u64_to_string(u64::MAX), "18446744073709551615");
}

#[test]
fn error_messages() {
    assert_eq!(
        KlineError::KeyTooLarge { size: 2048, max: 1024 }.message(),
        "Key too large: 2048 bytes (max: 1024)"
    );
    assert_eq!(
        KlineError::ValueTooLarge { size: 11, max: 10 }.message(),
        "Value too large: 11 bytes (max: 10)"
    );
    assert_eq!(
        KlineError::DatabaseFull { current: 120, max: 120 }.message(),
        "Database full: 120/120 keys"
    );
    assert_eq!(
        KlineError::KeyNotFound { key: String::from("a") }.message(),
        "Key not found: a"
    );
    assert_eq!(KlineError::InvalidTtl { ttl: 90 }.message(), "Invalid TTL: 90 seconds");
    assert_eq!(
        KlineError::ConfigParse { reason: String::from("bad") }.message(),
        "Config parse error: bad"
    );
    assert_eq!(
        KlineError::ConfigSerialize { reason: String::from("bad") }.message(),
        "Config serialize error: bad"
    );
    assert_eq!(KlineError::Io(String::from("disk gone")).message(), "IO error: disk gone");
    assert_eq!(
        KlineError::Serialization(String::from("oops")).message(),
        "Serialization error: oops"
    );
    assert_eq!(
        KlineError::KeyExpired { key: String::from("k") }.message(),
        "Key expired: k"
    );
    assert_eq!(
        KlineError::InvalidKeyFormat.message(),
        "Invalid key format: must be valid UTF-8"
    );
    assert_eq!(KlineError::LockPoisoned.message(), "Lock poisoned");
}

#[test]
fn status_responses() {
    assert_eq!(StatusResponse::ok().status, "OK");
    assert_eq!(StatusResponse::deleted().status, "Deleted");
    assert_eq!(StatusResponse::error(String::from("boom")).status, "boom");
}

#[test]
fn value_responses() {
    let found = ValueResponse::found(String::from("k"), String::from("v"));
    assert_eq!(found.key, "k");
    assert_eq!(found.value, Some(String::from("v")));
    assert!(found.found);
    let missing = ValueResponse::not_found(String::from("k"));
    assert_eq!(missing.key, "k");
    assert_eq!(missing.value, None);
    assert!(!missing.found);
}

#[test]
fn keys_responses() {
    let r = KeysResponse::new(vec![String::from("a"), String::from("b")]);
    assert_eq!(r.count, 2);
    assert_eq!(r.keys, vec![String::from("a"), String::from("b")]);
    let e = KeysResponse::error("nope");
    assert_eq!(e.count, 0);
    assert_eq!(e.keys, vec![String::from("Error: nope")]);
}
