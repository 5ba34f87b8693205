use rusteze::api::{handle_get_key, handle_set_key};
use rusteze::configs::AppConfig;
use rusteze::memcache::MemCache;
use rusteze::requests::{GetKeyRequest, SetKeyRequest};

#[test]
fn set_key_answers_success_and_ttl() {
    let mut c = MemCache::new();
    let r = handle_set_key(
        &mut c,
        SetKeyRequest { key: "a".to_string(), value: "b".to_string(), ttl_seconds: Some(60) },
    );
    assert!(r.success);
    assert_eq!(r.time_to_live, Some(60));
    let g = handle_get_key(&mut c, &GetKeyRequest { key: "a".to_string() });
    assert_eq!(g.value, Some("b".to_string()));
}

#[test]
fn set_key_without_ttl() {
    let mut c = MemCache::new();
    let r = handle_set_key(
        &mut c,
        SetKeyRequest { key: "a".to_string(), value: "b".to_string(), ttl_seconds: None },
    );
    assert!(r.success);
    assert_eq!(r.time_to_live, None);
}

#[test]
fn get_missing_key() {
    let mut c = MemCache::new();
    let g = handle_get_key(&mut c, &GetKeyRequest { key: "nope".to_string() });
    assert_eq!(g.value, None);
}

#[test]
fn get_expired_key() {
    let mut c = MemCache::new();
    handle_set_key(
        &mut c,
        SetKeyRequest { key: "a".to_string(), value: "b".to_string(), ttl_seconds: Some(0) },
    );
    let g = handle_get_key(&mut c, &GetKeyRequest { key: "a".to_string() });
    assert_eq!(g.value, None);
}

#[test]
fn default_config() {
    let c = AppConfig::default();
    assert_eq!(c.host, "127.0.0.1");
    assert_eq!(c.port, 8080);
    assert_eq!(c.log_level, "info");
    assert_eq!(c.data_dir, "./data");
    assert_eq!(c.metrics_port, 9090);
    assert_eq!(c.snapshot_interval, 300);
}
