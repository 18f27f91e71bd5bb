use llmis::config::LimitConfig;
use llmis::config::ModelConfig;
use llmis::model::ModelError;
use llmis::model::ModelManager;

fn limits() -> LimitConfig {
    LimitConfig { max_tokens: 512, max_concurrent: 2, queue_depth: 32 }
}

fn cfg(name: &str) -> ModelConfig {
    ModelConfig {
        name: name.to_string(),
        path: None,
        device: None,
        quantization: None,
        max_concurrent: None,
        backend: None,
        arch: None,
        context_length: None,
        server_url: None,
    }
}

#[test]
fn load_resolves_defaults() {
    let mut m = ModelManager::new(limits());
    let summary = m.load_model(cfg("alpha")).unwrap();
    assert_eq!(summary.name, "alpha");
    assert_eq!(summary.device, "cpu");
    assert_eq!(summary.backend, "llm");
    assert_eq!(summary.quantization, None);
    assert_eq!(summary.max_concurrent, 2);
    assert_eq!(m.model_count(), 1);
}

#[test]
fn load_keeps_explicit_values() {
    let mut m = ModelManager::new(limits());
    let mut c = cfg("beta");
    c.device = Some("gpu0".to_string());
    c.quantization = Some("q4".to_string());
    c.max_concurrent = Some(7);
    c.backend = Some("llama-server".to_string());
    let summary = m.load_model(c).unwrap();
    assert_eq!(summary.device, "gpu0");
    assert_eq!(summary.backend, "llama-server");
    assert_eq!(summary.quantization, Some("q4".to_string()));
    assert_eq!(summary.max_concurrent, 7);
}

#[test]
fn unsupported_backend_is_rejected() {
    let mut m = ModelManager::new(limits());
    let mut c = cfg("gamma");
    c.backend = Some("mystery".to_string());
    match m.load_model(c) {
        Err(ModelError::Backend(msg)) => {
            assert_eq!(msg, "unsupported backend 'mystery', use 'llama-server'");
        }
        other => panic!("expected a backend error, got {:?}", other.is_ok()),
    }
    assert_eq!(m.model_count(), 0);
}

#[test]
fn reload_replaces_old_handle() {
    let mut m = ModelManager::new(limits());
    m.load_model(cfg("alpha")).unwrap();
    let mut newer = cfg("alpha");
    newer.device = Some("gpu1".to_string());
    newer.max_concurrent = Some(5);
    m.load_model(newer).unwrap();
    let listing = m.list_models();
    let entries: Vec<_> = listing.iter().filter(|s| s.name == "alpha").collect();
    assert_eq!(entries.len(), 1);
    assert_eq!(entries[0].device, "gpu1");
    assert_eq!(entries[0].max_concurrent, 5);
    assert_eq!(m.model_count(), 1);
}

#[test]
fn unload_missing_name_fails_and_changes_nothing() {
    let mut m = ModelManager::new(limits());
    m.load_model(cfg("alpha")).unwrap();
    match m.unload_model("missing") {
        Err(ModelError::NotFound(name)) => assert_eq!(name, "missing"),
        _ => panic!("expected NotFound"),
    }
    let listing = m.list_models();
    assert_eq!(listing.len(), 1);
    assert_eq!(listing[0].name, "alpha");
}

#[test]
fn unload_removes_the_handle() {
    let mut m = ModelManager::new(limits());
    m.load_model(cfg("alpha")).unwrap();
    m.load_model(cfg("beta")).unwrap();
    m.unload_model("alpha").unwrap();
    let listing = m.list_models();
    assert_eq!(listing.len(), 1);
    assert_eq!(listing[0].name, "beta");
}

#[test]
fn admission_rejects_above_capacity_and_recovers() {
    let mut m = ModelManager::new(limits());
    let mut c = cfg("alpha");
    c.max_concurrent = Some(2);
    m.load_model(c).unwrap();
    let p1 = m.try_acquire("alpha").unwrap();
    let _p2 = m.try_acquire("alpha").unwrap();
    assert!(matches!(m.try_acquire("alpha"), Err(ModelError::Overloaded)));
    m.release(p1);
    let _p3 = m.try_acquire("alpha").unwrap();
    assert!(matches!(m.try_acquire("alpha"), Err(ModelError::Overloaded)));
}

#[test]
fn admission_unknown_model_is_not_found() {
    let mut m = ModelManager::new(limits());
    match m.try_acquire("ghost") {
        Err(ModelError::NotFound(name)) => assert_eq!(name, "ghost"),
        _ => panic!("expected NotFound"),
    }
}

#[test]
fn stale_permit_releases_nothing_after_replacement() {
    let mut m = ModelManager::new(limits());
    let mut c = cfg("alpha");
    c.max_concurrent = Some(1);
    m.load_model(c).unwrap();
    let stale = m.try_acquire("alpha").unwrap();
    let mut again = cfg("alpha");
    again.max_concurrent = Some(1);
    m.load_model(again).unwrap();
    let live = m.try_acquire("alpha").unwrap();
    m.release(stale);
    assert!(matches!(m.try_acquire("alpha"), Err(ModelError::Overloaded)));
    m.release(live);
    assert!(m.try_acquire("alpha").is_ok());
}

#[test]
fn zero_capacity_admits_nobody() {
    let mut m = ModelManager::new(limits());
    let mut c = cfg("alpha");
    c.max_concurrent = Some(0);
    m.load_model(c).unwrap();
    assert!(matches!(m.try_acquire("alpha"), Err(ModelError::Overloaded)));
}
