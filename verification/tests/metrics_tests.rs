use llmis::config::AppConfig;
use llmis::config::LimitConfig;
use llmis::config::ServerConfig;
use llmis::metrics::Metrics;

#[test]
fn counters_start_at_zero() {
    let m = Metrics::default();
    assert_eq!(m.snapshot(), (0, 0, 0, 0));
}

#[test]
fn request_and_token_counters_accumulate() {
    let mut m = Metrics::default();
    m.inc_request();
    m.inc_request();
    m.add_tokens(5);
    m.add_tokens(2);
    m.set_models_loaded(3);
    assert_eq!(m.snapshot(), (2, 7, 0, 3));
}

#[test]
fn inflight_gauge_follows_its_guards() {
    let mut m = Metrics::default();
    let g1 = m.guard();
    let g2 = m.guard();
    assert_eq!(m.snapshot().2, 2);
    m.release_guard(g1);
    assert_eq!(m.snapshot().2, 1);
    m.release_guard(g2);
    assert_eq!(m.snapshot().2, 0);
}

#[test]
fn rendered_text_reports_every_counter() {
    let mut m = Metrics::default();
    m.inc_request();
    m.add_tokens(42);
    m.set_models_loaded(1);
    let expected = "# HELP llmis_requests_total Total HTTP requests handled\n\
                    # TYPE llmis_requests_total counter\n\
                    llmis_requests_total 1\n\
                    # HELP llmis_tokens_total Tokens emitted by generators\n\
                    # TYPE llmis_tokens_total counter\n\
                    llmis_tokens_total 42\n\
                    # HELP llmis_active_requests Active requests in flight\n\
                    # TYPE llmis_active_requests gauge\n\
                    llmis_active_requests 0\n\
                    # HELP llmis_models_loaded Models currently registered\n\
                    # TYPE llmis_models_loaded gauge\n\
                    llmis_models_loaded 1\n";
    assert_eq!(m.render_prometheus(), expected);
}

#[test]
fn multi_digit_counters_render_in_decimal() {
    let mut m = Metrics::default();
    m.add_tokens(120534);
    assert!(m.render_prometheus().contains("llmis_tokens_total 120534\n"));
}

#[test]
fn config_defaults_match_the_documented_values() {
    let c = AppConfig::default();
    assert_eq!(c.server.host, "0.0.0.0");
    assert_eq!(c.server.port, 8080);
    assert!(c.server.enable_ui);
    assert!(c.models.is_empty());
    assert_eq!(c.limits.max_tokens, 512);
    assert_eq!(c.limits.max_concurrent, 2);
    assert_eq!(c.limits.queue_depth, 32);
    assert!(c.safety.denylist.is_empty());
    assert!(ServerConfig::default_ui());
    assert_eq!(LimitConfig::default_max_tokens(), 512);
    assert_eq!(LimitConfig::default_max_concurrent(), 2);
    assert_eq!(LimitConfig::default_queue_depth(), 32);
}
