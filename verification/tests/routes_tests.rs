use llmis::config::LimitConfig;
use llmis::config::SafetyConfig;
use llmis::model::ModelError;
use llmis::model::TokenEvent;
use llmis::routes::aggregate_events;
use llmis::routes::build_params;
use llmis::routes::build_prompt;
use llmis::routes::default_stream;
use llmis::routes::delta_for_event;
use llmis::routes::enforce_prompt_safety;
use llmis::routes::enforce_safety;
use llmis::routes::initial_delta;
use llmis::routes::ApiError;
use llmis::routes::ChatMessage;

fn limits() -> LimitConfig {
    LimitConfig { max_tokens: 512, max_concurrent: 2, queue_depth: 32 }
}

fn msg(role: &str, content: &str) -> ChatMessage {
    ChatMessage { role: role.to_string(), content: content.to_string() }
}

#[test]
fn prompt_joins_role_and_content_lines() {
    let messages = vec![msg("system", "be brief"), msg("user", "hi")];
    assert_eq!(build_prompt(&messages), "system: be brief\nuser: hi");
}

#[test]
fn prompt_of_no_messages_is_empty() {
    assert_eq!(build_prompt(&Vec::new()), "");
}

#[test]
fn safety_rejects_case_insensitively() {
    let safety = SafetyConfig { denylist: vec!["BaD".to_string()] };
    match enforce_prompt_safety(&safety, "this is bAd stuff") {
        Err(ApiError::Safety(m)) => {
            assert_eq!(m, "prompt rejected due to safety denylist: BaD");
        }
        _ => panic!("expected a safety rejection"),
    }
}

#[test]
fn safety_accepts_a_clean_prompt() {
    let safety = SafetyConfig { denylist: vec!["bad".to_string(), "worse".to_string()] };
    assert!(enforce_prompt_safety(&safety, "all good here").is_ok());
}

#[test]
fn safety_reports_the_first_matching_term() {
    let safety = SafetyConfig {
        denylist: vec!["absent".to_string(), "two".to_string(), "one".to_string()],
    };
    match enforce_prompt_safety(&safety, "one and two") {
        Err(ApiError::Safety(m)) => {
            assert_eq!(m, "prompt rejected due to safety denylist: two");
        }
        _ => panic!("expected a safety rejection"),
    }
}

#[test]
fn safety_scans_joined_message_contents() {
    let safety = SafetyConfig { denylist: vec!["forbidden".to_string()] };
    let messages = vec![msg("user", "harmless"), msg("user", "quite FORBIDDEN")];
    assert!(enforce_safety(&safety, &messages).is_err());
    let clean = vec![msg("user", "harmless")];
    assert!(enforce_safety(&safety, &clean).is_ok());
}

#[test]
fn params_use_the_default_budget_when_absent() {
    let p = build_params(&limits(), "p".to_string(), &None, &None);
    assert_eq!(p.max_tokens, 512);
    assert_eq!(p.prompt, "p");
    assert!(p.stop.is_none());
}

#[test]
fn params_keep_a_budget_under_the_ceiling() {
    let p = build_params(&limits(), "p".to_string(), &Some(100), &None);
    assert_eq!(p.max_tokens, 100);
}

#[test]
fn params_cap_a_budget_over_the_ceiling() {
    let p = build_params(&limits(), "p".to_string(), &Some(9999), &None);
    assert_eq!(p.max_tokens, 512);
}

#[test]
fn params_copy_stop_sequences() {
    let stop = Some(vec!["###".to_string(), "END".to_string()]);
    let p = build_params(&limits(), "p".to_string(), &None, &stop);
    assert_eq!(p.stop, stop);
}

#[test]
fn streaming_is_the_default_mode() {
    assert!(default_stream());
}

#[test]
fn load_request_becomes_its_config() {
    let request = llmis::routes::LoadModelRequest {
        name: "m".to_string(),
        path: None,
        device: Some("cpu".to_string()),
        quantization: None,
        max_concurrent: Some(4),
        backend: Some("llm".to_string()),
        arch: None,
        context_length: Some(1024),
        server_url: Some("http://localhost:1234".to_string()),
    };
    let cfg = request.into_config();
    assert_eq!(cfg.name, "m");
    assert_eq!(cfg.device, Some("cpu".to_string()));
    assert_eq!(cfg.max_concurrent, Some(4));
    assert_eq!(cfg.backend, Some("llm".to_string()));
    assert_eq!(cfg.context_length, Some(1024));
    assert_eq!(cfg.server_url, Some("http://localhost:1234".to_string()));
    let unload = llmis::routes::UnloadModelRequest { name: "m".to_string() };
    assert_eq!(unload.name, "m");
}

#[test]
fn api_error_mapping_and_statuses() {
    let e = ApiError::from(ModelError::NotFound("m".to_string()));
    assert!(matches!(&e, ApiError::NotFound(n) if n == "m"));
    assert_eq!(e.status_code(), 404);
    let e = ApiError::from(ModelError::Overloaded);
    assert!(matches!(e, ApiError::Overloaded));
    assert_eq!(e.status_code(), 429);
    assert_eq!(e.message(), "model is at capacity, retry later");
    let e = ApiError::from(ModelError::Backend("boom".to_string()));
    assert!(matches!(&e, ApiError::Internal(m) if m == "boom"));
    assert_eq!(e.status_code(), 500);
    assert_eq!(ApiError::Safety("no".to_string()).status_code(), 403);
}

#[test]
fn initial_chunk_carries_only_the_role() {
    let d = initial_delta();
    assert_eq!(d.index, 0);
    assert_eq!(d.delta.role, Some("assistant".to_string()));
    assert!(d.delta.content.is_none());
    assert!(d.finish_reason.is_none());
}

#[test]
fn event_chunks_carry_text_and_finish() {
    let d = delta_for_event(&TokenEvent { token: "word".to_string(), finished: false });
    assert_eq!(d.delta.content, Some("word".to_string()));
    assert!(d.finish_reason.is_none());
    let d = delta_for_event(&TokenEvent { token: String::new(), finished: true });
    assert!(d.delta.content.is_none());
    assert_eq!(d.finish_reason, Some("stop".to_string()));
}

#[test]
fn aggregate_concatenates_until_finished() {
    let events = vec![
        TokenEvent { token: "Hel".to_string(), finished: false },
        TokenEvent { token: "lo".to_string(), finished: false },
        TokenEvent { token: String::new(), finished: true },
    ];
    let (content, count) = aggregate_events(&events);
    assert_eq!(content, "Hello");
    assert_eq!(count, 3);
}

#[test]
fn aggregate_excludes_the_finished_events_text() {
    let events = vec![
        TokenEvent { token: "a".to_string(), finished: false },
        TokenEvent { token: "tail".to_string(), finished: true },
        TokenEvent { token: "ignored".to_string(), finished: false },
    ];
    let (content, count) = aggregate_events(&events);
    assert_eq!(content, "a");
    assert_eq!(count, 2);
}

#[test]
fn aggregate_of_an_unterminated_sequence_takes_everything() {
    let events = vec![
        TokenEvent { token: "x".to_string(), finished: false },
        TokenEvent { token: "y".to_string(), finished: false },
    ];
    let (content, count) = aggregate_events(&events);
    assert_eq!(content, "xy");
    assert_eq!(count, 2);
}

#[test]
fn aggregate_of_nothing_is_empty() {
    let (content, count) = aggregate_events(&Vec::new());
    assert_eq!(content, "");
    assert_eq!(count, 0);
}
