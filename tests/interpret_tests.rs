use tt::config::ProviderKind;
use tt::interpret::{interpret_sse_event, parse_anthropic_payload, parse_openai_payload};
use tt::sse::SseEvent;

#[test]
fn interpret_skips_ping_and_done_events() {
    let ping = SseEvent {
        event: Some("ping".into()),
        data: String::new(),
    };
    assert!(interpret_sse_event(ProviderKind::Anthropic, ping).is_none());

    let done = SseEvent {
        event: None,
        data: "[DONE]".into(),
    };
    assert!(interpret_sse_event(ProviderKind::OpenAi, done).is_none());
}

#[test]
fn interpret_emits_openai_and_anthropic_payloads() {
    let openai_event = SseEvent {
        event: None,
        data: r#"{"choices":[{"delta":{"content":"hi"}}]}"#.into(),
    };
    let result =
        interpret_sse_event(ProviderKind::OpenAi, openai_event).expect("openai event success");
    assert_eq!(result.unwrap(), "hi");

    let anthropic_event = SseEvent {
        event: None,
        data: r#"{"type":"content_block_delta","index":0,"delta":{"type":"text_delta","text":"ok"}}"#
            .into(),
    };
    let result =
        interpret_sse_event(ProviderKind::Anthropic, anthropic_event).expect("anthropic delta");
    assert_eq!(result.unwrap(), "ok");
}

#[test]
fn ping_yields_nothing_in_every_dialect() {
    for p in [
        ProviderKind::Anthropic,
        ProviderKind::OpenAi,
        ProviderKind::OpenRouter,
        ProviderKind::LmStudio,
    ] {
        let ev = SseEvent {
            event: Some("ping".into()),
            data: r#"{"choices":[{"delta":{"content":"hi"}}]}"#.into(),
        };
        assert!(interpret_sse_event(p, ev).is_none());
    }
}

#[test]
fn done_sentinel_and_blank_data_yield_nothing() {
    for p in [ProviderKind::Anthropic, ProviderKind::OpenRouter] {
        let ev = SseEvent { event: None, data: "  [DONE] \n".into() };
        assert!(interpret_sse_event(p, ev).is_none());
        let ev = SseEvent { event: Some("message".into()), data: " \n ".into() };
        assert!(interpret_sse_event(p, ev).is_none());
    }
}

#[test]
fn chat_error_uses_message_or_whole_error() {
    let r = parse_openai_payload(r#"{"error":{"message":"rate limited","code":429}}"#);
    assert_eq!(r, Some(Err("API error: rate limited".to_string())));
    let r = parse_openai_payload(r#"{"error":{"code":500}}"#);
    assert_eq!(r, Some(Err("API error: {\"code\":500}".to_string())));
    let r = parse_openai_payload(r#"{"error":"boom"}"#);
    assert_eq!(r, Some(Err("API error: \"boom\"".to_string())));
}

#[test]
fn structured_error_event_reports_payload() {
    let r = parse_anthropic_payload(
        r#"{"type":"error","error":{"type":"overloaded_error","message":"Overloaded"}}"#,
    );
    let msg = r.expect("failure delta").unwrap_err();
    assert!(msg.starts_with("API error: "));
    assert!(msg.contains("Overloaded"));
    assert!(msg.contains("overloaded_error"));
}

#[test]
fn malformed_payloads_are_reported_with_the_payload() {
    let r = parse_openai_payload("{not json").expect("failure delta").unwrap_err();
    assert!(r.starts_with("Failed to parse OpenAI-compatible event: "));
    assert!(r.ends_with(" ({not json)"));
    let r = parse_anthropic_payload("{oops").expect("failure delta").unwrap_err();
    assert!(r.starts_with("Failed to parse event: "));
    assert!(r.ends_with(" ({oops)"));
    let r = parse_anthropic_payload(r#"{"type":"mystery"}"#)
        .expect("failure delta")
        .unwrap_err();
    assert_eq!(r, "Failed to parse event: unexpected event shape ({\"type\":\"mystery\"})");
    let r = parse_anthropic_payload(r#"{"type":"content_block_delta","index":-1,"delta":{"type":"t","text":"x"}}"#)
        .expect("failure delta")
        .unwrap_err();
    assert!(r.contains("unexpected event shape"));
}

#[test]
fn structured_lifecycle_events_yield_nothing() {
    let payloads = [
        r#"{"type":"message_start","message":{"id":"m"}}"#,
        r#"{"type":"content_block_start","index":0,"content_block":{"type":"text","text":""}}"#,
        r#"{"type":"content_block_stop","index":0}"#,
        r#"{"type":"message_delta","delta":{"stop_reason":"end_turn"}}"#,
        r#"{"type":"message_stop"}"#,
        r#"{"type":"ping"}"#,
        r#"{"type":"content_block_delta","index":4294967295,"delta":{"type":"input_json_delta"}}"#,
    ];
    for p in payloads {
        assert_eq!(parse_anthropic_payload(p), None, "{p}");
    }
    let too_big = r#"{"type":"content_block_stop","index":4294967296}"#;
    assert!(matches!(parse_anthropic_payload(too_big), Some(Err(_))));
}

#[test]
fn chat_text_extraction_forms() {
    let r = parse_openai_payload(
        r#"{"choices":[{"delta":{"content":[{"type":"text","text":"a"},"b",{"x":1}]}},{"message":{"content":"c"}},{"delta":{"text":"d"}}]}"#,
    );
    assert_eq!(r, Some(Ok("abcd".to_string())));
    let r = parse_openai_payload(r#"{"choices":[{"delta":{"content":""},"message":{"content":"no"}}]}"#);
    assert_eq!(r, None);
    assert_eq!(parse_openai_payload(r#"{"choices":[]}"#), None);
    assert_eq!(parse_openai_payload(r#"{"id":"x"}"#), None);
    assert_eq!(parse_openai_payload(r#"{"choices":{"a":1}}"#), None);
}
