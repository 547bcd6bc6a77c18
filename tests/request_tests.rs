use tt::config::ProviderKind;
use tt::request::{build_chat_request, normalize_api_base, RequestError, MAX_TOKENS};

fn pair(a: &str, b: &str) -> (String, String) {
    (a.to_string(), b.to_string())
}

#[test]
fn structured_provider_request() {
    let req = build_chat_request(
        ProviderKind::Anthropic,
        Some("sk-1"),
        "https://api.example/v1",
        "m",
        "sys",
        "q?",
    )
    .expect("request");
    assert_eq!(req.url, "https://api.example/v1/messages");
    assert_eq!(
        req.headers,
        vec![
            pair("x-api-key", "sk-1"),
            pair("anthropic-version", "2023-06-01"),
            pair("content-type", "application/json")
        ]
    );
    assert_eq!(req.bearer_token, None);
    assert_eq!(req.system.as_deref(), Some("sys"));
    assert_eq!(req.messages, vec![pair("user", "q?")]);
    assert_eq!(req.model, "m");
    assert_eq!(req.max_tokens, MAX_TOKENS);
    assert!(req.stream);
}

#[test]
fn chat_completion_requests() {
    let req = build_chat_request(ProviderKind::OpenRouter, Some("k"), "b", "m", "s", "q")
        .expect("request");
    assert_eq!(req.url, "b/chat/completions");
    assert_eq!(req.bearer_token.as_deref(), Some("k"));
    assert_eq!(
        req.headers,
        vec![
            pair("HTTP-Referer", "https://github.com/bmkubia/tt-cli"),
            pair("X-Title", "tt-cli")
        ]
    );
    assert_eq!(req.system, None);
    assert_eq!(req.messages, vec![pair("system", "s"), pair("user", "q")]);

    let local = build_chat_request(ProviderKind::LmStudio, Some("ignored"), "b", "m", "s", "q")
        .expect("request");
    assert_eq!(local.bearer_token, None);
    assert!(local.headers.is_empty());
    assert!(build_chat_request(ProviderKind::LmStudio, None, "b", "m", "s", "q").is_ok());
}

#[test]
fn missing_key_is_an_error() {
    for p in [ProviderKind::Anthropic, ProviderKind::OpenAi, ProviderKind::OpenRouter] {
        let err = build_chat_request(p, None, "b", "m", "s", "q").err().expect("error");
        assert_eq!(err, RequestError::MissingApiKey(p));
    }
    assert_eq!(
        RequestError::MissingApiKey(ProviderKind::OpenAi).message(),
        "No API key configured for OpenAI"
    );
}

#[test]
fn api_base_loses_trailing_slashes() {
    assert_eq!(normalize_api_base("http://h/v1///"), "http://h/v1");
    assert_eq!(normalize_api_base("http://h/v1"), "http://h/v1");
    assert_eq!(normalize_api_base("///"), "");
}
