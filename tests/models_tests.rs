use tt::config::ProviderKind;
use tt::models::{is_chat_model_id, normalize_models};

#[test]
fn normalize_models_dedups_and_sorts() {
    let models = vec![
        "gpt-4o-mini".to_string(),
        "anthropic-3-opus".to_string(),
        "gpt-4o-mini".to_string(),
    ];
    let normalized = normalize_models(models, ProviderKind::OpenRouter);
    assert_eq!(
        normalized,
        vec!["anthropic-3-opus".to_string(), "gpt-4o-mini".to_string()]
    );
}

#[test]
fn openai_normalize_filters_to_chat_models() {
    let models = vec![
        "text-embedding-3-small".to_string(),
        "gpt-4o-mini".to_string(),
        "o1-mini".to_string(),
        "text-search-babbage-doc".to_string(),
    ];
    let normalized = normalize_models(models, ProviderKind::OpenAi);
    assert_eq!(
        normalized,
        vec!["gpt-4o-mini".to_string(), "o1-mini".to_string()]
    );
}

#[test]
fn chat_model_ids_ignore_case() {
    assert!(is_chat_model_id("GPT-4"));
    assert!(is_chat_model_id("O3-mini"));
    assert!(is_chat_model_id("x-omni-y"));
    assert!(!is_chat_model_id("xo1"));
    assert!(!is_chat_model_id("davinci"));
    assert!(!is_chat_model_id(""));
}

#[test]
fn normalize_orders_like_string_order() {
    let models = vec![
        "b".to_string(),
        "a".to_string(),
        "ab".to_string(),
        "B".to_string(),
        "é".to_string(),
        "a".to_string(),
    ];
    let mut expected = models.clone();
    expected.sort();
    expected.dedup();
    assert_eq!(normalize_models(models, ProviderKind::LmStudio), expected);
    assert!(normalize_models(Vec::new(), ProviderKind::OpenAi).is_empty());
}
