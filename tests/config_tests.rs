use tt::config::{default_model, humanize_bool, Config, ProviderKind};

fn base_config(provider: ProviderKind) -> Config {
    Config {
        provider,
        api_key: None,
        default_model: "test-model".into(),
        api_base_override: None,
    }
}

#[test]
fn anthropic_requires_api_key() {
    let mut cfg = base_config(ProviderKind::Anthropic);
    assert!(!cfg.is_configured(), "API key should be required");

    cfg.api_key = Some("sk-ant-123".into());
    assert!(cfg.is_configured());
}

#[test]
fn lmstudio_only_needs_model() {
    let cfg = base_config(ProviderKind::LmStudio);
    assert!(cfg.is_configured());
}

#[test]
fn api_key_preview_masks_values() {
    let mut cfg = base_config(ProviderKind::OpenAi);
    cfg.api_key = Some("abcdefghijklmnop".into());
    assert_eq!(cfg.api_key_preview().as_deref(), Some("abcdefg...mnop"));
}

#[test]
fn api_base_uses_override_when_present() {
    let mut cfg = base_config(ProviderKind::LmStudio);
    cfg.api_base_override = Some("http://example.test/v1".into());
    assert_eq!(cfg.api_base(), "http://example.test/v1");
}

#[test]
fn api_base_falls_back_to_provider_default() {
    let cfg = base_config(ProviderKind::OpenRouter);
    assert_eq!(cfg.api_base(), "https://openrouter.ai/api/v1");
    assert_eq!(ProviderKind::Anthropic.default_api_base(), "https://api.anthropic.com/v1");
    assert_eq!(ProviderKind::LmStudio.default_api_base(), "http://localhost:1234/v1");
}

#[test]
fn short_and_missing_keys_preview() {
    let mut cfg = base_config(ProviderKind::OpenAi);
    assert_eq!(cfg.api_key_preview(), None);
    cfg.api_key = Some(String::new());
    assert_eq!(cfg.api_key_preview(), None);
    cfg.api_key = Some("abcdefghijk".into());
    assert_eq!(cfg.api_key_preview().as_deref(), Some("abcdefghijk"));
    cfg.api_key = Some("abcdefghijkl".into());
    assert_eq!(cfg.api_key_preview().as_deref(), Some("abcdefg...ijkl"));
}

#[test]
fn blank_model_or_key_is_not_configured() {
    let mut cfg = base_config(ProviderKind::LmStudio);
    cfg.default_model = "  \t".into();
    assert!(!cfg.is_configured());
    let mut cfg = base_config(ProviderKind::OpenAi);
    cfg.api_key = Some("   ".into());
    assert!(!cfg.is_configured());
}

#[test]
fn defaults_and_names() {
    let cfg = Config::default();
    assert_eq!(cfg.provider, ProviderKind::Anthropic);
    assert_eq!(cfg.default_model, default_model());
    assert_eq!(default_model(), "");
    assert!(!cfg.is_configured());
    assert_eq!(ProviderKind::Anthropic.display_name(), "Anthropic");
    assert_eq!(ProviderKind::LmStudio.display_name(), "LM Studio (local)");
    assert!(!ProviderKind::LmStudio.requires_api_key());
    assert!(ProviderKind::OpenRouter.requires_api_key());
    assert_eq!(humanize_bool(true), "Enabled");
    assert_eq!(humanize_bool(false), "Disabled");
}
