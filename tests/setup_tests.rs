use tt::config::ProviderKind;
use tt::setup::{
    api_base_input, apply_setup, default_model_index, local_base_preset, provider_choices,
    provider_position, required_input,
};
use tt::ui::{card_lines, card_top_line};

#[test]
fn answers_are_trimmed_and_blank_ones_refused() {
    assert_eq!(required_input("  key \n").as_deref(), Some("key"));
    assert_eq!(required_input(" \t "), None);
    assert_eq!(api_base_input(" http://x/v1/ ").as_deref(), Some("http://x/v1"));
    assert_eq!(api_base_input("   "), None);
    assert_eq!(api_base_input("/").as_deref(), Some(""));
}

#[test]
fn prompt_starting_values() {
    assert_eq!(local_base_preset(Some("http://h:1/v1")), "http://h:1/v1");
    assert_eq!(local_base_preset(Some("  ")), "http://localhost:1234/v1");
    assert_eq!(local_base_preset(None), "http://localhost:1234/v1");
    let ps = provider_choices();
    for p in ps.iter() {
        assert_eq!(ps[provider_position(*p)], *p);
    }
    let options = vec!["a".to_string(), "b".to_string()];
    assert_eq!(default_model_index(&options, Some("b")), 1);
    assert_eq!(default_model_index(&options, Some("z")), 0);
    assert_eq!(default_model_index(&options, None), 0);
}

#[test]
fn setup_result_keeps_what_the_provider_uses() {
    let c = apply_setup(
        ProviderKind::LmStudio,
        Some("k".into()),
        "m".into(),
        "http://b".into(),
    );
    assert_eq!(c.api_key, None);
    assert_eq!(c.api_base_override.as_deref(), Some("http://b"));
    let c = apply_setup(ProviderKind::OpenAi, Some("k".into()), "m".into(), "http://b".into());
    assert_eq!(c.api_key.as_deref(), Some("k"));
    assert_eq!(c.api_base_override, None);
    assert!(c.is_configured());
}

#[test]
fn cards_are_boxed_and_aligned() {
    let lines = card_lines(
        "Title",
        &vec![
            ("A".to_string(), "one".to_string()),
            ("Long".to_string(), "two".to_string()),
        ],
    );
    assert_eq!(
        lines,
        vec![
            "╭─ Title ────╮".to_string(),
            "│ A    : one │".to_string(),
            "│ Long : two │".to_string(),
            "╰────────────╯".to_string(),
        ]
    );
    assert!(card_lines("T", &Vec::new()).is_empty());
    assert_eq!(card_top_line("T", 10), "╭─ T ────╮");
}

#[test]
fn settings_card_shows_masked_key_and_hint() {
    let cfg = tt::config::Config {
        provider: ProviderKind::OpenAi,
        api_key: Some("abcdefghijklmnop".into()),
        default_model: " ".into(),
        api_base_override: None,
    };
    let rows = tt::ui::settings_card_rows(&cfg, "/tmp/c.json");
    let labels: Vec<&str> = rows.iter().map(|(l, _)| l.as_str()).collect();
    assert_eq!(
        labels,
        vec!["Status", "Provider", "API Base", "Default Model", "API Key", "Config File", "Next Step"]
    );
    assert_eq!(rows[0].1, "Not configured");
    assert_eq!(rows[2].1, "https://api.openai.com/v1");
    assert_eq!(rows[3].1, "<not set>");
    assert_eq!(rows[4].1, "abcdefg...mnop");
    let local = tt::config::Config {
        provider: ProviderKind::LmStudio,
        api_key: None,
        default_model: "m".into(),
        api_base_override: Some("http://h/v1".into()),
    };
    let rows = tt::ui::settings_card_rows(&local, "f");
    assert_eq!(rows.len(), 6);
    assert_eq!(rows[0].1, "Ready");
    assert_eq!(rows[2].1, "http://h/v1");
    assert_eq!(rows[4].1, "n/a (local provider)");
}

#[test]
fn model_change_card_titles() {
    let (t, rows) = tt::ui::model_change_rows("OpenAI", "a", "a");
    assert_eq!(t, "Model Unchanged");
    assert_eq!(rows.len(), 2);
    let (t, rows) = tt::ui::model_change_rows("OpenAI", "a", "b");
    assert_eq!(t, "Model Updated");
    assert_eq!(rows[1], ("Previous".to_string(), "a".to_string()));
    assert_eq!(rows[2], ("Now".to_string(), "b".to_string()));
}
