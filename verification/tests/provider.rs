use devdeck::provider::{
    first_feature, key_target, truncate, truncate_words, AnthropicConfig, AnthropicProvider,
    MockProvider, ModelCatalog, ModelInfo, OpenAICompatibleConfig, OpenAICompatibleProvider,
};

fn cfg() -> OpenAICompatibleConfig {
    OpenAICompatibleConfig {
        name: "OpenRouter".into(),
        base_url: "https://openrouter.ai/api/v1".into(),
        key_target: key_target("test-openai-none"),
        model: "anthropic/sonnet-4.5".into(),
        headers: vec![("X-Team".into(), "platform".into())],
        timeout_secs: Some(30),
    }
}

#[test]
fn the_mock_needs_no_key_and_says_so() {
    let h = MockProvider.health();
    assert!(h.ok && h.configured);
}

#[test]
fn a_catalog_says_whether_it_was_actually_fetched() {
    let live = ModelCatalog::live(vec![ModelInfo { id: "x".into(), name: "X".into(), context_window: None }]);
    assert!(live.live);
    assert!(live.note.is_empty());

    let fell_back = ModelCatalog::fallback(vec![], "the key was rejected".into());
    assert!(!fell_back.live);
    assert!(fell_back.note.contains("rejected"), "a fallback has to say why");
}

#[test]
fn a_provider_with_no_directory_says_so_rather_than_faking_one() {
    let e = MockProvider.fetch_models().unwrap_err();
    assert!(e.contains("does not publish"), "{e}");
    assert_eq!(MockProvider.list_models().len(), 1);
}

#[test]
fn the_endpoint_tolerates_a_trailing_slash() {
    let mut c = cfg();
    assert_eq!(c.endpoint(), "https://openrouter.ai/api/v1/chat/completions");
    c.base_url = "https://openrouter.ai/api/v1/".into();
    assert_eq!(c.endpoint(), "https://openrouter.ai/api/v1/chat/completions");
}

#[test]
fn a_configured_provider_reports_what_it_is_pointed_at() {
    // No key is stored for this target.
    let h = OpenAICompatibleProvider::new(cfg()).health(false);
    assert!(h.configured);
    assert!(h.detail.contains("sonnet-4.5"));
    assert!(h.detail.contains("openrouter.ai"));
    assert!(h.detail.contains("no key"), "got: {}", h.detail);
}

#[test]
fn the_key_lives_in_credential_manager_not_in_the_config() {
    let c = cfg();
    let debug = format!("{c:?}");
    assert!(debug.contains("key_target"));
    assert!(
        !debug.contains("sk-") && !debug.to_lowercase().contains("api_key"),
        "a config must not carry a secret: {debug}"
    );
    assert_eq!(key_target("openai-compatible"), "devdeck:aiw:openai-compatible");
}

#[test]
fn an_unconfigured_provider_is_not_ready() {
    let h = OpenAICompatibleProvider::new(OpenAICompatibleConfig::default()).health(true);
    assert!(!h.ok && !h.configured);
    assert_eq!(h.detail, "Base URL and model are required.");
    let p = OpenAICompatibleProvider::new(OpenAICompatibleConfig::default());
    assert_eq!(p.name(), "OpenAI-compatible");
    assert!(p.list_models().is_empty());
    let q = OpenAICompatibleProvider::new(cfg());
    assert_eq!(q.name(), "OpenRouter");
    assert_eq!(q.list_models()[0].id, "anthropic/sonnet-4.5");
    let a = AnthropicProvider::new(AnthropicConfig { key_target: key_target("anthropic"), model: "m".into() });
    assert_eq!(a.config.key_target, "devdeck:aiw:anthropic");
}

#[test]
fn the_first_feature_is_read_from_the_context() {
    assert_eq!(first_feature("Project: x\nFeatures:\n- offline-sync\n- other\n"), Some("offline-sync".to_string()));
    assert_eq!(first_feature("Features:\r\n  - launch  \r\n"), Some("launch".to_string()));
    assert_eq!(first_feature("Features:\nnothing listed\n"), None);
    assert_eq!(first_feature("no features here"), None);
}

#[test]
fn text_is_cut_by_words_and_by_characters() {
    assert_eq!(truncate_words("  one   two\tthree four ", 3), "one two three");
    assert_eq!(truncate_words("one", 5), "one");
    assert_eq!(truncate_words("", 2), "");
    assert_eq!(truncate("héllo wörld", 5), "héllo…");
    assert_eq!(truncate("short", 5), "short");
}
