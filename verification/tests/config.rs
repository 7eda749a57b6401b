use ict_monitor::config::{
    config_without_file, output_mode, resolve_api_key, AppConfig, LlmApiKeySource, LlmConfig,
    StructuredOutputMode,
};
use ict_monitor::watchlist::{default_watchlists, Watchlist};

fn normalized(config: AppConfig) -> AppConfig {
    let valid = vec![true; config.watchlists.len()];
    config.normalize(&valid)
}

#[test]
fn feishu_alert_config_defaults_to_disabled() {
    let cfg = AppConfig::default();
    assert!(!cfg.alerts.feishu.enabled);
    assert!(cfg.alerts.feishu.webhook_url.is_none());
    assert_eq!(cfg.alerts.feishu.timeout_ms, 3_000);
}

#[test]
fn feishu_empty_webhook_is_normalized_to_none() {
    let mut cfg = AppConfig::default();
    cfg.alerts.feishu.enabled = true;
    cfg.alerts.feishu.webhook_url = Some("".to_string());
    cfg.alerts.feishu.timeout_ms = 0;
    let cfg = normalized(cfg);
    assert!(cfg.alerts.feishu.enabled);
    assert!(cfg.alerts.feishu.webhook_url.is_none());
    assert_eq!(cfg.alerts.feishu.timeout_ms, 3_000);
}

#[test]
fn reasoning_effort_accepts_only_the_supported_values() {
    let mut config = LlmConfig::default();
    for valid in ["", "low", "high", "max"] {
        config.reasoning_effort = valid.into();
        assert!(config.validate().is_ok(), "{valid}");
    }
    for invalid in ["medium", "LOW", " low", "high ", "invalid", "0"] {
        config.reasoning_effort = invalid.into();
        assert_eq!(
            config.validate().unwrap_err(),
            "reasoning_effort must be empty, low, high, or max"
        );
    }
}

#[test]
fn llm_api_key_lookup_trims_name_and_value() {
    let config = LlmConfig {
        api_key_env: "  TEST_LLM_KEY  ".into(),
        ..LlmConfig::default()
    };

    let value = config.api_key_from_lookup(|name| {
        assert_eq!(name, "TEST_LLM_KEY");
        Some("  secret-value  ".into())
    });

    assert_eq!(value.as_deref(), Some("secret-value"));
}

#[test]
fn llm_api_key_lookup_rejects_blank_name_and_value() {
    let blank_name = LlmConfig {
        api_key_env: "   ".into(),
        ..LlmConfig::default()
    };
    assert_eq!(
        blank_name.api_key_from_lookup(|_| panic!("lookup called")),
        None
    );

    let config = LlmConfig::default();
    assert_eq!(config.api_key_from_lookup(|_| Some(" \n\t ".into())), None);
    assert_eq!(config.api_key_from_lookup(|_| None), None);
}

#[test]
fn absent_llm_section_uses_safe_valid_defaults() {
    let config = AppConfig::default();

    assert!(!config.llm.enabled);
    assert_eq!(config.llm.provider, "openai_compatible");
    assert_eq!(config.llm.api_key_env, "ICT_LLM_API_KEY");
    assert_eq!(config.llm.response_format, "auto");
    assert_eq!(config.llm.bars_per_tf, [100, 100, 120]);
    config.llm.validate().expect("default LLM config is valid");
}

fn group(id: &str) -> Watchlist {
    let mut g = default_watchlists().remove(0);
    g.id = id.to_string();
    g
}

#[test]
fn some_group_is_always_left() {
    let mut cfg = config_without_file();
    let ids: Vec<String> = cfg.watchlists.iter().map(|w| w.id.clone()).collect();
    for id in &ids {
        cfg.delete_group(id).unwrap();
    }
    assert!(!cfg.watchlists.is_empty());
    assert_eq!(
        cfg.delete_group("absent").unwrap_err(),
        "watchlist absent not found"
    );
}

#[test]
fn groups_are_created_updated_and_selected() {
    let mut cfg = config_without_file();
    let before = cfg.watchlists.len();
    cfg.create_group(group("mine"));
    assert_eq!(cfg.watchlists.len(), before + 1);
    let mut changed = group("mine");
    changed.name = "renamed".to_string();
    cfg.update_group(changed).unwrap();
    assert_eq!(cfg.watchlists.last().unwrap().name, "renamed");
    assert_eq!(cfg.select_group("mine").unwrap().name, "renamed");
    assert_eq!(cfg.active_watchlist_id.as_deref(), Some("mine"));
    assert!(cfg.update_group(group("absent")).is_err());
    assert!(cfg.select_group("absent").is_err());
    cfg.delete_group("mine").unwrap();
    assert_ne!(cfg.active_watchlist_id.as_deref(), Some("mine"));
    cfg.restore_default_groups();
    assert!(cfg.watchlists.len() >= default_watchlists().len());
}

#[test]
fn an_invalid_group_is_dropped_when_the_file_is_read() {
    let mut cfg = config_without_file();
    cfg.watchlists = vec![group("good"), group("bad")];
    let cfg = cfg.normalize(&vec![true, false]);
    assert!(cfg.watchlists.iter().any(|w| w.id == "good"));
    assert!(!cfg.watchlists.iter().any(|w| w.id == "bad"));
}

#[test]
fn the_environment_beats_the_keychain() {
    let found = resolve_api_key(Some("env".into()), Ok(Some("chain".into())));
    assert_eq!(found, Ok(Some(("env".to_string(), LlmApiKeySource::Environment))));
    let found = resolve_api_key(None, Ok(Some("chain".into())));
    assert_eq!(found, Ok(Some(("chain".to_string(), LlmApiKeySource::MacOsKeychain))));
    assert_eq!(resolve_api_key(None, Ok(Some(" ".into()))), Ok(None));
    assert_eq!(resolve_api_key(None, Err("locked".into())), Err("locked".to_string()));
    assert_ne!(
        LlmApiKeySource::Environment.as_str(),
        LlmApiKeySource::MacOsKeychain.as_str()
    );
}

fn llm_fault(change: fn(&mut LlmConfig)) -> String {
    let mut c = LlmConfig::default();
    change(&mut c);
    c.validate().unwrap_err()
}

#[test]
fn each_llm_fault_is_reported() {
    assert_eq!(llm_fault(|c| c.provider = "other".into()), "unsupported provider: other");
    assert_eq!(llm_fault(|c| c.model = " ".into()), "model must not be empty");
    assert_eq!(
        llm_fault(|c| c.base_url = "ftp://x".into()),
        "base_url must be an http(s) URL"
    );
    assert_eq!(llm_fault(|c| c.api_key_env = " ".into()), "api_key_env must not be empty");
    assert_eq!(
        llm_fault(|c| c.response_format = "xml".into()),
        "unsupported response_format: xml"
    );
    assert_eq!(
        llm_fault(|c| c.temperature = None),
        "temperature must be finite and non-negative"
    );
    assert_eq!(
        llm_fault(|c| c.temperature = Some(-1)),
        "temperature must be finite and non-negative"
    );
    assert_eq!(
        llm_fault(|c| c.timeout_secs = 0),
        "timeout_secs must be greater than zero"
    );
    assert_eq!(
        llm_fault(|c| c.max_output_tokens = 0),
        "max_output_tokens must be greater than zero"
    );
    assert_eq!(
        llm_fault(|c| c.bars_per_tf = [100, 0, 120]),
        "bars_per_tf entries must be greater than zero"
    );
    assert_eq!(
        llm_fault(|c| c.max_calls_per_day = 0),
        "max_calls_per_day must be greater than zero"
    );
}

#[test]
fn the_response_format_follows_the_provider() {
    let mut c = LlmConfig::default();
    assert_eq!(c.resolved_response_format(), "json_schema");
    c.provider = "deepseek_official".into();
    assert_eq!(c.resolved_response_format(), "json_object");
    c.provider = "volcengine_ark_plan".into();
    assert_eq!(c.resolved_response_format(), "prompt_only");
    c.response_format = "json_schema".into();
    assert_eq!(c.resolved_response_format(), "json_schema");
}

#[test]
fn a_trial_run_reads_its_response_format() {
    let mode = |value: &str, provider: &str| output_mode(value, provider).unwrap();
    assert_eq!(mode("auto", "deepseek_official"), StructuredOutputMode::JsonObject);
    assert_eq!(mode("auto", "volcengine_ark_plan"), StructuredOutputMode::PromptOnly);
    assert_eq!(mode("auto", "openai"), StructuredOutputMode::JsonSchema);
    assert_eq!(mode("json_schema", "deepseek_official"), StructuredOutputMode::JsonSchema);
    assert_eq!(mode("json_object", "openai"), StructuredOutputMode::JsonObject);
    assert_eq!(mode("prompt_only", "openai"), StructuredOutputMode::PromptOnly);
    assert_eq!(
        output_mode("xml", "openai").unwrap_err(),
        "unsupported ICT_LLM_SMOKE_RESPONSE_FORMAT: xml"
    );
}
