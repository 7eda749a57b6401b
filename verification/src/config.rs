//! The user's configuration: defaults, checks and normalisation, and how it
//! changes when groups are created, changed or deleted.
use vstd::prelude::*;
use crate::alert::messages::{configured_url, configured_webhook_url};
use crate::text::{begins_with, owned, starts_with, text_eq, trim, trimmed};
use crate::watchlist::{
    completed, default_groups, default_watchlists, find_watchlist, first_group, merge_defaults,
    position_of, Watchlist, WatchlistModel,
};

verus! {

/// Service name under which model keys are kept in the login keychain.
pub const LLM_KEYCHAIN_SERVICE: &'static str = "com.ict-monitor.app.llm-api-key";

/// Where a model key came from.
#[derive(Clone, Copy, Debug, PartialEq, Eq, Structural)]
pub enum LlmApiKeySource {
    Environment,
    MacOsKeychain,
}

/// Access to the market data provider.
#[derive(Debug)]
pub struct TradingViewConfig {
    /// Session cookie of a logged-in user.
    pub sessionid: Option<String>,
    /// Companion of the session cookie.
    pub sessionid_sign: Option<String>,
    /// HTTP proxy for this program alone.
    pub proxy_url: Option<String>,
}

/// Mathematical content of a [`TradingViewConfig`].
pub struct TradingViewConfigModel {
    pub sessionid: Option<Seq<char>>,
    pub sessionid_sign: Option<Seq<char>>,
    pub proxy_url: Option<Seq<char>>,
}

impl View for TradingViewConfig {
    type V = TradingViewConfigModel;

    open spec fn view(&self) -> TradingViewConfigModel {
        TradingViewConfigModel {
            sessionid: self.sessionid.deep_view(),
            sessionid_sign: self.sessionid_sign.deep_view(),
            proxy_url: self.proxy_url.deep_view(),
        }
    }
}

impl DeepView for TradingViewConfig {
    type V = TradingViewConfigModel;

    open spec fn deep_view(&self) -> TradingViewConfigModel {
        self@
    }
}

impl Clone for TradingViewConfig {
    fn clone(&self) -> (r: Self)
        ensures
            r@ == self@,
    {
        let r = TradingViewConfig {
            sessionid: self.sessionid.clone(),
            sessionid_sign: self.sessionid_sign.clone(),
            proxy_url: self.proxy_url.clone(),
        };
        r
    }
}

/// Feishu notifications.
#[derive(Debug)]
pub struct FeishuAlertConfig {
    pub enabled: bool,
    pub webhook_url: Option<String>,
    pub timeout_ms: u64,
}

/// Mathematical content of a [`FeishuAlertConfig`].
pub struct FeishuAlertConfigModel {
    pub enabled: bool,
    pub webhook_url: Option<Seq<char>>,
    pub timeout_ms: u64,
}

impl View for FeishuAlertConfig {
    type V = FeishuAlertConfigModel;

    open spec fn view(&self) -> FeishuAlertConfigModel {
        FeishuAlertConfigModel {
            enabled: self.enabled,
            webhook_url: self.webhook_url.deep_view(),
            timeout_ms: self.timeout_ms,
        }
    }
}

impl DeepView for FeishuAlertConfig {
    type V = FeishuAlertConfigModel;

    open spec fn deep_view(&self) -> FeishuAlertConfigModel {
        self@
    }
}

impl Clone for FeishuAlertConfig {
    fn clone(&self) -> (r: Self)
        ensures
            r@ == self@,
    {
        let r = FeishuAlertConfig {
            enabled: self.enabled,
            webhook_url: self.webhook_url.clone(),
            timeout_ms: self.timeout_ms,
        };
        r
    }
}

/// Notifications.
#[derive(Debug)]
pub struct AlertsConfig {
    pub feishu: FeishuAlertConfig,
}

/// Mathematical content of a [`AlertsConfig`].
pub struct AlertsConfigModel {
    pub feishu: FeishuAlertConfigModel,
}

impl View for AlertsConfig {
    type V = AlertsConfigModel;

    open spec fn view(&self) -> AlertsConfigModel {
        AlertsConfigModel {
            feishu: self.feishu@,
        }
    }
}

impl DeepView for AlertsConfig {
    type V = AlertsConfigModel;

    open spec fn deep_view(&self) -> AlertsConfigModel {
        self@
    }
}

impl Clone for AlertsConfig {
    fn clone(&self) -> (r: Self)
        ensures
            r@ == self@,
    {
        let r = AlertsConfig {
            feishu: self.feishu.clone(),
        };
        r
    }
}

/// Access to a language model.
#[derive(Debug)]
pub struct LlmConfig {
    pub enabled: bool,
    pub provider: String,
    pub model: String,
    pub base_url: String,
    pub api_key_env: String,
    /// `auto`, `json_schema`, `json_object` or `prompt_only`.
    pub response_format: String,
    /// Millionths; absent where the configured number is not finite.
    pub temperature: Option<i64>,
    pub timeout_secs: u64,
    pub max_retries: usize,
    pub max_output_tokens: u32,
    /// Empty omits the parameter.
    pub reasoning_effort: String,
    pub proxy_url: String,
    pub bars_per_tf: [usize; 3],
    pub max_calls_per_day: u32,
}

/// Mathematical content of a [`LlmConfig`].
pub struct LlmConfigModel {
    pub enabled: bool,
    pub provider: Seq<char>,
    pub model: Seq<char>,
    pub base_url: Seq<char>,
    pub api_key_env: Seq<char>,
    pub response_format: Seq<char>,
    pub temperature: Option<i64>,
    pub timeout_secs: u64,
    pub max_retries: usize,
    pub max_output_tokens: u32,
    pub reasoning_effort: Seq<char>,
    pub proxy_url: Seq<char>,
    pub bars_per_tf: [usize; 3],
    pub max_calls_per_day: u32,
}

impl View for LlmConfig {
    type V = LlmConfigModel;

    open spec fn view(&self) -> LlmConfigModel {
        LlmConfigModel {
            enabled: self.enabled,
            provider: self.provider@,
            model: self.model@,
            base_url: self.base_url@,
            api_key_env: self.api_key_env@,
            response_format: self.response_format@,
            temperature: self.temperature,
            timeout_secs: self.timeout_secs,
            max_retries: self.max_retries,
            max_output_tokens: self.max_output_tokens,
            reasoning_effort: self.reasoning_effort@,
            proxy_url: self.proxy_url@,
            bars_per_tf: self.bars_per_tf,
            max_calls_per_day: self.max_calls_per_day,
        }
    }
}

impl DeepView for LlmConfig {
    type V = LlmConfigModel;

    open spec fn deep_view(&self) -> LlmConfigModel {
        self@
    }
}

impl Clone for LlmConfig {
    fn clone(&self) -> (r: Self)
        ensures
            r@ == self@,
    {
        let r = LlmConfig {
            enabled: self.enabled,
            provider: self.provider.clone(),
            model: self.model.clone(),
            base_url: self.base_url.clone(),
            api_key_env: self.api_key_env.clone(),
            response_format: self.response_format.clone(),
            temperature: self.temperature,
            timeout_secs: self.timeout_secs,
            max_retries: self.max_retries,
            max_output_tokens: self.max_output_tokens,
            reasoning_effort: self.reasoning_effort.clone(),
            proxy_url: self.proxy_url.clone(),
            bars_per_tf: self.bars_per_tf,
            max_calls_per_day: self.max_calls_per_day,
        };
        r
    }
}

/// The whole configuration.
#[derive(Debug)]
pub struct AppConfig {
    pub tradingview: TradingViewConfig,
    pub llm: LlmConfig,
    pub alerts: AlertsConfig,
    pub watchlists: Vec<Watchlist>,
    /// Instruments saved for viewing; they belong to no group.
    pub chart_symbols: Vec<String>,
    /// Group that the user selected last.
    pub active_watchlist_id: Option<String>,
}

/// Mathematical content of a [`AppConfig`].
pub struct AppConfigModel {
    pub tradingview: TradingViewConfigModel,
    pub llm: LlmConfigModel,
    pub alerts: AlertsConfigModel,
    pub watchlists: Seq<WatchlistModel>,
    pub chart_symbols: Seq<Seq<char>>,
    pub active_watchlist_id: Option<Seq<char>>,
}

impl View for AppConfig {
    type V = AppConfigModel;

    open spec fn view(&self) -> AppConfigModel {
        AppConfigModel {
            tradingview: self.tradingview@,
            llm: self.llm@,
            alerts: self.alerts@,
            watchlists: self.watchlists.deep_view(),
            chart_symbols: self.chart_symbols.deep_view(),
            active_watchlist_id: self.active_watchlist_id.deep_view(),
        }
    }
}

impl DeepView for AppConfig {
    type V = AppConfigModel;

    open spec fn deep_view(&self) -> AppConfigModel {
        self@
    }
}

impl Clone for AppConfig {
    fn clone(&self) -> (r: Self)
        ensures
            r@ == self@,
    {
        let r = AppConfig {
            tradingview: self.tradingview.clone(),
            llm: self.llm.clone(),
            alerts: self.alerts.clone(),
            watchlists: self.watchlists.clone(),
            chart_symbols: self.chart_symbols.clone(),
            active_watchlist_id: self.active_watchlist_id.clone(),
        };
        assert(r.watchlists.deep_view() =~= self.watchlists.deep_view());
        assert(r.chart_symbols.deep_view() =~= self.chart_symbols.deep_view());
        r
    }
}

impl LlmApiKeySource {
    /// The name of the source.
    pub fn as_str(self) -> (r: &'static str)
        ensures
            r@ == match self {
                LlmApiKeySource::Environment => "environment"@,
                LlmApiKeySource::MacOsKeychain => "macos_keychain"@,
            },
    {
        match self {
            LlmApiKeySource::Environment => "environment",
            LlmApiKeySource::MacOsKeychain => "macos_keychain",
        }
    }
}

/// Feishu notifications are off until they are configured.
pub open spec fn default_feishu() -> FeishuAlertConfigModel {
    FeishuAlertConfigModel { enabled: false, webhook_url: None, timeout_ms: 3_000 }
}

impl Default for FeishuAlertConfig {
    fn default() -> (r: Self)
        ensures
            r@ == default_feishu(),
    {
        FeishuAlertConfig { enabled: false, webhook_url: None, timeout_ms: 3_000 }
    }
}

/// No model is called until one is enabled.
pub open spec fn default_llm() -> LlmConfigModel {
    LlmConfigModel {
        enabled: false,
        provider: "openai_compatible"@,
        model: "gpt-5.2"@,
        base_url: "https://api.openai.com/v1"@,
        api_key_env: "ICT_LLM_API_KEY"@,
        response_format: "auto"@,
        temperature: Some(0),
        timeout_secs: 60,
        max_retries: 1,
        max_output_tokens: 4096,
        reasoning_effort: ""@,
        proxy_url: ""@,
        bars_per_tf: [100, 100, 120],
        max_calls_per_day: 500,
    }
}

impl Default for LlmConfig {
    fn default() -> (r: Self)
        ensures
            r@ == default_llm(),
    {
        LlmConfig {
            enabled: false,
            provider: owned("openai_compatible"),
            model: owned("gpt-5.2"),
            base_url: owned("https://api.openai.com/v1"),
            api_key_env: owned("ICT_LLM_API_KEY"),
            response_format: owned("auto"),
            temperature: Some(0),
            timeout_secs: 60,
            max_retries: 1,
            max_output_tokens: 4096,
            reasoning_effort: owned(""),
            proxy_url: owned(""),
            bars_per_tf: [100, 100, 120],
            max_calls_per_day: 500,
        }
    }
}

/// The configuration before anything is configured.
pub open spec fn default_config() -> AppConfigModel {
    AppConfigModel {
        tradingview: TradingViewConfigModel {
            sessionid: None,
            sessionid_sign: None,
            proxy_url: None,
        },
        llm: default_llm(),
        alerts: AlertsConfigModel { feishu: default_feishu() },
        watchlists: Seq::empty(),
        chart_symbols: Seq::empty(),
        active_watchlist_id: None,
    }
}

impl Default for AppConfig {
    fn default() -> (r: Self)
        ensures
            r@ == default_config(),
    {
        let r = AppConfig {
            tradingview: TradingViewConfig {
                sessionid: None,
                sessionid_sign: None,
                proxy_url: None,
            },
            llm: LlmConfig::default(),
            alerts: AlertsConfig { feishu: FeishuAlertConfig::default() },
            watchlists: Vec::new(),
            chart_symbols: Vec::new(),
            active_watchlist_id: None,
        };
        assert(r@.watchlists =~= Seq::<WatchlistModel>::empty());
        assert(r@.chart_symbols =~= Seq::<Seq<char>>::empty());
        r
    }
}

/// What is wrong with a model configuration: the first of the checks that
/// fails.
pub open spec fn llm_complaint(c: LlmConfigModel) -> Option<Seq<char>> {
    if c.provider != "openai_compatible"@ && c.provider != "deepseek_official"@ && c.provider
        != "volcengine_ark_plan"@ {
        Some("unsupported provider: "@ + c.provider)
    } else if trimmed(c.model).len() == 0 {
        Some("model must not be empty"@)
    } else if !begins_with(trimmed(c.base_url), "https://"@) && !begins_with(
        trimmed(c.base_url),
        "http://"@,
    ) {
        Some("base_url must be an http(s) URL"@)
    } else if trimmed(c.api_key_env).len() == 0 {
        Some("api_key_env must not be empty"@)
    } else if c.response_format != "auto"@ && c.response_format != "json_schema"@
        && c.response_format != "json_object"@ && c.response_format != "prompt_only"@ {
        Some("unsupported response_format: "@ + c.response_format)
    } else if c.temperature is None || c.temperature->0 < 0 {
        Some("temperature must be finite and non-negative"@)
    } else if c.timeout_secs == 0 {
        Some("timeout_secs must be greater than zero"@)
    } else if c.reasoning_effort != ""@ && c.reasoning_effort != "low"@ && c.reasoning_effort
        != "high"@ && c.reasoning_effort != "max"@ {
        Some("reasoning_effort must be empty, low, high, or max"@)
    } else if c.max_output_tokens == 0 {
        Some("max_output_tokens must be greater than zero"@)
    } else if c.bars_per_tf[0] == 0 || c.bars_per_tf[1] == 0 || c.bars_per_tf[2] == 0 {
        Some("bars_per_tf entries must be greater than zero"@)
    } else if c.max_calls_per_day == 0 {
        Some("max_calls_per_day must be greater than zero"@)
    } else {
        None
    }
}

/// The response format that is asked for: the configured one, or for `auto`
/// the safest that the provider is known to support.
pub open spec fn response_format_of(c: LlmConfigModel) -> Seq<char> {
    if c.response_format == "json_schema"@ {
        "json_schema"@
    } else if c.response_format == "json_object"@ {
        "json_object"@
    } else if c.response_format == "prompt_only"@ {
        "prompt_only"@
    } else if c.response_format == "auto"@ && c.provider == "deepseek_official"@ {
        "json_object"@
    } else if c.response_format == "auto"@ && c.provider == "volcengine_ark_plan"@ {
        "prompt_only"@
    } else {
        "json_schema"@
    }
}

/// A text without white space around it, absent where nothing is left.
pub open spec fn meaningful(s: Option<Seq<char>>) -> Option<Seq<char>> {
    configured_url(s)
}

fn is_blank(s: &str) -> (r: bool)
    ensures
        r == (trimmed(s@).len() == 0),
{
    let t = trim(s);
    proof {
        reveal_strlit("");
        assert(t@.len() == 0 ==> t@ =~= ""@);
    }
    text_eq(t.as_str(), "")
}

impl LlmConfig {
    /// Checks everything but the key.
    pub fn validate(&self) -> (r: Result<(), String>)
        ensures
            match r {
                Ok(_) => llm_complaint(self@) is None,
                Err(e) => llm_complaint(self@) == Some(e@),
            },
    {
        let provider = self.provider.as_str();
        if !text_eq(provider, "openai_compatible") && !text_eq(provider, "deepseek_official")
            && !text_eq(provider, "volcengine_ark_plan") {
            let mut e = owned("unsupported provider: ");
            e.append(provider);
            return Err(e);
        }
        if is_blank(self.model.as_str()) {
            return Err(owned("model must not be empty"));
        }
        let base = trim(self.base_url.as_str());
        if !starts_with(base.as_str(), "https://") && !starts_with(base.as_str(), "http://") {
            return Err(owned("base_url must be an http(s) URL"));
        }
        if is_blank(self.api_key_env.as_str()) {
            return Err(owned("api_key_env must not be empty"));
        }
        let format = self.response_format.as_str();
        if !text_eq(format, "auto") && !text_eq(format, "json_schema") && !text_eq(
            format,
            "json_object",
        ) && !text_eq(format, "prompt_only") {
            let mut e = owned("unsupported response_format: ");
            e.append(format);
            return Err(e);
        }
        let sensible = match self.temperature {
            Some(t) => t >= 0,
            None => false,
        };
        if !sensible {
            return Err(owned("temperature must be finite and non-negative"));
        }
        if self.timeout_secs == 0 {
            return Err(owned("timeout_secs must be greater than zero"));
        }
        let effort = self.reasoning_effort.as_str();
        if !text_eq(effort, "") && !text_eq(effort, "low") && !text_eq(effort, "high") && !text_eq(
            effort,
            "max",
        ) {
            return Err(owned("reasoning_effort must be empty, low, high, or max"));
        }
        if self.max_output_tokens == 0 {
            return Err(owned("max_output_tokens must be greater than zero"));
        }
        if self.bars_per_tf[0] == 0 || self.bars_per_tf[1] == 0 || self.bars_per_tf[2] == 0 {
            return Err(owned("bars_per_tf entries must be greater than zero"));
        }
        if self.max_calls_per_day == 0 {
            return Err(owned("max_calls_per_day must be greater than zero"));
        }
        Ok(())
    }

    /// The response format that is asked for.
    pub fn resolved_response_format(&self) -> (r: &'static str)
        ensures
            r@ == response_format_of(self@),
    {
        let format = self.response_format.as_str();
        let provider = self.provider.as_str();
        if text_eq(format, "json_schema") {
            "json_schema"
        } else if text_eq(format, "json_object") {
            "json_object"
        } else if text_eq(format, "prompt_only") {
            "prompt_only"
        } else if text_eq(format, "auto") && text_eq(provider, "deepseek_official") {
            "json_object"
        } else if text_eq(format, "auto") && text_eq(provider, "volcengine_ark_plan") {
            "prompt_only"
        } else {
            "json_schema"
        }
    }

    /// Finds the key through a lookup of a name. The name and the value are
    /// trimmed; a blank name is not looked up and a blank value is no key.
    pub fn api_key_from_lookup<F: FnOnce(&str) -> Option<String>>(&self, lookup: F) -> (r: Option<
        String,
    >)
        requires
            forall|name: &str| call_requires(lookup, (name,)),
        ensures
            trimmed(self@.api_key_env).len() == 0 ==> r is None,
            trimmed(self@.api_key_env).len() > 0 ==> exists|name: &str, found: Option<String>|
                name@ == trimmed(self@.api_key_env) && #[trigger] call_ensures(
                    lookup,
                    (name,),
                    found,
                ) && r.deep_view() == meaningful(found.deep_view()),
    {
        let name = trim(self.api_key_env.as_str());
        if is_blank(self.api_key_env.as_str()) {
            return None;
        }
        let key = name.as_str();
        let found = lookup(key);
        configured_webhook_url(&found)
    }
}

/// How a model is told to structure its answer.
#[derive(Clone, Copy, Debug, PartialEq, Eq, Structural)]
pub enum StructuredOutputMode {
    JsonSchema,
    JsonObject,
    PromptOnly,
}

/// The mode that a setting and a provider ask for.
pub open spec fn mode_for(value: Seq<char>, provider: Seq<char>) -> Option<StructuredOutputMode> {
    if value == "auto"@ && provider == "deepseek_official"@ {
        Some(StructuredOutputMode::JsonObject)
    } else if value == "auto"@ && provider == "volcengine_ark_plan"@ {
        Some(StructuredOutputMode::PromptOnly)
    } else if value == "auto"@ || value == "json_schema"@ {
        Some(StructuredOutputMode::JsonSchema)
    } else if value == "json_object"@ {
        Some(StructuredOutputMode::JsonObject)
    } else if value == "prompt_only"@ {
        Some(StructuredOutputMode::PromptOnly)
    } else {
        None
    }
}

/// Reads the setting of a trial run of a model.
pub fn output_mode(value: &str, provider: &str) -> (r: Result<StructuredOutputMode, String>)
    ensures
        match r {
            Ok(mode) => mode_for(value@, provider@) == Some(mode),
            Err(e) => mode_for(value@, provider@) is None && e@
                == "unsupported ICT_LLM_SMOKE_RESPONSE_FORMAT: "@ + value@,
        },
{
    let auto = text_eq(value, "auto");
    if auto && text_eq(provider, "deepseek_official") {
        Ok(StructuredOutputMode::JsonObject)
    } else if auto && text_eq(provider, "volcengine_ark_plan") {
        Ok(StructuredOutputMode::PromptOnly)
    } else if auto || text_eq(value, "json_schema") {
        Ok(StructuredOutputMode::JsonSchema)
    } else if text_eq(value, "json_object") {
        Ok(StructuredOutputMode::JsonObject)
    } else if text_eq(value, "prompt_only") {
        Ok(StructuredOutputMode::PromptOnly)
    } else {
        let mut e = owned("unsupported ICT_LLM_SMOKE_RESPONSE_FORMAT: ");
        e.append(value);
        Err(e)
    }
}

/// A trial run and the configured model agree on the mode of every setting
/// that is valid.
pub proof fn law_modes_agree(c: LlmConfigModel)
    ensures
        mode_for(c.response_format, c.provider) matches Some(mode) ==> response_format_of(c)
            == match mode {
            StructuredOutputMode::JsonSchema => "json_schema"@,
            StructuredOutputMode::JsonObject => "json_object"@,
            StructuredOutputMode::PromptOnly => "prompt_only"@,
        },
{
    reveal_strlit("auto");
    reveal_strlit("json_schema");
    reveal_strlit("json_object");
    reveal_strlit("prompt_only");
    assert("auto"@.len() == 4);
    assert("json_schema"@[5] == 's' && "json_object"@[5] == 'o');
    assert("prompt_only"@[0] == 'p');
}

/// Which key is used: one from the environment first, then a key that the
/// keychain holds and that is not blank.
pub fn resolve_api_key(
    environment: Option<String>,
    keychain: Result<Option<String>, String>,
) -> (r: Result<Option<(String, LlmApiKeySource)>, String>)
    ensures
        match environment {
            Some(key) => r matches Ok(Some(found)) && found.0@ == key@ && found.1
                == LlmApiKeySource::Environment,
            None => match keychain {
                Err(e) => r matches Err(f) && f@ == e@,
                Ok(None) => r matches Ok(None),
                Ok(Some(key)) => if trimmed(key@).len() == 0 {
                    r matches Ok(None)
                } else {
                    r matches Ok(Some(found)) && found.0@ == key@ && found.1
                        == LlmApiKeySource::MacOsKeychain
                },
            },
        },
{
    match environment {
        Some(key) => Ok(Some((key, LlmApiKeySource::Environment))),
        None => match keychain {
            Err(e) => Err(e),
            Ok(None) => Ok(None),
            Ok(Some(key)) => if is_blank(key.as_str()) {
                Ok(None)
            } else {
                Ok(Some((key, LlmApiKeySource::MacOsKeychain)))
            },
        },
    }
}

/// The groups that a check accepted.
pub open spec fn accepted(groups: Seq<WatchlistModel>, valid: Seq<bool>) -> Seq<WatchlistModel>
    decreases groups.len(),
{
    if groups.len() == 0 {
        Seq::empty()
    } else if valid[groups.len() - 1] {
        accepted(groups.drop_last(), valid).push(groups.last())
    } else {
        accepted(groups.drop_last(), valid)
    }
}

/// The groups after normalisation: the accepted ones, or the built-in ones
/// where none is left, completed by the built-in ones that are missing.
pub open spec fn normal_groups(groups: Seq<WatchlistModel>, valid: Seq<bool>) -> Seq<
    WatchlistModel,
> {
    let kept = accepted(groups, valid);
    completed(
        if kept.len() == 0 {
            default_groups()
        } else {
            kept
        },
        default_groups(),
    )
}

/// The configuration after normalisation.
pub open spec fn normalized(c: AppConfigModel, valid: Seq<bool>) -> AppConfigModel {
    AppConfigModel {
        watchlists: normal_groups(c.watchlists, valid),
        alerts: AlertsConfigModel {
            feishu: FeishuAlertConfigModel {
                webhook_url: meaningful(c.alerts.feishu.webhook_url),
                timeout_ms: if c.alerts.feishu.timeout_ms == 0 {
                    3_000
                } else {
                    c.alerts.feishu.timeout_ms
                },
                ..c.alerts.feishu
            },
        },
        ..c
    }
}

/// The groups with one group replaced, where it is there.
pub open spec fn replaced(groups: Seq<WatchlistModel>, group: WatchlistModel, at: int) -> Seq<
    WatchlistModel,
> {
    groups.update(at, group)
}

/// The groups without every group of an identity.
pub open spec fn without_group(groups: Seq<WatchlistModel>, id: Seq<char>) -> Seq<WatchlistModel>
    decreases groups.len(),
{
    if groups.len() == 0 {
        Seq::empty()
    } else if groups.last().id == id {
        without_group(groups.drop_last(), id)
    } else {
        without_group(groups.drop_last(), id).push(groups.last())
    }
}

/// The configuration after a group is deleted: the built-in groups come back
/// where none is left, and a deleted selection moves to the first group.
pub open spec fn after_delete(c: AppConfigModel, id: Seq<char>) -> AppConfigModel {
    let rest = without_group(c.watchlists, id);
    let groups = if rest.len() == 0 {
        completed(Seq::empty(), default_groups())
    } else {
        rest
    };
    AppConfigModel {
        watchlists: groups,
        active_watchlist_id: if c.active_watchlist_id == Some(id) {
            Some(groups[0].id)
        } else {
            c.active_watchlist_id
        },
        ..c
    }
}

proof fn lemma_completed_len(groups: Seq<WatchlistModel>, defaults: Seq<WatchlistModel>)
    ensures
        completed(groups, defaults).len() >= groups.len(),
        groups.len() == 0 ==> completed(groups, defaults).len() == defaults.len(),
    decreases defaults.len(),
{
    if defaults.len() > 0 {
        lemma_completed_len(groups, defaults.drop_last());
    }
}

proof fn lemma_without_absent(groups: Seq<WatchlistModel>, id: Seq<char>)
    ensures
        without_group(groups, id).len() <= groups.len(),
        (without_group(groups, id).len() == groups.len()) == (first_group(groups, id) is None),
    decreases groups.len(),
{
    if groups.len() > 0 {
        lemma_without_absent(groups.drop_last(), id);
        lemma_first_group_last(groups, id);
    }
}

proof fn lemma_first_group_last(groups: Seq<WatchlistModel>, id: Seq<char>)
    requires
        groups.len() > 0,
    ensures
        (first_group(groups, id) is None) == (first_group(groups.drop_last(), id) is None
            && groups.last().id != id),
    decreases groups.len(),
{
    if groups.len() > 1 {
        lemma_first_group_last(groups.drop_first(), id);
        assert(groups.drop_first().drop_last() =~= groups.drop_last().drop_first());
        assert(groups.drop_last()[0] == groups[0]);
    } else {
        assert(groups.drop_first() =~= Seq::<WatchlistModel>::empty());
        assert(groups.drop_last() =~= Seq::<WatchlistModel>::empty());
    }
}

impl AppConfig {
    /// Drops the groups that did not pass their check, completes the rest with
    /// the built-in groups, and cleans up the webhook settings. `valid` says of
    /// each group whether it passed.
    pub fn normalize(self, valid: &Vec<bool>) -> (r: AppConfig)
        requires
            valid.len() == self@.watchlists.len(),
        ensures
            r@ == normalized(self@, valid@),
    {
        let ghost old_groups = self.watchlists.deep_view();
        let mut kept: Vec<Watchlist> = Vec::new();
        let mut i: usize = 0;
        assert(kept.deep_view() =~= Seq::<WatchlistModel>::empty());
        while i < self.watchlists.len()
            invariant
                i <= self.watchlists.len(),
                valid.len() == self.watchlists.len(),
                kept.deep_view() == accepted(self.watchlists.deep_view().take(i as int), valid@),
            decreases self.watchlists.len() - i,
        {
            let ghost before = kept.deep_view();
            proof {
                let now = self.watchlists.deep_view().take(i + 1);
                assert(now.drop_last() =~= self.watchlists.deep_view().take(i as int));
                assert(now.last() == self.watchlists@[i as int]@);
            }
            if valid[i] {
                kept.push(self.watchlists[i].clone());
                assert(kept.deep_view() =~= before.push(self.watchlists@[i as int]@));
            }
            i += 1;
        }
        assert(self.watchlists.deep_view().take(i as int) =~= self.watchlists.deep_view());
        if kept.len() == 0 {
            assert(kept.deep_view().len() == 0);
            kept = default_watchlists();
        }
        let groups = merge_defaults(&kept);
        let timeout: u64 = if self.alerts.feishu.timeout_ms == 0 {
            3_000
        } else {
            self.alerts.feishu.timeout_ms
        };
        let feishu = FeishuAlertConfig {
            enabled: self.alerts.feishu.enabled,
            webhook_url: configured_webhook_url(&self.alerts.feishu.webhook_url),
            timeout_ms: timeout,
        };
        AppConfig {
            tradingview: self.tradingview,
            llm: self.llm,
            alerts: AlertsConfig { feishu },
            watchlists: groups,
            chart_symbols: self.chart_symbols,
            active_watchlist_id: self.active_watchlist_id,
        }
    }

    /// Adds a group.
    pub fn create_group(&mut self, group: Watchlist)
        ensures
            final(self)@ == (AppConfigModel {
                watchlists: old(self)@.watchlists.push(group@),
                ..old(self)@
            }),
    {
        let ghost before = self.watchlists.deep_view();
        let ghost added = group@;
        self.watchlists.push(group);
        assert(self.watchlists.deep_view() =~= before.push(added));
    }

    /// Replaces the first group with the same identity.
    pub fn update_group(&mut self, group: Watchlist) -> (r: Result<(), String>)
        ensures
            match r {
                Ok(_) => exists|at: int|
                    0 <= at < old(self)@.watchlists.len() && (
                    #[trigger] old(self)@.watchlists[at]).id == group@.id && (forall|k: int|
                        0 <= k < at ==> (#[trigger] old(self)@.watchlists[k]).id != group@.id)
                        && final(self)@ == (AppConfigModel {
                        watchlists: replaced(old(self)@.watchlists, group@, at),
                        ..old(self)@
                    }),
                Err(e) => first_group(old(self)@.watchlists, group@.id) is None && final(self)@
                    == old(self)@ && e@ == "watchlist "@ + group@.id + " not found"@,
            },
            r is Ok <==> first_group(old(self)@.watchlists, group@.id) is Some,
    {
        let at: usize = position_of(&self.watchlists, group.id.as_str());
        if at == self.watchlists.len() {
            let mut e = owned("watchlist ");
            e.append(group.id.as_str());
            e.append(" not found");
            return Err(e);
        }
        let ghost before = self.watchlists.deep_view();
        let ghost content = group@;
        self.watchlists.set(at, group);
        assert(self.watchlists.deep_view() =~= before.update(at as int, content));
        assert(old(self)@.watchlists[at as int].id == content.id);
        Ok(())
    }

    /// Deletes every group of an identity.
    pub fn delete_group(&mut self, id: &str) -> (r: Result<(), String>)
        ensures
            match r {
                Ok(_) => first_group(old(self)@.watchlists, id@) is Some && final(self)@
                    == after_delete(old(self)@, id@),
                Err(e) => first_group(old(self)@.watchlists, id@) is None && final(self)@
                    == old(self)@ && e@ == "watchlist "@ + id@ + " not found"@,
            },
    {
        let mut rest: Vec<Watchlist> = Vec::new();
        let mut i: usize = 0;
        assert(rest.deep_view() =~= Seq::<WatchlistModel>::empty());
        while i < self.watchlists.len()
            invariant
                i <= self.watchlists.len(),
                self@ == old(self)@,
                rest.deep_view() == without_group(
                    self.watchlists.deep_view().take(i as int),
                    id@,
                ),
            decreases self.watchlists.len() - i,
        {
            let ghost before = rest.deep_view();
            proof {
                let now = self.watchlists.deep_view().take(i + 1);
                assert(now.drop_last() =~= self.watchlists.deep_view().take(i as int));
                assert(now.last() == self.watchlists@[i as int]@);
            }
            if !text_eq(self.watchlists[i].id.as_str(), id) {
                rest.push(self.watchlists[i].clone());
                assert(rest.deep_view() =~= before.push(self.watchlists@[i as int]@));
            }
            i += 1;
        }
        assert(self.watchlists.deep_view().take(i as int) =~= self.watchlists.deep_view());
        proof {
            lemma_without_absent(self.watchlists.deep_view(), id@);
        }
        if rest.len() == self.watchlists.len() {
            assert(rest.deep_view().len() == self.watchlists.deep_view().len());
            let mut e = owned("watchlist ");
            e.append(id);
            e.append(" not found");
            return Err(e);
        }
        assert(rest.deep_view().len() < self.watchlists.deep_view().len());
        if rest.len() == 0 {
            assert(rest.deep_view() =~= Seq::<WatchlistModel>::empty());
            rest = merge_defaults(&rest);
            proof {
                lemma_completed_len(Seq::<WatchlistModel>::empty(), default_groups());
            }
        }
        assert(rest.deep_view().len() > 0);
        let selected = match &self.active_watchlist_id {
            Some(active) => text_eq(active.as_str(), id),
            None => false,
        };
        if selected {
            self.active_watchlist_id = Some(rest[0].id.clone());
        }
        self.watchlists = rest;
        Ok(())
    }

    /// Brings missing built-in groups back.
    pub fn restore_default_groups(&mut self)
        ensures
            final(self)@ == (AppConfigModel {
                watchlists: completed(old(self)@.watchlists, default_groups()),
                ..old(self)@
            }),
    {
        self.watchlists = merge_defaults(&self.watchlists);
    }

    /// Selects the group that is shown. Nothing else changes.
    pub fn select_group(&mut self, id: &str) -> (r: Result<Watchlist, String>)
        ensures
            match r {
                Ok(group) => first_group(old(self)@.watchlists, id@) == Some(group@) && final(self)@
                    == (AppConfigModel { active_watchlist_id: Some(id@), ..old(self)@ }),
                Err(e) => first_group(old(self)@.watchlists, id@) is None && final(self)@
                    == old(self)@ && e@ == "watchlist "@ + id@ + " not found"@,
            },
    {
        match find_watchlist(&self.watchlists, id) {
            Some(group) => {
                self.active_watchlist_id = Some(owned(id));
                Ok(group)
            },
            None => {
                let mut e = owned("watchlist ");
                e.append(id);
                e.append(" not found");
                Err(e)
            },
        }
    }
}

/// The configuration that is used where there is no file.
pub fn config_without_file() -> (r: AppConfig)
    ensures
        r@ == (AppConfigModel { watchlists: default_groups(), ..default_config() }),
{
    let mut r = AppConfig::default();
    r.watchlists = default_watchlists();
    r
}

/// The default model configuration passes its own check.
pub proof fn law_default_model_is_valid()
    ensures
        llm_complaint(default_llm()) is None,
{
    reveal_strlit("gpt-5.2");
    reveal_strlit("https://api.openai.com/v1");
    reveal_strlit("https://");
    reveal_strlit("ICT_LLM_API_KEY");
    let c = default_llm();
    assert(trimmed(c.model) == c.model);
    assert(trimmed(c.base_url) == c.base_url);
    assert(trimmed(c.api_key_env) == c.api_key_env);
    assert(c.base_url.take("https://"@.len() as int) =~= "https://"@);
}

/// Every configuration is left with at least one group.
pub proof fn law_some_group_is_always_left(c: AppConfigModel, valid: Seq<bool>, id: Seq<char>)
    ensures
        normalized(c, valid).watchlists.len() > 0,
        after_delete(c, id).watchlists.len() > 0,
{
    lemma_completed_len(accepted(c.watchlists, valid), default_groups());
    lemma_completed_len(default_groups(), default_groups());
    lemma_completed_len(Seq::<WatchlistModel>::empty(), default_groups());
}

proof fn lemma_trim_of_start(s: Seq<char>)
    ensures
        crate::text::trimmed_start(s).len() > 0 ==> !crate::text::white_space(
            crate::text::trimmed_start(s)[0],
        ),
    decreases s.len(),
{
    if s.len() > 0 && crate::text::white_space(s[0]) {
        lemma_trim_of_start(s.drop_first());
    }
}

proof fn lemma_trim_of_end(s: Seq<char>)
    ensures
        crate::text::trimmed_end(s).len() > 0 ==> !crate::text::white_space(
            crate::text::trimmed_end(s).last(),
        ) && crate::text::trimmed_end(s)[0] == s[0],
        crate::text::trimmed_end(s).len() <= s.len(),
    decreases s.len(),
{
    if s.len() > 0 && crate::text::white_space(s.last()) {
        lemma_trim_of_end(s.drop_last());
    }
}

/// Trimming twice is trimming once.
pub proof fn law_trimming_is_idempotent(s: Seq<char>)
    ensures
        trimmed(trimmed(s)) == trimmed(s),
{
    lemma_trim_of_start(s);
    lemma_trim_of_end(crate::text::trimmed_start(s));
}

/// Normalising the webhook settings twice is normalising them once.
pub proof fn law_webhook_normalisation_is_idempotent(
    c: AppConfigModel,
    valid: Seq<bool>,
    again: Seq<bool>,
)
    ensures
        normalized(normalized(c, valid), again).alerts == normalized(c, valid).alerts,
{
    match c.alerts.feishu.webhook_url {
        Some(u) => law_trimming_is_idempotent(u),
        None => {},
    }
}

} // verus!
