use ict_monitor::alert::messages::{
    configured_webhook_url, desktop_body, desktop_title, display_trade_symbol, feishu_task,
    feishu_test_text, format_feishu_alert_text, inbox_topic, redact_webhook_url,
    request_failure_text, validate_configured_webhook, validate_feishu_webhook_url,
    webhook_outcome, WebhookReply,
};
use ict_monitor::alert::types::{AlertRecord, AlertTrigger, ChannelKind};
use ict_monitor::candidate::types::SetupStatus;
use ict_monitor::detector::Direction;
use ict_monitor::types::Timeframe;

fn sample_alert(trigger: AlertTrigger) -> AlertRecord {
    AlertRecord {
        id: "alert-1".to_owned(),
        watchlist_id: "eu-gu-dxy".to_owned(),
        candidate_id: "candidate-1".to_owned(),
        smt_id: "smt-1".to_owned(),
        rule_version: "alert_v1".to_owned(),
        trigger,
        setup_status: SetupStatus::C2Confirmed,
        invalidation_reason: None,
        symbol_set: vec!["TVC:DXY".to_owned(), "OANDA:EURUSD".to_owned()],
        sweeper_symbol: "TVC:DXY".to_owned(),
        trade_symbols: vec!["OANDA:EURUSD".to_owned()],
        candidate_direction: Direction::Bullish,
        deterministic_score: 83,
        c2_case: 2,
        context_timeframe: Timeframe::H4,
        comparison_timeframe: Timeframe::H1,
        validation_timeframe: Timeframe::M5,
        c2_candle_ts: 1_700_000_000_000,
        c3_candle_ts: None,
        smt_k_candle_ts: Some(1_699_999_000_000),
        context_pda_id: Some("pda-1".to_owned()),
        validation_kind: None,
        validation_symbol: Some("OANDA:EURUSD".to_owned()),
        validation_ts: None,
        validation_direction: Some(Direction::Bullish),
        channels_fired: vec![ChannelKind::Inbox, ChannelKind::FeishuNotify],
        created_at: 1_700_000_000_000,
    }
}

#[test]
fn format_feishu_alert_text_contains_required_fields() {
    let text = format_feishu_alert_text(
        &sample_alert(AlertTrigger::C2Confirmed),
        "2023-11-14 22:13:20",
    );
    assert!(text.contains("[ICT Radar] C2 confirmed"));
    assert!(text.contains("Watchlist: eu-gu-dxy"));
    assert!(text.contains("Symbol: EURUSD"));
    assert!(text.contains("Direction: Bullish"));
    assert!(text.contains("Case: 2"));
    assert!(text.contains("Score: 0.83"));
    assert!(text.contains("TF: 4h/1h/5m"));
    assert!(text.contains("C2 close:"));
    assert!(!text.contains("webhook"));
    assert!(!text.contains("entry"));
    assert!(!text.contains("sl"));
    assert!(!text.contains("tp"));
}

#[test]
fn feishu_channel_ignores_validated_alerts() {
    let task = feishu_task(&None, &sample_alert(AlertTrigger::Validated), "");
    assert!(task.unwrap().is_none());
}

#[test]
fn validates_feishu_webhook_url_shape() {
    assert!(
        validate_feishu_webhook_url("https://open.feishu.cn/open-apis/bot/v2/hook/token").is_ok()
    );
    assert!(
        validate_feishu_webhook_url("http://open.feishu.cn/open-apis/bot/v2/hook/token").is_err()
    );
    assert!(
        validate_feishu_webhook_url("https://example.com/open-apis/bot/v2/hook/token").is_err()
    );
    assert!(
        validate_feishu_webhook_url("https://open.feishu.cn/open-apis/bot/v1/hook/token").is_err()
    );
}

#[test]
fn redacts_webhook_url_token() {
    let raw = "https://open.feishu.cn/open-apis/bot/v2/hook/secret-token";
    let redacted = redact_webhook_url(raw);
    assert_ne!(redacted, raw);
    assert!(!redacted.contains("secret-token"));
    assert!(redacted.contains("<redacted>"));
}

fn reply(code: i64, msg: &str) -> Option<WebhookReply> {
    Some(WebhookReply { code, msg: Some(msg.to_string()) })
}

#[test]
fn post_text_payload_accepts_code_zero() {
    assert!(webhook_outcome(true, "200 OK", reply(0, "success")).is_ok());
}

#[test]
fn post_text_payload_rejects_business_error() {
    let error = webhook_outcome(true, "200 OK", reply(19024, "Key Words Not Found")).unwrap_err();
    assert!(error.contains("code=19024"));
}

#[test]
fn post_text_payload_rejects_non_json() {
    let error = webhook_outcome(true, "200 OK", None).unwrap_err();
    assert!(error.contains("不是合法 JSON"));
}

#[test]
fn post_text_payload_rejects_http_error() {
    let error = webhook_outcome(false, "500", reply(999, "boom")).unwrap_err();
    assert!(error.contains("status=500"));
}

#[test]
fn post_text_payload_reports_timeout_without_url() {
    assert!(request_failure_text(true, false, false, false).contains("超时"));
    assert_eq!(request_failure_text(false, true, false, false), "飞书 webhook 连接失败");
    assert_eq!(request_failure_text(false, false, true, false), "飞书 webhook 请求构造失败");
    assert_eq!(request_failure_text(false, false, false, true), "飞书 webhook 响应读取失败");
    assert_eq!(request_failure_text(false, false, false, false), "飞书 webhook 请求失败");
}

#[test]
fn a_confirmed_alert_is_queued_with_its_text() {
    let url = Some("https://open.feishu.cn/open-apis/bot/v2/hook/token".to_string());
    let alert = sample_alert(AlertTrigger::C2Confirmed);
    let task = feishu_task(&url, &alert, "now").unwrap().unwrap();
    assert_eq!(task.alert_id, "alert-1");
    assert_eq!(task.trade_symbol, "EURUSD");
    assert_eq!(task.text, format_feishu_alert_text(&alert, "now"));
    assert!(feishu_task(&None, &alert, "now").is_err());
}

#[test]
fn blank_webhooks_are_not_configured() {
    assert_eq!(configured_webhook_url(&Some("  ".to_string())), None);
    assert_eq!(
        configured_webhook_url(&Some(" https://x ".to_string())),
        Some("https://x".to_string())
    );
    assert!(validate_configured_webhook(&None).is_err());
    assert!(validate_feishu_webhook_url("not a url").is_err());
    assert!(!redact_webhook_url("not a url").contains("not a url"));
}

#[test]
fn two_tokens_are_redacted_alike() {
    let a = redact_webhook_url("https://open.feishu.cn/open-apis/bot/v2/hook/first");
    let b = redact_webhook_url("https://open.feishu.cn/open-apis/bot/v2/hook/second");
    assert_eq!(a, b);
}

#[test]
fn desktop_texts_name_the_instrument() {
    let alert = sample_alert(AlertTrigger::C2Confirmed);
    assert_eq!(display_trade_symbol(&alert), "EURUSD");
    assert!(desktop_title(&alert).contains("EURUSD"));
    assert!(!desktop_body(&alert).is_empty());
    assert_ne!(inbox_topic(AlertTrigger::C2Confirmed), inbox_topic(AlertTrigger::Validated));
    assert!(feishu_test_text("12:00").contains("12:00"));
}
