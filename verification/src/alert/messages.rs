//! What the notifying channels say, and how the Feishu webhook is checked.
use vstd::prelude::*;
use crate::alert::records::{direction_text, direction_words};
use crate::alert::types::{AlertModel, AlertRecord, AlertTrigger};
use crate::detector::Direction;
use crate::text::{
    begins_with, decimal, hundredths, join, joined, last_part, owned, push_decimal, push_hundredths,
    short_name, starts_with, text_eq, trim, trimmed,
};
use crate::types::tag_text;

verus! {

/// Path under which Feishu serves the webhooks of group bots.
pub const FEISHU_HOOK_PATH_PREFIX: &'static str = "/open-apis/bot/v2/hook/";

/// Scheme, host and path of a text that is a URL.
pub struct UrlParts {
    pub scheme: String,
    pub host: Option<String>,
    pub path: String,
}

/// Mathematical content of [`UrlParts`].
pub struct UrlPartsModel {
    pub scheme: Seq<char>,
    pub host: Option<Seq<char>>,
    pub path: Seq<char>,
}

impl View for UrlParts {
    type V = UrlPartsModel;

    open spec fn view(&self) -> UrlPartsModel {
        UrlPartsModel {
            scheme: self.scheme@,
            host: self.host.deep_view(),
            path: self.path@,
        }
    }
}

impl DeepView for UrlParts {
    type V = UrlPartsModel;

    open spec fn deep_view(&self) -> UrlPartsModel {
        self@
    }
}

/// Scheme, host and path of a text, where it is an absolute URL.
pub uninterp spec fn url_parts_of(text: Seq<char>) -> Option<UrlPartsModel>;

/// Parses a text with `url::Url::parse` and takes its `scheme`, `host_str` and
/// `path`. Claimed of it: whether the text is a URL, and its parts, are a
/// function of the text.
#[verifier::external_body]
fn parse_url(text: &str) -> (r: Option<UrlParts>)
    ensures
        r.deep_view() == url_parts_of(text@),
{
    match url::Url::parse(text) {
        Ok(url) => Some(UrlParts {
            scheme: url.scheme().to_owned(),
            host: url.host_str().map(|h| h.to_owned()),
            path: url.path().to_owned(),
        }),
        Err(_) => None,
    }
}

/// What is wrong with the parts of a webhook URL.
pub open spec fn parts_complaint(parts: Option<UrlPartsModel>) -> Option<Seq<char>> {
    match parts {
        None => Some("飞书 webhook URL 格式无效"@),
        Some(p) => if p.scheme != "https"@ {
            Some("飞书 webhook URL 必须使用 https"@)
        } else if p.host != Some("open.feishu.cn"@) {
            Some("飞书 webhook URL host 必须是 open.feishu.cn"@)
        } else if !begins_with(p.path, FEISHU_HOOK_PATH_PREFIX@) || p.path
            == FEISHU_HOOK_PATH_PREFIX@ {
            Some("飞书 webhook URL path 必须以 "@ + FEISHU_HOOK_PATH_PREFIX@ + " 开头"@)
        } else {
            None
        },
    }
}

/// What is wrong with a webhook URL.
pub open spec fn webhook_complaint(url: Seq<char>) -> Option<Seq<char>> {
    if trimmed(url).len() == 0 {
        Some("飞书 webhook URL 未配置"@)
    } else {
        parts_complaint(url_parts_of(trimmed(url)))
    }
}

/// A result that reports a complaint, or success where there is none.
pub open spec fn reports(r: Result<(), String>, complaint: Option<Seq<char>>) -> bool {
    match r {
        Ok(_) => complaint is None,
        Err(e) => complaint == Some(e@),
    }
}

/// Checks the parts of a webhook URL: HTTPS, the Feishu host, and a token
/// behind the hook path.
pub fn validate_webhook_parts(parts: &Option<UrlParts>) -> (r: Result<(), String>)
    ensures
        reports(r, parts_complaint(parts.deep_view())),
{
    let p = match parts {
        Some(p) => p,
        None => return Err(owned("飞书 webhook URL 格式无效")),
    };
    if !text_eq(p.scheme.as_str(), "https") {
        return Err(owned("飞书 webhook URL 必须使用 https"));
    }
    let right_host = match &p.host {
        Some(h) => text_eq(h.as_str(), "open.feishu.cn"),
        None => false,
    };
    if !right_host {
        return Err(owned("飞书 webhook URL host 必须是 open.feishu.cn"));
    }
    if !starts_with(p.path.as_str(), FEISHU_HOOK_PATH_PREFIX) || text_eq(
        p.path.as_str(),
        FEISHU_HOOK_PATH_PREFIX,
    ) {
        let mut message = owned("飞书 webhook URL path 必须以 ");
        message.append(FEISHU_HOOK_PATH_PREFIX);
        message.append(" 开头");
        return Err(message);
    }
    Ok(())
}

/// Checks a webhook URL.
pub fn validate_feishu_webhook_url(webhook_url: &str) -> (r: Result<(), String>)
    ensures
        reports(r, webhook_complaint(webhook_url@)),
{
    let url = trim(webhook_url);
    if text_eq(url.as_str(), "") {
        proof {
            reveal_strlit("");
        }
        return Err(owned("飞书 webhook URL 未配置"));
    }
    proof {
        reveal_strlit("");
        assert(url@.len() == 0 ==> url@ =~= ""@);
    }
    let parts = parse_url(url.as_str());
    validate_webhook_parts(&parts)
}

/// The configured webhook URL: trimmed, and absent where nothing is left.
pub open spec fn configured_url(url: Option<Seq<char>>) -> Option<Seq<char>> {
    match url {
        Some(u) => if trimmed(u).len() == 0 {
            None
        } else {
            Some(trimmed(u))
        },
        None => None,
    }
}

/// The configured webhook URL, if there is one.
pub fn configured_webhook_url(url: &Option<String>) -> (r: Option<String>)
    ensures
        r.deep_view() == configured_url(url.deep_view()),
{
    match url {
        Some(u) => {
            let t = trim(u.as_str());
            proof {
                reveal_strlit("");
                assert(t@.len() == 0 ==> t@ =~= ""@);
            }
            if text_eq(t.as_str(), "") {
                None
            } else {
                Some(t)
            }
        },
        None => None,
    }
}

/// What is wrong with the configured webhook URL.
pub open spec fn configured_complaint(url: Option<Seq<char>>) -> Option<Seq<char>> {
    match configured_url(url) {
        Some(u) => webhook_complaint(u),
        None => Some("飞书 webhook URL 未配置，请先在 config.toml 中填写"@),
    }
}

/// Checks the configured webhook URL.
pub fn validate_configured_webhook(url: &Option<String>) -> (r: Result<(), String>)
    ensures
        reports(r, configured_complaint(url.deep_view())),
{
    match configured_webhook_url(url) {
        Some(u) => validate_feishu_webhook_url(u.as_str()),
        None => Err(owned("飞书 webhook URL 未配置，请先在 config.toml 中填写")),
    }
}

/// The parts of a URL without its secret path.
pub open spec fn redacted_parts(parts: Option<UrlPartsModel>) -> Seq<char> {
    match parts {
        Some(p) => p.scheme + "://"@ + (match p.host {
            Some(h) => h,
            None => "unknown-host"@,
        }) + (if begins_with(p.path, FEISHU_HOOK_PATH_PREFIX@) {
            FEISHU_HOOK_PATH_PREFIX@ + "<redacted>"@
        } else {
            "/<redacted>"@
        }),
        None => "<redacted webhook url>"@,
    }
}

/// Writes the parts of a URL without its secret path.
pub fn redact_parts(parts: &Option<UrlParts>) -> (r: String)
    ensures
        r@ == redacted_parts(parts.deep_view()),
{
    match parts {
        Some(p) => {
            let mut out = p.scheme.clone();
            out.append("://");
            match &p.host {
                Some(h) => out.append(h.as_str()),
                None => out.append("unknown-host"),
            }
            if starts_with(p.path.as_str(), FEISHU_HOOK_PATH_PREFIX) {
                out.append(FEISHU_HOOK_PATH_PREFIX);
                out.append("<redacted>");
            } else {
                out.append("/<redacted>");
            }
            assert(out@ =~= redacted_parts(parts.deep_view()));
            out
        },
        None => owned("<redacted webhook url>"),
    }
}

/// Writes a webhook URL without its token.
pub fn redact_webhook_url(webhook_url: &str) -> (r: String)
    ensures
        r@ == redacted_parts(url_parts_of(webhook_url@)),
{
    let parts = parse_url(webhook_url);
    redact_parts(&parts)
}

/// Two URLs with the same scheme, host and hook prefix are written alike:
/// nothing of the token is left.
pub proof fn law_redaction_hides_the_token(a: UrlPartsModel, b: UrlPartsModel)
    requires
        a.scheme == b.scheme,
        a.host == b.host,
        begins_with(a.path, FEISHU_HOOK_PATH_PREFIX@) == begins_with(
            b.path,
            FEISHU_HOOK_PATH_PREFIX@,
        ),
    ensures
        redacted_parts(Some(a)) == redacted_parts(Some(b)),
{
}

/// The instrument that a message names: the first traded one, else the
/// validated one, without its exchange.
pub open spec fn displayed_symbol(a: AlertModel) -> Seq<char> {
    if a.trade_symbols.len() > 0 {
        last_part(a.trade_symbols[0])
    } else {
        match a.validation_symbol {
            Some(s) => last_part(s),
            None => "unknown"@,
        }
    }
}

/// The instrument that a message names.
pub fn display_trade_symbol(alert: &AlertRecord) -> (r: String)
    ensures
        r@ == displayed_symbol(alert@),
{
    if alert.trade_symbols.len() > 0 {
        short_name(alert.trade_symbols[0].as_str())
    } else {
        match &alert.validation_symbol {
            Some(s) => short_name(s.as_str()),
            None => owned("unknown"),
        }
    }
}

/// The Feishu message of an alert; `close` is the local time of the candle's
/// close.
pub open spec fn feishu_text(a: AlertModel, close: Seq<char>) -> Seq<char> {
    "[ICT Radar] C2 confirmed\nWatchlist: "@ + a.watchlist_id + "\nSymbol: "@ + displayed_symbol(a)
        + "\nDirection: "@ + direction_words(a.candidate_direction) + "\nCase: "@ + decimal(
        a.c2_case as int,
    ) + " · Score: "@ + hundredths(a.deterministic_score as nat) + "\nTF: "@ + tag_text(
        a.context_timeframe,
    ) + "/"@ + tag_text(a.comparison_timeframe) + "/"@ + tag_text(a.validation_timeframe)
        + "\nC2 close: "@ + close
}

/// Writes the Feishu message of an alert.
pub fn format_feishu_alert_text(alert: &AlertRecord, close: &str) -> (r: String)
    ensures
        r@ == feishu_text(alert@, close@),
{
    let mut out = owned("[ICT Radar] C2 confirmed\nWatchlist: ");
    out.append(alert.watchlist_id.as_str());
    out.append("\nSymbol: ");
    out.append(display_trade_symbol(alert).as_str());
    out.append("\nDirection: ");
    out.append(direction_text(alert.candidate_direction));
    out.append("\nCase: ");
    push_decimal(&mut out, alert.c2_case as i64);
    out.append(" · Score: ");
    push_hundredths(&mut out, alert.deterministic_score as u64);
    out.append("\nTF: ");
    out.append(alert.context_timeframe.tag());
    out.append("/");
    out.append(alert.comparison_timeframe.tag());
    out.append("/");
    out.append(alert.validation_timeframe.tag());
    out.append("\nC2 close: ");
    out.append(close);
    out
}

/// A message waiting to be sent.
pub struct FeishuSendTask {
    pub alert_id: String,
    pub watchlist_id: String,
    pub trade_symbol: String,
    pub text: String,
}

/// The message to queue for an alert: none for a reversal record, an error
/// where the webhook is not usable.
pub fn feishu_task(url: &Option<String>, alert: &AlertRecord, close: &str) -> (r: Result<
    Option<FeishuSendTask>,
    String,
>)
    ensures
        match r {
            Err(e) => alert.trigger is C2Confirmed && configured_complaint(url.deep_view())
                == Some(e@),
            Ok(None) => !(alert.trigger is C2Confirmed),
            Ok(Some(task)) => {
                &&& alert.trigger is C2Confirmed
                &&& configured_complaint(url.deep_view()) is None
                &&& task.alert_id@ == alert@.id
                &&& task.watchlist_id@ == alert@.watchlist_id
                &&& task.trade_symbol@ == displayed_symbol(alert@)
                &&& task.text@ == feishu_text(alert@, close@)
            },
        },
{
    if !matches!(alert.trigger, AlertTrigger::C2Confirmed) {
        return Ok(None);
    }
    match validate_configured_webhook(url) {
        Ok(()) => {},
        Err(e) => return Err(e),
    }
    Ok(
        Some(
            FeishuSendTask {
                alert_id: alert.id.clone(),
                watchlist_id: alert.watchlist_id.clone(),
                trade_symbol: display_trade_symbol(alert),
                text: format_feishu_alert_text(alert, close),
            },
        ),
    )
}

/// The message that tests the webhook; `now` is the local time.
pub fn feishu_test_text(now: &str) -> (r: String)
    ensures
        r@ == "[ICT Radar] Test alert\nFeishu webhook connected\nTime: "@ + now@,
{
    let mut out = owned("[ICT Radar] Test alert\nFeishu webhook connected\nTime: ");
    out.append(now);
    out
}

/// What Feishu answers to a message.
pub struct WebhookReply {
    pub code: i64,
    pub msg: Option<String>,
}

/// What is wrong with the answer to a message: the HTTP status first, then the
/// form of the answer, then its code.
pub open spec fn reply_complaint(
    success: bool,
    status: Seq<char>,
    reply: Option<(i64, Option<Seq<char>>)>,
) -> Option<Seq<char>> {
    if !success {
        Some("飞书 webhook HTTP 失败: status="@ + status)
    } else {
        match reply {
            None => Some("飞书 webhook 响应不是合法 JSON"@),
            Some((code, msg)) => if code == 0 {
                None
            } else {
                Some(
                    "飞书 webhook 业务失败: code="@ + decimal(code as int) + ", msg="@ + (match msg {
                        Some(m) => m,
                        None => "<empty>"@,
                    }),
                )
            },
        }
    }
}

/// Judges the answer to a message. `status` is the HTTP status as text and
/// `reply` the parsed body, absent where it is not JSON.
pub fn webhook_outcome(success: bool, status: &str, reply: Option<WebhookReply>) -> (r: Result<
    (),
    String,
>)
    ensures
        reports(
            r,
            reply_complaint(
                success,
                status@,
                match reply {
                    Some(w) => Some((w.code, w.msg.deep_view())),
                    None => None,
                },
            ),
        ),
{
    if !success {
        let mut out = owned("飞书 webhook HTTP 失败: status=");
        out.append(status);
        return Err(out);
    }
    match reply {
        None => Err(owned("飞书 webhook 响应不是合法 JSON")),
        Some(w) => {
            if w.code == 0 {
                return Ok(());
            }
            let mut out = owned("飞书 webhook 业务失败: code=");
            push_decimal(&mut out, w.code);
            out.append(", msg=");
            match &w.msg {
                Some(m) => out.append(m.as_str()),
                None => out.append("<empty>"),
            }
            Err(out)
        },
    }
}

/// What a failed request is reported as; the causes are tried in order.
pub open spec fn failure_words(timeout: bool, connect: bool, request: bool, reading: bool) -> Seq<
    char,
> {
    if timeout {
        "飞书 webhook 请求超时"@
    } else if connect {
        "飞书 webhook 连接失败"@
    } else if request {
        "飞书 webhook 请求构造失败"@
    } else if reading {
        "飞书 webhook 响应读取失败"@
    } else {
        "飞书 webhook 请求失败"@
    }
}

/// Reports a failed request without naming the URL.
pub fn request_failure_text(timeout: bool, connect: bool, request: bool, reading: bool) -> (r:
    &'static str)
    ensures
        r@ == failure_words(timeout, connect, request, reading),
{
    if timeout {
        "飞书 webhook 请求超时"
    } else if connect {
        "飞书 webhook 连接失败"
    } else if request {
        "飞书 webhook 请求构造失败"
    } else if reading {
        "飞书 webhook 响应读取失败"
    } else {
        "飞书 webhook 请求失败"
    }
}

/// The short name of a group, where it has one.
pub open spec fn group_words(watchlist_id: Seq<char>) -> Seq<char> {
    if watchlist_id == "eu-gu-dxy"@ {
        "EU/GU"@
    } else if watchlist_id == "aud-nzd-dxy"@ {
        "AUD/NZD"@
    } else if watchlist_id == "chf-cad-dxy"@ {
        "CHF/CAD"@
    } else {
        watchlist_id
    }
}

/// The instruments without their exchanges.
pub open spec fn short_names_of(symbols: Seq<Seq<char>>) -> Seq<Seq<char>> {
    Seq::new(symbols.len(), |k: int| last_part(symbols[k]))
}

/// Title of the desktop notification of an alert.
pub open spec fn desktop_title_of(a: AlertModel) -> Seq<char> {
    "["@ + group_words(a.watchlist_id) + "] "@ + joined(short_names_of(a.trade_symbols), " / "@)
        + " C2 已确认 "@ + (match a.candidate_direction {
        Direction::Bullish => "↑"@,
        Direction::Bearish => "↓"@,
    })
}

/// Title of the desktop notification of an alert.
pub fn desktop_title(alert: &AlertRecord) -> (r: String)
    ensures
        r@ == desktop_title_of(alert@),
{
    let mut names: Vec<String> = Vec::new();
    let mut i: usize = 0;
    while i < alert.trade_symbols.len()
        invariant
            i <= alert.trade_symbols.len(),
            names.len() == i,
            forall|k: int|
                0 <= k < i ==> #[trigger] names@[k]@ == last_part(alert.trade_symbols@[k]@),
        decreases alert.trade_symbols.len() - i,
    {
        names.push(short_name(alert.trade_symbols[i].as_str()));
        i += 1;
    }
    assert(names.deep_view() =~= short_names_of(alert@.trade_symbols));
    let mut out = owned("[");
    if text_eq(alert.watchlist_id.as_str(), "eu-gu-dxy") {
        out.append("EU/GU");
    } else if text_eq(alert.watchlist_id.as_str(), "aud-nzd-dxy") {
        out.append("AUD/NZD");
    } else if text_eq(alert.watchlist_id.as_str(), "chf-cad-dxy") {
        out.append("CHF/CAD");
    } else {
        out.append(alert.watchlist_id.as_str());
    }
    out.append("] ");
    out.append(join(&names, " / ").as_str());
    out.append(" C2 已确认 ");
    match alert.candidate_direction {
        Direction::Bullish => out.append("↑"),
        Direction::Bearish => out.append("↓"),
    }
    out
}

/// Text of the desktop notification of an alert.
pub open spec fn desktop_body_of(a: AlertModel) -> Seq<char> {
    "请打开图表确认进场时机 · Case "@ + decimal(a.c2_case as int) + " · 评分 "@ + hundredths(
        a.deterministic_score as nat,
    )
}

/// Text of the desktop notification of an alert.
pub fn desktop_body(alert: &AlertRecord) -> (r: String)
    ensures
        r@ == desktop_body_of(alert@),
{
    let mut out = owned("请打开图表确认进场时机 · Case ");
    push_decimal(&mut out, alert.c2_case as i64);
    out.append(" · 评分 ");
    push_hundredths(&mut out, alert.deterministic_score as u64);
    out
}

/// The event that a stored record is announced under.
pub open spec fn topic_of(trigger: AlertTrigger) -> Seq<char> {
    match trigger {
        AlertTrigger::C2Confirmed => "ict:alert:fired"@,
        AlertTrigger::Validated => "ict:reversal:recorded"@,
    }
}

/// The event that a stored record is announced under.
pub fn inbox_topic(trigger: AlertTrigger) -> (r: &'static str)
    ensures
        r@ == topic_of(trigger),
{
    match trigger {
        AlertTrigger::C2Confirmed => "ict:alert:fired",
        AlertTrigger::Validated => "ict:reversal:recorded",
    }
}

} // verus!
