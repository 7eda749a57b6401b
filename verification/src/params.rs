//! Settings that the interface changes at run time and that are stored as
//! text.
use vstd::prelude::*;
use crate::alert::engine::{AlertEngine, AlertEngineModel};
use crate::alert::types::AlertConfig;
use crate::candidate::engine::{CandidateEngine, EngineModel};
use crate::text::{
    all_digits, chars_of, decimal, decimal_text, digits, digits_text, digits_value, lemma_digits,
    owned, parse_digits, text_eq,
};

verus! {

/// The value of a setting.
#[derive(Debug)]
pub enum ParamValue {
    Flag(bool),
    /// A whole number that is not negative.
    Whole(u64),
    /// A negative whole number.
    Negative(i64),
    /// Any other number.
    Real,
    Text(String),
    /// Nothing, a list or an object.
    Other,
}

/// Mathematical content of a [`ParamValue`].
pub enum ParamModel {
    Flag(bool),
    Whole(u64),
    Negative(i64),
    Real,
    Text(Seq<char>),
    Other,
}

impl View for ParamValue {
    type V = ParamModel;

    open spec fn view(&self) -> ParamModel {
        match *self {
            ParamValue::Flag(b) => ParamModel::Flag(b),
            ParamValue::Whole(n) => ParamModel::Whole(n),
            ParamValue::Negative(n) => ParamModel::Negative(n),
            ParamValue::Real => ParamModel::Real,
            ParamValue::Text(s) => ParamModel::Text(s@),
            ParamValue::Other => ParamModel::Other,
        }
    }
}

impl DeepView for ParamValue {
    type V = ParamModel;

    open spec fn deep_view(&self) -> ParamModel {
        self@
    }
}

/// The value as a signed whole number.
pub open spec fn signed(v: ParamModel) -> Option<i64> {
    match v {
        ParamModel::Whole(n) => if n <= i64::MAX {
            Some(n as i64)
        } else {
            None
        },
        ParamModel::Negative(n) => Some(n),
        _ => None,
    }
}

fn as_signed(v: &ParamValue) -> (r: Option<i64>)
    ensures
        r == signed(v@),
{
    match v {
        ParamValue::Whole(n) => if *n <= i64::MAX as u64 {
            Some(*n as i64)
        } else {
            None
        },
        ParamValue::Negative(n) => Some(*n),
        _ => None,
    }
}

/// The alert settings after one was changed. A setting with a wrong type or
/// an unknown name changes nothing.
pub open spec fn alert_param(c: AlertConfig, key: Seq<char>, v: ParamModel) -> AlertConfig {
    if key == "enabled"@ {
        match v {
            ParamModel::Flag(b) => AlertConfig { enabled: b, ..c },
            _ => c,
        }
    } else if key == "desktop_notify_enabled"@ {
        match v {
            ParamModel::Flag(b) => AlertConfig { desktop_notify_enabled: b, ..c },
            _ => c,
        }
    } else if key == "feishu_notify_enabled"@ {
        match v {
            ParamModel::Flag(b) => AlertConfig { feishu_notify_enabled: b, ..c },
            _ => c,
        }
    } else if key == "cooldown_seconds"@ {
        match signed(v) {
            Some(n) => AlertConfig { cooldown_seconds: n, ..c },
            None => c,
        }
    } else {
        c
    }
}

/// Changes one alert setting.
pub fn apply_alert_param(alerts: &mut AlertEngine, key: &str, value: &ParamValue)
    ensures
        final(alerts)@ == (AlertEngineModel {
            config: alert_param(old(alerts)@.config, key@, value@),
            ..old(alerts)@
        }),
{
    let flag: Option<bool> = match value {
        ParamValue::Flag(b) => Some(*b),
        _ => None,
    };
    if text_eq(key, "enabled") {
        match flag {
            Some(b) => alerts.set_enabled(b),
            None => {},
        }
    } else if text_eq(key, "desktop_notify_enabled") {
        match flag {
            Some(b) => alerts.set_desktop_notify(b),
            None => {},
        }
    } else if text_eq(key, "feishu_notify_enabled") {
        match flag {
            Some(b) => alerts.set_feishu_notify(b),
            None => {},
        }
    } else if text_eq(key, "cooldown_seconds") {
        match as_signed(value) {
            Some(n) => alerts.set_cooldown_seconds(n),
            None => {},
        }
    }
}

/// The deadline that a candidate setting asks for.
pub open spec fn wanted_deadline(key: Seq<char>, v: ParamModel) -> Option<u64> {
    match v {
        ParamModel::Whole(n) => if key == "expiry_mtf_bars"@ && n <= usize::MAX {
            Some(n)
        } else {
            None
        },
        _ => None,
    }
}

/// Changes one candidate setting and counts what was changed.
pub fn apply_candidate_param(candidates: &mut CandidateEngine, key: &str, value: &ParamValue) -> (r:
    usize)
    ensures
        match wanted_deadline(key@, value@) {
            Some(n) => r == 1 && final(candidates)@ == (EngineModel {
                expiry_mtf_bars: if n < 1 {
                    1
                } else {
                    n as int
                },
                ..old(candidates)@
            }),
            None => r == 0 && final(candidates)@ == old(candidates)@,
        },
{
    match value {
        ParamValue::Whole(n) => {
            if text_eq(key, "expiry_mtf_bars") && *n <= usize::MAX as u64 {
                candidates.set_expiry_mtf_bars(*n as usize);
                return 1;
            }
            0
        },
        _ => 0,
    }
}

/// A setting with its value.
#[derive(Debug)]
pub struct ParamUpdate {
    pub key: String,
    pub value: ParamValue,
}

/// The alert settings after several changes.
pub open spec fn alert_params(c: AlertConfig, updates: Seq<ParamUpdate>) -> AlertConfig
    decreases updates.len(),
{
    if updates.len() == 0 {
        c
    } else {
        alert_param(
            alert_params(c, updates.drop_last()),
            updates.last().key@,
            updates.last().value@,
        )
    }
}

/// Changes several alert settings.
pub fn apply_alert_params(alerts: &mut AlertEngine, updates: &Vec<ParamUpdate>)
    ensures
        final(alerts)@ == (AlertEngineModel {
            config: alert_params(old(alerts)@.config, updates@),
            ..old(alerts)@
        }),
{
    let mut i: usize = 0;
    while i < updates.len()
        invariant
            i <= updates.len(),
            alerts@ == (AlertEngineModel {
                config: alert_params(old(alerts)@.config, updates@.take(i as int)),
                ..old(alerts)@
            }),
        decreases updates.len() - i,
    {
        proof {
            let now = updates@.take(i + 1);
            assert(now.drop_last() =~= updates@.take(i as int));
            assert(now.last() == updates@[i as int]);
        }
        apply_alert_param(alerts, updates[i].key.as_str(), &updates[i].value);
        i += 1;
    }
    assert(updates@.take(i as int) =~= updates@);
}

/// The deadline after several changes, and how many there were.
pub open spec fn deadline_after(bars: int, updates: Seq<ParamUpdate>) -> (int, nat)
    decreases updates.len(),
{
    if updates.len() == 0 {
        (bars, 0)
    } else {
        let rest = deadline_after(bars, updates.drop_last());
        match wanted_deadline(updates.last().key@, updates.last().value@) {
            Some(n) => (
                if n < 1 {
                    1
                } else {
                    n as int
                },
                rest.1 + 1,
            ),
            None => rest,
        }
    }
}

/// Changes several candidate settings and counts what was changed.
pub fn apply_candidate_params(candidates: &mut CandidateEngine, updates: &Vec<ParamUpdate>) -> (r:
    usize)
    ensures
        r == deadline_after(old(candidates)@.expiry_mtf_bars, updates@).1,
        final(candidates)@ == (EngineModel {
            expiry_mtf_bars: deadline_after(old(candidates)@.expiry_mtf_bars, updates@).0,
            ..old(candidates)@
        }),
{
    let mut i: usize = 0;
    let mut n: usize = 0;
    while i < updates.len()
        invariant
            i <= updates.len(),
            n <= i,
            n == deadline_after(old(candidates)@.expiry_mtf_bars, updates@.take(i as int)).1,
            candidates@ == (EngineModel {
                expiry_mtf_bars: deadline_after(
                    old(candidates)@.expiry_mtf_bars,
                    updates@.take(i as int),
                ).0,
                ..old(candidates)@
            }),
        decreases updates.len() - i,
    {
        proof {
            let now = updates@.take(i + 1);
            assert(now.drop_last() =~= updates@.take(i as int));
            assert(now.last() == updates@[i as int]);
        }
        let one: usize = apply_candidate_param(
            candidates,
            updates[i].key.as_str(),
            &updates[i].value,
        );
        n += one;
        i += 1;
    }
    assert(updates@.take(i as int) =~= updates@);
    n
}

/// Applies saved settings to the engine that they are named after: candidates
/// or alerts. Says how many were applied, or nothing where the settings belong
/// to a detector.
pub fn apply_saved_params(
    detector: &str,
    updates: &Vec<ParamUpdate>,
    candidates: &mut CandidateEngine,
    alerts: &mut AlertEngine,
) -> (r: Option<usize>)
    ensures
        final(candidates)@ == if detector@ == "candidate"@ {
            EngineModel {
                expiry_mtf_bars: deadline_after(old(candidates)@.expiry_mtf_bars, updates@).0,
                ..old(candidates)@
            }
        } else {
            old(candidates)@
        },
        final(alerts)@ == if detector@ == "alert"@ {
            AlertEngineModel {
                config: alert_params(old(alerts)@.config, updates@),
                ..old(alerts)@
            }
        } else {
            old(alerts)@
        },
        r == if detector@ == "candidate"@ {
            Some(deadline_after(old(candidates)@.expiry_mtf_bars, updates@).1 as usize)
        } else if detector@ == "alert"@ {
            Some(updates.len())
        } else {
            None
        },
{
    if text_eq(detector, "candidate") {
        proof {
            reveal_strlit("candidate");
            reveal_strlit("alert");
            assert("candidate"@.len() != "alert"@.len());
        }
        Some(apply_candidate_params(candidates, updates))
    } else if text_eq(detector, "alert") {
        apply_alert_params(alerts, updates);
        Some(updates.len())
    } else {
        None
    }
}

/// The whole number that a text writes in decimal, with a minus sign where it
/// is negative; nothing where the text is no whole number or does not fit.
pub open spec fn whole_in(text: Seq<char>) -> Option<ParamModel> {
    if text.len() > 0 && text[0] == '-' {
        let d = text.skip(1);
        if d.len() > 0 && all_digits(d) && digits_value(d) <= i64::MAX as nat + 1 {
            Some(whole_model(-(digits_value(d) as int)))
        } else {
            None
        }
    } else if text.len() > 0 && all_digits(text) && digits_value(text) <= u64::MAX {
        Some(whole_model(digits_value(text) as int))
    } else {
        None
    }
}

/// A whole number as a value.
pub open spec fn whole_model(n: int) -> ParamModel {
    if n < 0 {
        ParamModel::Negative(n as i64)
    } else {
        ParamModel::Whole(n as u64)
    }
}

fn parse_whole(text: &str) -> (r: Option<ParamValue>)
    ensures
        r.deep_view() == whole_in(text@),
{
    let chars = chars_of(text);
    if chars.len() > 0 && chars[0] == '-' {
        match parse_digits(&chars, 1) {
            Some(n) => if n == 0 {
                Some(ParamValue::Whole(0))
            } else if n <= i64::MAX as u64 {
                Some(ParamValue::Negative(-(n as i64)))
            } else if n == 9223372036854775808u64 {
                Some(ParamValue::Negative(i64::MIN))
            } else {
                None
            },
            None => None,
        }
    } else {
        assert(chars@.skip(0) =~= chars@);
        match parse_digits(&chars, 0) {
            Some(n) => Some(ParamValue::Whole(n)),
            None => None,
        }
    }
}

/// The value that a stored text stands for: a flag, a whole number, any other
/// number, or else the text itself. `is_number` says whether the text reads as
/// a number of any kind.
pub open spec fn value_of(text: Seq<char>, is_number: bool) -> ParamModel {
    if text == "true"@ {
        ParamModel::Flag(true)
    } else if text == "false"@ {
        ParamModel::Flag(false)
    } else {
        match whole_in(text) {
            Some(n) => n,
            None => if is_number {
                ParamModel::Real
            } else {
                ParamModel::Text(text)
            },
        }
    }
}

/// Reads a stored value.
pub fn read_value(text: &str, is_number: bool) -> (r: ParamValue)
    ensures
        r@ == value_of(text@, is_number),
{
    if text_eq(text, "true") {
        return ParamValue::Flag(true);
    }
    if text_eq(text, "false") {
        return ParamValue::Flag(false);
    }
    match parse_whole(text) {
        Some(n) => n,
        None => if is_number {
            ParamValue::Real
        } else {
            ParamValue::Text(owned(text))
        },
    }
}

/// The text that a value is stored as. `printed` is the text of a value that
/// is neither a flag nor a text nor a whole number.
pub open spec fn text_for(value: ParamModel, printed: Seq<char>) -> Seq<char> {
    match value {
        ParamModel::Flag(b) => if b {
            "true"@
        } else {
            "false"@
        },
        ParamModel::Whole(n) => decimal(n as int),
        ParamModel::Negative(n) => decimal(n as int),
        ParamModel::Text(s) => s,
        _ => printed,
    }
}

/// Writes the text that a value is stored as.
pub fn stored_text(value: &ParamValue, printed: &str) -> (r: String)
    ensures
        r@ == text_for(value@, printed@),
{
    match value {
        ParamValue::Flag(b) => if *b {
            owned("true")
        } else {
            owned("false")
        },
        ParamValue::Whole(n) => digits_text(*n),
        ParamValue::Negative(n) => decimal_text(*n),
        ParamValue::Text(s) => owned(s.as_str()),
        _ => owned(printed),
    }
}

/// A stored whole number is read back as the same number.
pub proof fn law_whole_numbers_are_read_back(v: ParamModel, printed: Seq<char>, is_number: bool)
    requires
        v is Whole || (v is Negative && v->Negative_0 < 0),
    ensures
        value_of(text_for(v, printed), is_number) == v,
{
    reveal_strlit("true");
    reveal_strlit("false");
    let n: int = match v {
        ParamModel::Whole(n) => n as int,
        ParamModel::Negative(n) => n as int,
        _ => 0,
    };
    let text = text_for(v, printed);
    if n < 0 {
        lemma_digits((-n) as nat);
        assert(text.skip(1) =~= digits((-n) as nat));
        assert(text[0] == '-');
    } else {
        lemma_digits(n as nat);
        assert('0' <= text[0] && text[0] <= '9');
    }
    assert(text[0] != 't' && text[0] != 'f');
    assert("true"@[0] == 't' && "false"@[0] == 'f');
}

/// A stored flag is read back as the same flag.
pub proof fn law_flags_are_read_back(b: bool, is_number: bool)
    ensures
        value_of(
            if b {
                "true"@
            } else {
                "false"@
            },
            is_number,
        ) == ParamModel::Flag(b),
{
    reveal_strlit("true");
    reveal_strlit("false");
    assert("true"@.len() == 4 && "false"@.len() == 5);
}

/// Settings with a wrong type or an unknown name change nothing.
pub proof fn law_bad_settings_are_ignored(c: AlertConfig, key: Seq<char>, v: ParamModel)
    ensures
        key != "enabled"@ && key != "desktop_notify_enabled"@ && key != "feishu_notify_enabled"@
            && key != "cooldown_seconds"@ ==> alert_param(c, key, v) == c,
        v is Real || v is Text || v is Other ==> alert_param(c, key, v) == c && wanted_deadline(
            key,
            v,
        ) is None,
{
}

/// Why a test notification is not sent: alerts are off, or the channel is.
/// `settings` holds both switches, where a group runs.
pub open spec fn test_complaint(settings: Option<(bool, bool)>, channel_off: Seq<char>) -> Option<
    Seq<char>,
> {
    match settings {
        Some((true, true)) => None,
        Some((true, false)) => Some(channel_off),
        _ => Some("告警总开关已关闭，请在 Alerts 设置中打开后再测试"@),
    }
}

fn test_gate(settings: Option<(bool, bool)>, channel_off: &str) -> (r: Result<(), String>)
    ensures
        match r {
            Ok(_) => test_complaint(settings, channel_off@) is None,
            Err(e) => test_complaint(settings, channel_off@) == Some(e@),
        },
{
    match settings {
        Some((true, true)) => Ok(()),
        Some((true, false)) => Err(owned(channel_off)),
        _ => Err(owned("告警总开关已关闭，请在 Alerts 设置中打开后再测试")),
    }
}

/// Whether a test notification may be shown on the desktop.
pub fn test_desktop_notification(settings: Option<(bool, bool)>) -> (r: Result<(), String>)
    ensures
        match r {
            Ok(_) => test_complaint(
                settings,
                "桌面通知已关闭，请在 Alerts 设置中打开后再测试"@,
            ) is None,
            Err(e) => test_complaint(
                settings,
                "桌面通知已关闭，请在 Alerts 设置中打开后再测试"@,
            ) == Some(e@),
        },
{
    test_gate(settings, "桌面通知已关闭，请在 Alerts 设置中打开后再测试")
}

/// Whether a test message may be sent to Feishu.
pub fn test_feishu_notification(settings: Option<(bool, bool)>) -> (r: Result<(), String>)
    ensures
        match r {
            Ok(_) => test_complaint(
                settings,
                "飞书通知已关闭，请在 Alerts 设置中打开后再测试"@,
            ) is None,
            Err(e) => test_complaint(
                settings,
                "飞书通知已关闭，请在 Alerts 设置中打开后再测试"@,
            ) == Some(e@),
        },
{
    test_gate(settings, "飞书通知已关闭，请在 Alerts 设置中打开后再测试")
}

} // verus!
