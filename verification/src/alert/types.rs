//! Alert records and the alert configuration.
use vstd::prelude::*;
use crate::candidate::types::{ExpiryReason, SetupStatus};
use crate::detector::{Direction, ReversalConfirmKind};
use crate::types::Timeframe;

verus! {

/// Version of the alert rules.
pub const ALERT_RULE_VERSION: &'static str = "alert_v1";

/// What created an inbox record.
#[derive(Clone, Copy, Debug, PartialEq, Eq, Structural)]
pub enum AlertTrigger {
    /// The sweeper and this executable instrument both confirmed their second candle.
    C2Confirmed,
    /// A later five-minute reversal. It is recorded and never notifies.
    Validated,
}

/// A channel that an alert is delivered to.
#[derive(Clone, Copy, Debug, PartialEq, Eq, Structural)]
pub enum ChannelKind {
    Inbox,
    DesktopNotify,
    FeishuNotify,
}

/// A fired alert. It holds facts only: no order, size or chosen instrument.
#[derive(Debug)]
pub struct AlertRecord {
    pub id: String,
    /// Group that the alert belongs to.
    pub watchlist_id: String,
    pub candidate_id: String,
    pub smt_id: String,
    pub rule_version: String,
    pub trigger: AlertTrigger,
    pub setup_status: SetupStatus,
    /// Why the instrument ended; refreshed from the candidate when the inbox is read.
    pub invalidation_reason: Option<ExpiryReason>,
    pub symbol_set: Vec<String>,
    pub sweeper_symbol: String,
    pub trade_symbols: Vec<String>,
    pub candidate_direction: Direction,
    /// Score in hundredths.
    pub deterministic_score: u32,
    pub c2_case: u8,
    pub context_timeframe: Timeframe,
    pub comparison_timeframe: Timeframe,
    pub validation_timeframe: Timeframe,
    pub c2_candle_ts: i64,
    pub c3_candle_ts: Option<i64>,
    pub smt_k_candle_ts: Option<i64>,
    pub context_pda_id: Option<String>,
    pub validation_kind: Option<ReversalConfirmKind>,
    pub validation_symbol: Option<String>,
    pub validation_ts: Option<i64>,
    /// Direction of the reversal on the traded instrument.
    pub validation_direction: Option<Direction>,
    pub channels_fired: Vec<ChannelKind>,
    pub created_at: i64,
}

/// Mathematical content of a [`AlertRecord`].
pub struct AlertModel {
    pub id: Seq<char>,
    pub watchlist_id: Seq<char>,
    pub candidate_id: Seq<char>,
    pub smt_id: Seq<char>,
    pub rule_version: Seq<char>,
    pub trigger: AlertTrigger,
    pub setup_status: SetupStatus,
    pub invalidation_reason: Option<ExpiryReason>,
    pub symbol_set: Seq<Seq<char>>,
    pub sweeper_symbol: Seq<char>,
    pub trade_symbols: Seq<Seq<char>>,
    pub candidate_direction: Direction,
    pub deterministic_score: u32,
    pub c2_case: u8,
    pub context_timeframe: Timeframe,
    pub comparison_timeframe: Timeframe,
    pub validation_timeframe: Timeframe,
    pub c2_candle_ts: i64,
    pub c3_candle_ts: Option<i64>,
    pub smt_k_candle_ts: Option<i64>,
    pub context_pda_id: Option<Seq<char>>,
    pub validation_kind: Option<ReversalConfirmKind>,
    pub validation_symbol: Option<Seq<char>>,
    pub validation_ts: Option<i64>,
    pub validation_direction: Option<Direction>,
    pub channels_fired: Seq<ChannelKind>,
    pub created_at: i64,
}

impl View for AlertRecord {
    type V = AlertModel;

    open spec fn view(&self) -> AlertModel {
        AlertModel {
            id: self.id@,
            watchlist_id: self.watchlist_id@,
            candidate_id: self.candidate_id@,
            smt_id: self.smt_id@,
            rule_version: self.rule_version@,
            trigger: self.trigger,
            setup_status: self.setup_status,
            invalidation_reason: self.invalidation_reason,
            symbol_set: self.symbol_set.deep_view(),
            sweeper_symbol: self.sweeper_symbol@,
            trade_symbols: self.trade_symbols.deep_view(),
            candidate_direction: self.candidate_direction,
            deterministic_score: self.deterministic_score,
            c2_case: self.c2_case,
            context_timeframe: self.context_timeframe,
            comparison_timeframe: self.comparison_timeframe,
            validation_timeframe: self.validation_timeframe,
            c2_candle_ts: self.c2_candle_ts,
            c3_candle_ts: self.c3_candle_ts,
            smt_k_candle_ts: self.smt_k_candle_ts,
            context_pda_id: self.context_pda_id.deep_view(),
            validation_kind: self.validation_kind,
            validation_symbol: self.validation_symbol.deep_view(),
            validation_ts: self.validation_ts,
            validation_direction: self.validation_direction,
            channels_fired: self.channels_fired@,
            created_at: self.created_at,
        }
    }
}

impl DeepView for AlertRecord {
    type V = AlertModel;

    open spec fn deep_view(&self) -> AlertModel {
        self@
    }
}

impl Clone for AlertRecord {
    fn clone(&self) -> (r: Self)
        ensures
            r@ == self@,
    {
        let r = AlertRecord {
            id: self.id.clone(),
            watchlist_id: self.watchlist_id.clone(),
            candidate_id: self.candidate_id.clone(),
            smt_id: self.smt_id.clone(),
            rule_version: self.rule_version.clone(),
            trigger: self.trigger,
            setup_status: self.setup_status,
            invalidation_reason: self.invalidation_reason,
            symbol_set: self.symbol_set.clone(),
            sweeper_symbol: self.sweeper_symbol.clone(),
            trade_symbols: self.trade_symbols.clone(),
            candidate_direction: self.candidate_direction,
            deterministic_score: self.deterministic_score,
            c2_case: self.c2_case,
            context_timeframe: self.context_timeframe,
            comparison_timeframe: self.comparison_timeframe,
            validation_timeframe: self.validation_timeframe,
            c2_candle_ts: self.c2_candle_ts,
            c3_candle_ts: self.c3_candle_ts,
            smt_k_candle_ts: self.smt_k_candle_ts,
            context_pda_id: self.context_pda_id.clone(),
            validation_kind: self.validation_kind,
            validation_symbol: self.validation_symbol.clone(),
            validation_ts: self.validation_ts,
            validation_direction: self.validation_direction,
            channels_fired: self.channels_fired.clone(),
            created_at: self.created_at,
        };
        assert(r.symbol_set.deep_view() =~= self.symbol_set.deep_view());
        assert(r.trade_symbols.deep_view() =~= self.trade_symbols.deep_view());
        assert(r.channels_fired@ =~= self.channels_fired@);
        r
    }
}

/// Alert settings.
#[derive(Clone, Copy, Debug, PartialEq, Eq, Structural)]
pub struct AlertConfig {
    pub enabled: bool,
    pub desktop_notify_enabled: bool,
    pub feishu_notify_enabled: bool,
    pub cooldown_seconds: i64,
}

impl Default for AlertConfig {
    /// Enabled with desktop notifications, without Feishu and without cooldown.
    fn default() -> (r: Self)
        ensures
            r == default_alert_config(),
    {
        AlertConfig {
            enabled: true,
            desktop_notify_enabled: true,
            feishu_notify_enabled: false,
            cooldown_seconds: 0,
        }
    }
}

/// The settings of a new engine.
pub open spec fn default_alert_config() -> AlertConfig {
    AlertConfig {
        enabled: true,
        desktop_notify_enabled: true,
        feishu_notify_enabled: false,
        cooldown_seconds: 0,
    }
}

} // verus!
