//! What a backtest takes in and what it finds.
use vstd::prelude::*;
use crate::detector::CandleRef;
use crate::text::owned;
use crate::types::{Bar, BarModel};

verus! {

/// Version of the evaluator.
pub const VERSION: &'static str = "m8-lite-v8";

/// One minute in milliseconds.
pub const MINUTE: i64 = 60_000;

/// A multiple of the initial risk is kept in units of a quintillionth.
pub const R_SCALE: i128 = 1_000_000_000_000_000_000;

/// How a simulated position ends.
#[derive(Clone, Copy, Debug, PartialEq, Eq, Structural)]
pub enum ExitMode {
    /// At the first target of the guardrails.
    Targets,
    /// At one, two and three times the initial risk.
    FixedR,
    /// At several multiples of a risk set by the second candle.
    UserV1,
}

impl Default for ExitMode {
    fn default() -> (r: Self)
        ensures
            r == ExitMode::Targets,
    {
        ExitMode::Targets
    }
}

/// Direction of a decision.
#[derive(Clone, Copy, Debug, PartialEq, Eq, Structural)]
pub enum TradeDirection {
    Bullish,
    Bearish,
    Neutral,
}

/// How a simulated position ended.
#[derive(Clone, Copy, Debug, PartialEq, Eq, Structural)]
pub enum Outcome {
    Win,
    Loss,
    Skip,
    Ambiguous,
    NoFill,
    Expired,
    DataGap,
    InsufficientData,
    Excluded,
}

/// The name of an outcome.
pub open spec fn outcome_words(o: Outcome) -> Seq<char> {
    match o {
        Outcome::Win => "win"@,
        Outcome::Loss => "loss"@,
        Outcome::Skip => "skip"@,
        Outcome::Ambiguous => "ambiguous"@,
        Outcome::NoFill => "no_fill"@,
        Outcome::Expired => "expired"@,
        Outcome::DataGap => "data_gap"@,
        Outcome::InsufficientData => "insufficient_data"@,
        Outcome::Excluded => "excluded"@,
    }
}

impl Outcome {
    /// The name of the outcome.
    pub fn tag(&self) -> (r: &'static str)
        ensures
            r@ == outcome_words(*self),
    {
        match self {
            Outcome::Win => "win",
            Outcome::Loss => "loss",
            Outcome::Skip => "skip",
            Outcome::Ambiguous => "ambiguous",
            Outcome::NoFill => "no_fill",
            Outcome::Expired => "expired",
            Outcome::DataGap => "data_gap",
            Outcome::InsufficientData => "insufficient_data",
            Outcome::Excluded => "excluded",
        }
    }
}

/// Prices between which a position is entered.
#[derive(Clone, Copy, Debug, PartialEq, Eq, Structural)]
pub struct EntryZone {
    pub low: i64,
    pub high: i64,
}

/// What a decision rests on: direction, entry zone, price at which the idea
/// has failed, and targets.
#[derive(Debug)]
pub struct Guardrails {
    pub direction: TradeDirection,
    pub entry_zone: Option<EntryZone>,
    pub invalidation_price: Option<i64>,
    pub targets: Vec<i64>,
}

/// Mathematical content of a [`Guardrails`].
pub struct GuardrailsModel {
    pub direction: TradeDirection,
    pub entry_zone: Option<EntryZone>,
    pub invalidation_price: Option<i64>,
    pub targets: Seq<i64>,
}

impl View for Guardrails {
    type V = GuardrailsModel;

    open spec fn view(&self) -> GuardrailsModel {
        GuardrailsModel {
            direction: self.direction,
            entry_zone: self.entry_zone,
            invalidation_price: self.invalidation_price,
            targets: self.targets@,
        }
    }
}

impl DeepView for Guardrails {
    type V = GuardrailsModel;

    open spec fn deep_view(&self) -> GuardrailsModel {
        self@
    }
}

impl Clone for Guardrails {
    fn clone(&self) -> (r: Self)
        ensures
            r@ == self@,
    {
        let r = Guardrails {
            direction: self.direction,
            entry_zone: self.entry_zone,
            invalidation_price: self.invalidation_price,
            targets: self.targets.clone(),
        };
        assert(r.targets@ =~= self.targets@);
        r
    }
}

/// What happened to a simulated position. Multiples of the risk are in units
/// of [`R_SCALE`].
#[derive(Debug)]
pub struct Simulation {
    pub outcome: Outcome,
    pub reason: String,
    pub entry: Option<i64>,
    pub entry_ts: Option<i64>,
    pub exit_ts: Option<i64>,
    pub realized_rr: Option<i128>,
    pub floating_rr: Option<i128>,
    /// Largest favourable move that is certain.
    pub mfe_rr: Option<i128>,
    /// Largest adverse move that is certain.
    pub mae_rr: Option<i128>,
    pub time_to_entry_ms: Option<i64>,
    pub time_to_target_ms: Option<i64>,
    pub time_to_stop_ms: Option<i64>,
}

/// Mathematical content of a [`Simulation`].
pub struct SimulationModel {
    pub outcome: Outcome,
    pub reason: Seq<char>,
    pub entry: Option<i64>,
    pub entry_ts: Option<i64>,
    pub exit_ts: Option<i64>,
    pub realized_rr: Option<i128>,
    pub floating_rr: Option<i128>,
    pub mfe_rr: Option<i128>,
    pub mae_rr: Option<i128>,
    pub time_to_entry_ms: Option<i64>,
    pub time_to_target_ms: Option<i64>,
    pub time_to_stop_ms: Option<i64>,
}

impl View for Simulation {
    type V = SimulationModel;

    open spec fn view(&self) -> SimulationModel {
        SimulationModel {
            outcome: self.outcome,
            reason: self.reason@,
            entry: self.entry,
            entry_ts: self.entry_ts,
            exit_ts: self.exit_ts,
            realized_rr: self.realized_rr,
            floating_rr: self.floating_rr,
            mfe_rr: self.mfe_rr,
            mae_rr: self.mae_rr,
            time_to_entry_ms: self.time_to_entry_ms,
            time_to_target_ms: self.time_to_target_ms,
            time_to_stop_ms: self.time_to_stop_ms,
        }
    }
}

impl DeepView for Simulation {
    type V = SimulationModel;

    open spec fn deep_view(&self) -> SimulationModel {
        self@
    }
}

impl Clone for Simulation {
    fn clone(&self) -> (r: Self)
        ensures
            r@ == self@,
    {
        let r = Simulation {
            outcome: self.outcome,
            reason: self.reason.clone(),
            entry: self.entry,
            entry_ts: self.entry_ts,
            exit_ts: self.exit_ts,
            realized_rr: self.realized_rr,
            floating_rr: self.floating_rr,
            mfe_rr: self.mfe_rr,
            mae_rr: self.mae_rr,
            time_to_entry_ms: self.time_to_entry_ms,
            time_to_target_ms: self.time_to_target_ms,
            time_to_stop_ms: self.time_to_stop_ms,
        };
        r
    }
}

/// A simulation that ends at a whole multiple of the risk.
#[derive(Debug)]
pub struct FixedRResult {
    pub multiple: u8,
    pub simulation: Simulation,
}

/// Mathematical content of a [`FixedRResult`].
pub struct FixedRResultModel {
    pub multiple: u8,
    pub simulation: SimulationModel,
}

impl View for FixedRResult {
    type V = FixedRResultModel;

    open spec fn view(&self) -> FixedRResultModel {
        FixedRResultModel {
            multiple: self.multiple,
            simulation: self.simulation@,
        }
    }
}

impl DeepView for FixedRResult {
    type V = FixedRResultModel;

    open spec fn deep_view(&self) -> FixedRResultModel {
        self@
    }
}

impl Clone for FixedRResult {
    fn clone(&self) -> (r: Self)
        ensures
            r@ == self@,
    {
        let r = FixedRResult {
            multiple: self.multiple,
            simulation: self.simulation.clone(),
        };
        r
    }
}

/// A simulation whose risk is set by the second candle.
#[derive(Debug)]
pub struct UserResult {
    pub buffer_points: u8,
    /// Multiple of the risk in thousandths.
    pub multiple: u32,
    pub stop: Option<i64>,
    /// Target in thousandths of a price unit.
    pub target: Option<i128>,
    /// Signed distance of the first target of the guardrails.
    pub target1_in_user_r: Option<i128>,
    pub simulation: Simulation,
}

/// Mathematical content of a [`UserResult`].
pub struct UserResultModel {
    pub buffer_points: u8,
    pub multiple: u32,
    pub stop: Option<i64>,
    pub target: Option<i128>,
    pub target1_in_user_r: Option<i128>,
    pub simulation: SimulationModel,
}

impl View for UserResult {
    type V = UserResultModel;

    open spec fn view(&self) -> UserResultModel {
        UserResultModel {
            buffer_points: self.buffer_points,
            multiple: self.multiple,
            stop: self.stop,
            target: self.target,
            target1_in_user_r: self.target1_in_user_r,
            simulation: self.simulation@,
        }
    }
}

impl DeepView for UserResult {
    type V = UserResultModel;

    open spec fn deep_view(&self) -> UserResultModel {
        self@
    }
}

impl Clone for UserResult {
    fn clone(&self) -> (r: Self)
        ensures
            r@ == self@,
    {
        let r = UserResult {
            buffer_points: self.buffer_points,
            multiple: self.multiple,
            stop: self.stop,
            target: self.target,
            target1_in_user_r: self.target1_in_user_r,
            simulation: self.simulation.clone(),
        };
        r
    }
}

/// Why the minute before an alert is missing.
#[derive(Debug)]
pub struct AnchorGap {
    pub category: String,
    pub expected_ts: i64,
    pub first_m1: Option<i64>,
    pub last_m1: Option<i64>,
    pub previous_m1: Option<i64>,
    pub next_m1: Option<i64>,
    pub comparison_close_available: bool,
}

/// Mathematical content of a [`AnchorGap`].
pub struct AnchorGapModel {
    pub category: Seq<char>,
    pub expected_ts: i64,
    pub first_m1: Option<i64>,
    pub last_m1: Option<i64>,
    pub previous_m1: Option<i64>,
    pub next_m1: Option<i64>,
    pub comparison_close_available: bool,
}

impl View for AnchorGap {
    type V = AnchorGapModel;

    open spec fn view(&self) -> AnchorGapModel {
        AnchorGapModel {
            category: self.category@,
            expected_ts: self.expected_ts,
            first_m1: self.first_m1,
            last_m1: self.last_m1,
            previous_m1: self.previous_m1,
            next_m1: self.next_m1,
            comparison_close_available: self.comparison_close_available,
        }
    }
}

impl DeepView for AnchorGap {
    type V = AnchorGapModel;

    open spec fn deep_view(&self) -> AnchorGapModel {
        self@
    }
}

impl Clone for AnchorGap {
    fn clone(&self) -> (r: Self)
        ensures
            r@ == self@,
    {
        let r = AnchorGap {
            category: self.category.clone(),
            expected_ts: self.expected_ts,
            first_m1: self.first_m1,
            last_m1: self.last_m1,
            previous_m1: self.previous_m1,
            next_m1: self.next_m1,
            comparison_close_available: self.comparison_close_available,
        };
        r
    }
}

/// Parameters of a run.
#[derive(Debug)]
pub struct Parameters {
    pub version: String,
    pub source: String,
    pub cohort: String,
    pub entry_bars: usize,
    pub holding_bars: Option<usize>,
    pub ttl_mtf_bars: usize,
    pub mode: ExitMode,
    pub guardrail_version: String,
}

/// Mathematical content of a [`Parameters`].
pub struct ParametersModel {
    pub version: Seq<char>,
    pub source: Seq<char>,
    pub cohort: Seq<char>,
    pub entry_bars: usize,
    pub holding_bars: Option<usize>,
    pub ttl_mtf_bars: usize,
    pub mode: ExitMode,
    pub guardrail_version: Seq<char>,
}

impl View for Parameters {
    type V = ParametersModel;

    open spec fn view(&self) -> ParametersModel {
        ParametersModel {
            version: self.version@,
            source: self.source@,
            cohort: self.cohort@,
            entry_bars: self.entry_bars,
            holding_bars: self.holding_bars,
            ttl_mtf_bars: self.ttl_mtf_bars,
            mode: self.mode,
            guardrail_version: self.guardrail_version@,
        }
    }
}

impl DeepView for Parameters {
    type V = ParametersModel;

    open spec fn deep_view(&self) -> ParametersModel {
        self@
    }
}

impl Clone for Parameters {
    fn clone(&self) -> (r: Self)
        ensures
            r@ == self@,
    {
        let r = Parameters {
            version: self.version.clone(),
            source: self.source.clone(),
            cohort: self.cohort.clone(),
            entry_bars: self.entry_bars,
            holding_bars: self.holding_bars,
            ttl_mtf_bars: self.ttl_mtf_bars,
            mode: self.mode,
            guardrail_version: self.guardrail_version.clone(),
        };
        r
    }
}

/// One alert and what became of it.
#[derive(Debug)]
pub struct Trade {
    pub alert_id: String,
    pub candidate_id: String,
    pub smt_id: String,
    pub watchlist_id: String,
    pub symbol: String,
    pub as_of_ts: i64,
    pub direction: String,
    pub confidence: Option<u8>,
    pub quality: String,
    pub session: String,
    pub weekly_slot: String,
    pub holding_bars: usize,
    pub data_issues: Vec<String>,
    pub available_future_m1: usize,
    pub guardrails: Option<Guardrails>,
    pub evidence_hash: Option<String>,
    pub simulation: Simulation,
    pub fixed_r: Vec<FixedRResult>,
    pub anchor_gap: Option<AnchorGap>,
    pub user_v1: Vec<UserResult>,
}

/// Mathematical content of a [`Trade`].
pub struct TradeModel {
    pub alert_id: Seq<char>,
    pub candidate_id: Seq<char>,
    pub smt_id: Seq<char>,
    pub watchlist_id: Seq<char>,
    pub symbol: Seq<char>,
    pub as_of_ts: i64,
    pub direction: Seq<char>,
    pub confidence: Option<u8>,
    pub quality: Seq<char>,
    pub session: Seq<char>,
    pub weekly_slot: Seq<char>,
    pub holding_bars: usize,
    pub data_issues: Seq<Seq<char>>,
    pub available_future_m1: usize,
    pub guardrails: Option<GuardrailsModel>,
    pub evidence_hash: Option<Seq<char>>,
    pub simulation: SimulationModel,
    pub fixed_r: Seq<FixedRResultModel>,
    pub anchor_gap: Option<AnchorGapModel>,
    pub user_v1: Seq<UserResultModel>,
}

impl View for Trade {
    type V = TradeModel;

    open spec fn view(&self) -> TradeModel {
        TradeModel {
            alert_id: self.alert_id@,
            candidate_id: self.candidate_id@,
            smt_id: self.smt_id@,
            watchlist_id: self.watchlist_id@,
            symbol: self.symbol@,
            as_of_ts: self.as_of_ts,
            direction: self.direction@,
            confidence: self.confidence,
            quality: self.quality@,
            session: self.session@,
            weekly_slot: self.weekly_slot@,
            holding_bars: self.holding_bars,
            data_issues: self.data_issues.deep_view(),
            available_future_m1: self.available_future_m1,
            guardrails: self.guardrails.deep_view(),
            evidence_hash: self.evidence_hash.deep_view(),
            simulation: self.simulation@,
            fixed_r: self.fixed_r.deep_view(),
            anchor_gap: self.anchor_gap.deep_view(),
            user_v1: self.user_v1.deep_view(),
        }
    }
}

impl DeepView for Trade {
    type V = TradeModel;

    open spec fn deep_view(&self) -> TradeModel {
        self@
    }
}

impl Clone for Trade {
    fn clone(&self) -> (r: Self)
        ensures
            r@ == self@,
    {
        let r = Trade {
            alert_id: self.alert_id.clone(),
            candidate_id: self.candidate_id.clone(),
            smt_id: self.smt_id.clone(),
            watchlist_id: self.watchlist_id.clone(),
            symbol: self.symbol.clone(),
            as_of_ts: self.as_of_ts,
            direction: self.direction.clone(),
            confidence: self.confidence,
            quality: self.quality.clone(),
            session: self.session.clone(),
            weekly_slot: self.weekly_slot.clone(),
            holding_bars: self.holding_bars,
            data_issues: self.data_issues.clone(),
            available_future_m1: self.available_future_m1,
            guardrails: self.guardrails.clone(),
            evidence_hash: self.evidence_hash.clone(),
            simulation: self.simulation.clone(),
            fixed_r: self.fixed_r.clone(),
            anchor_gap: self.anchor_gap.clone(),
            user_v1: self.user_v1.clone(),
        };
        assert(r.data_issues.deep_view() =~= self.data_issues.deep_view());
        assert(r.fixed_r.deep_view() =~= self.fixed_r.deep_view());
        assert(r.user_v1.deep_view() =~= self.user_v1.deep_view());
        r
    }
}

/// Until when the minutes of an instrument are known.
#[derive(Debug)]
pub struct SymbolCutoff {
    pub symbol: String,
    pub cutoff: i64,
}

/// Mathematical content of a [`SymbolCutoff`].
pub struct SymbolCutoffModel {
    pub symbol: Seq<char>,
    pub cutoff: i64,
}

impl View for SymbolCutoff {
    type V = SymbolCutoffModel;

    open spec fn view(&self) -> SymbolCutoffModel {
        SymbolCutoffModel {
            symbol: self.symbol@,
            cutoff: self.cutoff,
        }
    }
}

impl DeepView for SymbolCutoff {
    type V = SymbolCutoffModel;

    open spec fn deep_view(&self) -> SymbolCutoffModel {
        self@
    }
}

impl Clone for SymbolCutoff {
    fn clone(&self) -> (r: Self)
        ensures
            r@ == self@,
    {
        let r = SymbolCutoff {
            symbol: self.symbol.clone(),
            cutoff: self.cutoff,
        };
        r
    }
}

/// A finished run.
#[derive(Debug)]
pub struct Evaluation {
    pub run_id: String,
    pub parameters: Parameters,
    pub source_cutoff_ts: i64,
    /// By instrument.
    pub symbol_cutoffs: Vec<SymbolCutoff>,
    pub c2_count: usize,
    pub other_alert_count: usize,
    pub trades: Vec<Trade>,
}

/// Mathematical content of a [`Evaluation`].
pub struct EvaluationModel {
    pub run_id: Seq<char>,
    pub parameters: ParametersModel,
    pub source_cutoff_ts: i64,
    pub symbol_cutoffs: Seq<SymbolCutoffModel>,
    pub c2_count: usize,
    pub other_alert_count: usize,
    pub trades: Seq<TradeModel>,
}

impl View for Evaluation {
    type V = EvaluationModel;

    open spec fn view(&self) -> EvaluationModel {
        EvaluationModel {
            run_id: self.run_id@,
            parameters: self.parameters@,
            source_cutoff_ts: self.source_cutoff_ts,
            symbol_cutoffs: self.symbol_cutoffs.deep_view(),
            c2_count: self.c2_count,
            other_alert_count: self.other_alert_count,
            trades: self.trades.deep_view(),
        }
    }
}

impl DeepView for Evaluation {
    type V = EvaluationModel;

    open spec fn deep_view(&self) -> EvaluationModel {
        self@
    }
}

impl Clone for Evaluation {
    fn clone(&self) -> (r: Self)
        ensures
            r@ == self@,
    {
        let r = Evaluation {
            run_id: self.run_id.clone(),
            parameters: self.parameters.clone(),
            source_cutoff_ts: self.source_cutoff_ts,
            symbol_cutoffs: self.symbol_cutoffs.clone(),
            c2_count: self.c2_count,
            other_alert_count: self.other_alert_count,
            trades: self.trades.clone(),
        };
        assert(r.symbol_cutoffs.deep_view() =~= self.symbol_cutoffs.deep_view());
        assert(r.trades.deep_view() =~= self.trades.deep_view());
        r
    }
}

/// What the stored data says about one alert.
#[derive(Debug)]
pub struct TradeFacts {
    pub guardrails: Guardrails,
    pub direction: String,
    pub confidence: u8,
    pub quality: String,
    pub evidence_hash: String,
    /// Opening time of the newest minute of the instrument.
    pub cutoff: i64,
    /// Close of the minute before the alert.
    pub anchor_close: Option<i64>,
    pub first_m1: Option<i64>,
    pub last_m1: Option<i64>,
    pub previous_m1: Option<i64>,
    pub next_m1: Option<i64>,
    pub comparison_close_available: bool,
    /// Minutes of the instrument in order of time.
    pub bars: Vec<Bar>,
    /// Second candle as far as it was confirmed at the alert.
    pub confirmed_c2: Option<CandleRef>,
    /// Size of one point of the instrument.
    pub point: i64,
}

/// Mathematical content of a [`TradeFacts`].
pub struct TradeFactsModel {
    pub guardrails: GuardrailsModel,
    pub direction: Seq<char>,
    pub confidence: u8,
    pub quality: Seq<char>,
    pub evidence_hash: Seq<char>,
    pub cutoff: i64,
    pub anchor_close: Option<i64>,
    pub first_m1: Option<i64>,
    pub last_m1: Option<i64>,
    pub previous_m1: Option<i64>,
    pub next_m1: Option<i64>,
    pub comparison_close_available: bool,
    pub bars: Seq<BarModel>,
    pub confirmed_c2: Option<CandleRef>,
    pub point: i64,
}

impl View for TradeFacts {
    type V = TradeFactsModel;

    open spec fn view(&self) -> TradeFactsModel {
        TradeFactsModel {
            guardrails: self.guardrails@,
            direction: self.direction@,
            confidence: self.confidence,
            quality: self.quality@,
            evidence_hash: self.evidence_hash@,
            cutoff: self.cutoff,
            anchor_close: self.anchor_close,
            first_m1: self.first_m1,
            last_m1: self.last_m1,
            previous_m1: self.previous_m1,
            next_m1: self.next_m1,
            comparison_close_available: self.comparison_close_available,
            bars: self.bars.deep_view(),
            confirmed_c2: self.confirmed_c2,
            point: self.point,
        }
    }
}

impl DeepView for TradeFacts {
    type V = TradeFactsModel;

    open spec fn deep_view(&self) -> TradeFactsModel {
        self@
    }
}

impl Clone for TradeFacts {
    fn clone(&self) -> (r: Self)
        ensures
            r@ == self@,
    {
        let r = TradeFacts {
            guardrails: self.guardrails.clone(),
            direction: self.direction.clone(),
            confidence: self.confidence,
            quality: self.quality.clone(),
            evidence_hash: self.evidence_hash.clone(),
            cutoff: self.cutoff,
            anchor_close: self.anchor_close,
            first_m1: self.first_m1,
            last_m1: self.last_m1,
            previous_m1: self.previous_m1,
            next_m1: self.next_m1,
            comparison_close_available: self.comparison_close_available,
            bars: self.bars.clone(),
            confirmed_c2: self.confirmed_c2,
            point: self.point,
        };
        assert(r.bars.deep_view() =~= self.bars.deep_view());
        r
    }
}

/// A simulation in which nothing happened.
pub open spec fn nothing(outcome: Outcome, reason: Seq<char>) -> SimulationModel {
    SimulationModel {
        outcome,
        reason,
        entry: None,
        entry_ts: None,
        exit_ts: None,
        realized_rr: None,
        floating_rr: None,
        mfe_rr: None,
        mae_rr: None,
        time_to_entry_ms: None,
        time_to_target_ms: None,
        time_to_stop_ms: None,
    }
}

impl Simulation {
    /// A simulation in which nothing happened.
    pub fn empty(outcome: Outcome, reason: &str) -> (r: Self)
        ensures
            r@ == nothing(outcome, reason@),
    {
        Simulation {
            outcome,
            reason: owned(reason),
            entry: None,
            entry_ts: None,
            exit_ts: None,
            realized_rr: None,
            floating_rr: None,
            mfe_rr: None,
            mae_rr: None,
            time_to_entry_ms: None,
            time_to_target_ms: None,
            time_to_stop_ms: None,
        }
    }
}

} // verus!
