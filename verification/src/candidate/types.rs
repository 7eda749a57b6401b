//! Trade candidates, their validations and their decision log.
use vstd::prelude::*;
use crate::detector::{
    CandleRef, Direction, IctStructure, IctStructureModel, LiquidityRef, LiquidityRefModel, PdaRef,
    PdaRefModel, ReversalConfirmKind, SmtDivergence, SmtModel, StrengthLabel, StrengthLabelModel,
};
use crate::types::{Bar, BarModel, Timeframe};

verus! {

/// Kind of setup that a candidate stands for.
#[derive(Clone, Copy, Debug, PartialEq, Eq, Structural)]
pub enum SetupType {
    Smt,
}

/// Structural lifecycle of a candidate.
#[derive(Clone, Copy, Debug, PartialEq, Eq, Structural)]
pub enum SetupStatus {
    /// Spawned: the divergence reached its second candle inside a price area.
    C2Confirmed,
    /// A lower-timeframe reversal confirmed an executable instrument.
    Validated,
    /// The deadline passed without validation; kept for manual review.
    ReCheck,
    /// The deadline passed after validation.
    Expired,
    /// Reversed, broken beyond the second candle, or the divergence ended.
    Invalidated,
}

/// Decision lifecycle of a candidate.
#[derive(Clone, Copy, Debug, PartialEq, Eq, Structural)]
pub enum DecisionStatus {
    New,
    LlmPending,
    Approved,
    Rejected,
    Expired,
}

/// Why a candidate or one of its legs ended.
#[derive(Clone, Copy, Debug, PartialEq, Eq, Structural)]
pub enum ExpiryReason {
    Ttl,
    Reverse,
    C2Break,
    SmtInvalidated,
}

/// Who decides.
#[derive(Clone, Copy, Debug, PartialEq, Eq, Structural)]
pub enum DecisionMode {
    Deterministic,
    LlmSingleCall,
    MultiAgent,
}

/// Why one executable leg ended.
#[derive(Debug)]
pub struct SymbolReason {
    pub symbol: String,
    pub reason: ExpiryReason,
}

/// Mathematical content of a [`SymbolReason`].
pub struct SymbolReasonModel {
    pub symbol: Seq<char>,
    pub reason: ExpiryReason,
}

impl View for SymbolReason {
    type V = SymbolReasonModel;

    open spec fn view(&self) -> SymbolReasonModel {
        SymbolReasonModel {
            symbol: self.symbol@,
            reason: self.reason,
        }
    }
}

impl DeepView for SymbolReason {
    type V = SymbolReasonModel;

    open spec fn deep_view(&self) -> SymbolReasonModel {
        self@
    }
}

impl Clone for SymbolReason {
    fn clone(&self) -> (r: Self)
        ensures
            r@ == self@,
    {
        let r = SymbolReason {
            symbol: self.symbol.clone(),
            reason: self.reason,
        };
        r
    }
}

/// A five-minute reversal.
#[derive(Debug)]
pub struct LtfEventRef {
    pub id: String,
    pub symbol: String,
    pub kind: ReversalConfirmKind,
    pub direction: Direction,
    pub ts: i64,
    pub price: i64,
}

/// Mathematical content of a [`LtfEventRef`].
pub struct LtfEventModel {
    pub id: Seq<char>,
    pub symbol: Seq<char>,
    pub kind: ReversalConfirmKind,
    pub direction: Direction,
    pub ts: i64,
    pub price: i64,
}

impl View for LtfEventRef {
    type V = LtfEventModel;

    open spec fn view(&self) -> LtfEventModel {
        LtfEventModel {
            id: self.id@,
            symbol: self.symbol@,
            kind: self.kind,
            direction: self.direction,
            ts: self.ts,
            price: self.price,
        }
    }
}

impl DeepView for LtfEventRef {
    type V = LtfEventModel;

    open spec fn deep_view(&self) -> LtfEventModel {
        self@
    }
}

impl Clone for LtfEventRef {
    fn clone(&self) -> (r: Self)
        ensures
            r@ == self@,
    {
        let r = LtfEventRef {
            id: self.id.clone(),
            symbol: self.symbol.clone(),
            kind: self.kind,
            direction: self.direction,
            ts: self.ts,
            price: self.price,
        };
        r
    }
}

/// First accepted reversal of one executable instrument.
#[derive(Debug)]
pub struct SymbolValidation {
    pub event_id: String,
    pub symbol: String,
    pub kind: ReversalConfirmKind,
    pub direction: Direction,
    pub ts: i64,
    pub price: i64,
}

/// Mathematical content of a [`SymbolValidation`].
pub struct ValidationModel {
    pub event_id: Seq<char>,
    pub symbol: Seq<char>,
    pub kind: ReversalConfirmKind,
    pub direction: Direction,
    pub ts: i64,
    pub price: i64,
}

impl View for SymbolValidation {
    type V = ValidationModel;

    open spec fn view(&self) -> ValidationModel {
        ValidationModel {
            event_id: self.event_id@,
            symbol: self.symbol@,
            kind: self.kind,
            direction: self.direction,
            ts: self.ts,
            price: self.price,
        }
    }
}

impl DeepView for SymbolValidation {
    type V = ValidationModel;

    open spec fn deep_view(&self) -> ValidationModel {
        self@
    }
}

impl Clone for SymbolValidation {
    fn clone(&self) -> (r: Self)
        ensures
            r@ == self@,
    {
        let r = SymbolValidation {
            event_id: self.event_id.clone(),
            symbol: self.symbol.clone(),
            kind: self.kind,
            direction: self.direction,
            ts: self.ts,
            price: self.price,
        };
        r
    }
}

/// A trade candidate spawned from a confirmed divergence. It holds facts,
/// evidence and status only: no order, size or chosen instrument.
#[derive(Debug)]
pub struct CandidateSetup {
    pub id: String,
    pub rule_version: String,
    pub watchlist_id: String,
    pub smt_id: String,
    pub setup_type: SetupType,
    pub symbol_set: Vec<String>,
    pub sweeper_symbol: String,
    pub trade_symbols: Vec<String>,
    pub candidate_direction: Direction,
    pub context_timeframe: Timeframe,
    pub comparison_timeframe: Timeframe,
    pub validation_timeframe: Timeframe,
    pub context_pda_id: Option<String>,
    pub observation_window: (i64, i64),
    pub c1_candle: CandleRef,
    pub smt_k_candle: CandleRef,
    pub c2_candle: CandleRef,
    pub c2_case: u8,
    pub c3_candle: Option<CandleRef>,
    pub c2_cisd_event_ids: Vec<String>,
    pub c3_cisd_event_ids: Vec<String>,
    /// Summary of the earliest validation.
    pub validation_kind: Option<ReversalConfirmKind>,
    pub validation_symbol: Option<String>,
    pub validation_ts: Option<i64>,
    /// Direction on `validation_symbol`, which is inverse to the candidate where the
    /// instrument moves against the sweeper.
    pub validation_direction: Option<Direction>,
    /// One first accepted reversal per executable instrument, in time order.
    pub validations: Vec<SymbolValidation>,
    /// Legs that ended before validation.
    pub invalidated_symbols: Vec<String>,
    /// Why each leg ended; the first reason stays.
    pub symbol_invalidation_reasons: Vec<SymbolReason>,
    pub setup_status: SetupStatus,
    pub decision_status: DecisionStatus,
    /// Score in hundredths.
    pub deterministic_score: u32,
    pub created_at: i64,
    pub validated_at: Option<i64>,
    pub expired_at: Option<i64>,
    pub invalidated_at: Option<i64>,
    pub expiry_reason: Option<ExpiryReason>,
    pub strength: Vec<StrengthLabel>,
    /// Deadline; absent until the third candle is known.
    pub expiry_at: Option<i64>,
    pub smt_rule_version: String,
}

/// Mathematical content of a [`CandidateSetup`].
pub struct CandidateModel {
    pub id: Seq<char>,
    pub rule_version: Seq<char>,
    pub watchlist_id: Seq<char>,
    pub smt_id: Seq<char>,
    pub setup_type: SetupType,
    pub symbol_set: Seq<Seq<char>>,
    pub sweeper_symbol: Seq<char>,
    pub trade_symbols: Seq<Seq<char>>,
    pub candidate_direction: Direction,
    pub context_timeframe: Timeframe,
    pub comparison_timeframe: Timeframe,
    pub validation_timeframe: Timeframe,
    pub context_pda_id: Option<Seq<char>>,
    pub observation_window: (i64, i64),
    pub c1_candle: CandleRef,
    pub smt_k_candle: CandleRef,
    pub c2_candle: CandleRef,
    pub c2_case: u8,
    pub c3_candle: Option<CandleRef>,
    pub c2_cisd_event_ids: Seq<Seq<char>>,
    pub c3_cisd_event_ids: Seq<Seq<char>>,
    pub validation_kind: Option<ReversalConfirmKind>,
    pub validation_symbol: Option<Seq<char>>,
    pub validation_ts: Option<i64>,
    pub validation_direction: Option<Direction>,
    pub validations: Seq<ValidationModel>,
    pub invalidated_symbols: Seq<Seq<char>>,
    pub symbol_invalidation_reasons: Seq<SymbolReasonModel>,
    pub setup_status: SetupStatus,
    pub decision_status: DecisionStatus,
    pub deterministic_score: u32,
    pub created_at: i64,
    pub validated_at: Option<i64>,
    pub expired_at: Option<i64>,
    pub invalidated_at: Option<i64>,
    pub expiry_reason: Option<ExpiryReason>,
    pub strength: Seq<StrengthLabelModel>,
    pub expiry_at: Option<i64>,
    pub smt_rule_version: Seq<char>,
}

impl View for CandidateSetup {
    type V = CandidateModel;

    open spec fn view(&self) -> CandidateModel {
        CandidateModel {
            id: self.id@,
            rule_version: self.rule_version@,
            watchlist_id: self.watchlist_id@,
            smt_id: self.smt_id@,
            setup_type: self.setup_type,
            symbol_set: self.symbol_set.deep_view(),
            sweeper_symbol: self.sweeper_symbol@,
            trade_symbols: self.trade_symbols.deep_view(),
            candidate_direction: self.candidate_direction,
            context_timeframe: self.context_timeframe,
            comparison_timeframe: self.comparison_timeframe,
            validation_timeframe: self.validation_timeframe,
            context_pda_id: self.context_pda_id.deep_view(),
            observation_window: self.observation_window,
            c1_candle: self.c1_candle,
            smt_k_candle: self.smt_k_candle,
            c2_candle: self.c2_candle,
            c2_case: self.c2_case,
            c3_candle: self.c3_candle,
            c2_cisd_event_ids: self.c2_cisd_event_ids.deep_view(),
            c3_cisd_event_ids: self.c3_cisd_event_ids.deep_view(),
            validation_kind: self.validation_kind,
            validation_symbol: self.validation_symbol.deep_view(),
            validation_ts: self.validation_ts,
            validation_direction: self.validation_direction,
            validations: self.validations.deep_view(),
            invalidated_symbols: self.invalidated_symbols.deep_view(),
            symbol_invalidation_reasons: self.symbol_invalidation_reasons.deep_view(),
            setup_status: self.setup_status,
            decision_status: self.decision_status,
            deterministic_score: self.deterministic_score,
            created_at: self.created_at,
            validated_at: self.validated_at,
            expired_at: self.expired_at,
            invalidated_at: self.invalidated_at,
            expiry_reason: self.expiry_reason,
            strength: self.strength.deep_view(),
            expiry_at: self.expiry_at,
            smt_rule_version: self.smt_rule_version@,
        }
    }
}

impl DeepView for CandidateSetup {
    type V = CandidateModel;

    open spec fn deep_view(&self) -> CandidateModel {
        self@
    }
}

impl Clone for CandidateSetup {
    fn clone(&self) -> (r: Self)
        ensures
            r@ == self@,
    {
        let r = CandidateSetup {
            id: self.id.clone(),
            rule_version: self.rule_version.clone(),
            watchlist_id: self.watchlist_id.clone(),
            smt_id: self.smt_id.clone(),
            setup_type: self.setup_type,
            symbol_set: self.symbol_set.clone(),
            sweeper_symbol: self.sweeper_symbol.clone(),
            trade_symbols: self.trade_symbols.clone(),
            candidate_direction: self.candidate_direction,
            context_timeframe: self.context_timeframe,
            comparison_timeframe: self.comparison_timeframe,
            validation_timeframe: self.validation_timeframe,
            context_pda_id: self.context_pda_id.clone(),
            observation_window: self.observation_window,
            c1_candle: self.c1_candle,
            smt_k_candle: self.smt_k_candle,
            c2_candle: self.c2_candle,
            c2_case: self.c2_case,
            c3_candle: self.c3_candle,
            c2_cisd_event_ids: self.c2_cisd_event_ids.clone(),
            c3_cisd_event_ids: self.c3_cisd_event_ids.clone(),
            validation_kind: self.validation_kind,
            validation_symbol: self.validation_symbol.clone(),
            validation_ts: self.validation_ts,
            validation_direction: self.validation_direction,
            validations: self.validations.clone(),
            invalidated_symbols: self.invalidated_symbols.clone(),
            symbol_invalidation_reasons: self.symbol_invalidation_reasons.clone(),
            setup_status: self.setup_status,
            decision_status: self.decision_status,
            deterministic_score: self.deterministic_score,
            created_at: self.created_at,
            validated_at: self.validated_at,
            expired_at: self.expired_at,
            invalidated_at: self.invalidated_at,
            expiry_reason: self.expiry_reason,
            strength: self.strength.clone(),
            expiry_at: self.expiry_at,
            smt_rule_version: self.smt_rule_version.clone(),
        };
        assert(r.symbol_set.deep_view() =~= self.symbol_set.deep_view());
        assert(r.trade_symbols.deep_view() =~= self.trade_symbols.deep_view());
        assert(r.c2_cisd_event_ids.deep_view() =~= self.c2_cisd_event_ids.deep_view());
        assert(r.c3_cisd_event_ids.deep_view() =~= self.c3_cisd_event_ids.deep_view());
        assert(r.validations.deep_view() =~= self.validations.deep_view());
        assert(r.invalidated_symbols.deep_view() =~= self.invalidated_symbols.deep_view());
        assert(r.symbol_invalidation_reasons.deep_view() =~= self.symbol_invalidation_reasons.deep_view());
        assert(r.strength.deep_view() =~= self.strength.deep_view());
        r
    }
}

/// What a decision log row says about the state of a candidate.
#[derive(Debug)]
pub struct ParsedDecision {
    pub validated: bool,
    pub deterministic_score: u32,
    pub setup_status: String,
    pub validation_kind: Option<String>,
    pub validations: Vec<SymbolValidation>,
    pub invalidated_symbols: Vec<String>,
    pub symbol_invalidation_reasons: Vec<SymbolReason>,
    pub c2_cisd_event_ids: Vec<String>,
    pub c3_cisd_event_ids: Vec<String>,
}

/// Mathematical content of a [`ParsedDecision`].
pub struct ParsedDecisionModel {
    pub validated: bool,
    pub deterministic_score: u32,
    pub setup_status: Seq<char>,
    pub validation_kind: Option<Seq<char>>,
    pub validations: Seq<ValidationModel>,
    pub invalidated_symbols: Seq<Seq<char>>,
    pub symbol_invalidation_reasons: Seq<SymbolReasonModel>,
    pub c2_cisd_event_ids: Seq<Seq<char>>,
    pub c3_cisd_event_ids: Seq<Seq<char>>,
}

impl View for ParsedDecision {
    type V = ParsedDecisionModel;

    open spec fn view(&self) -> ParsedDecisionModel {
        ParsedDecisionModel {
            validated: self.validated,
            deterministic_score: self.deterministic_score,
            setup_status: self.setup_status@,
            validation_kind: self.validation_kind.deep_view(),
            validations: self.validations.deep_view(),
            invalidated_symbols: self.invalidated_symbols.deep_view(),
            symbol_invalidation_reasons: self.symbol_invalidation_reasons.deep_view(),
            c2_cisd_event_ids: self.c2_cisd_event_ids.deep_view(),
            c3_cisd_event_ids: self.c3_cisd_event_ids.deep_view(),
        }
    }
}

impl DeepView for ParsedDecision {
    type V = ParsedDecisionModel;

    open spec fn deep_view(&self) -> ParsedDecisionModel {
        self@
    }
}

impl Clone for ParsedDecision {
    fn clone(&self) -> (r: Self)
        ensures
            r@ == self@,
    {
        let r = ParsedDecision {
            validated: self.validated,
            deterministic_score: self.deterministic_score,
            setup_status: self.setup_status.clone(),
            validation_kind: self.validation_kind.clone(),
            validations: self.validations.clone(),
            invalidated_symbols: self.invalidated_symbols.clone(),
            symbol_invalidation_reasons: self.symbol_invalidation_reasons.clone(),
            c2_cisd_event_ids: self.c2_cisd_event_ids.clone(),
            c3_cisd_event_ids: self.c3_cisd_event_ids.clone(),
        };
        assert(r.validations.deep_view() =~= self.validations.deep_view());
        assert(r.invalidated_symbols.deep_view() =~= self.invalidated_symbols.deep_view());
        assert(r.symbol_invalidation_reasons.deep_view() =~= self.symbol_invalidation_reasons.deep_view());
        assert(r.c2_cisd_event_ids.deep_view() =~= self.c2_cisd_event_ids.deep_view());
        assert(r.c3_cisd_event_ids.deep_view() =~= self.c3_cisd_event_ids.deep_view());
        r
    }
}

/// The evidence for a candidate at one point in market time.
#[derive(Debug)]
pub struct PackedEvidence {
    pub candidate_id: String,
    pub candidate: CandidateSetup,
    pub watchlist_id: String,
    pub alert_id: Option<String>,
    pub trade_symbol: Option<String>,
    pub as_of_ts: i64,
    pub smt: SmtDivergence,
    pub ltf_cisd_mss: Vec<LtfEventRef>,
    pub pda_context: Option<PdaRef>,
    pub liquidity_refs: Vec<LiquidityRef>,
    pub strength: Vec<StrengthLabel>,
    pub context_version: String,
    pub strategy_version: String,
    pub market_bars: Vec<Bar>,
    pub market_structures: Vec<IctStructure>,
}

/// Mathematical content of a [`PackedEvidence`].
pub struct EvidenceModel {
    pub candidate_id: Seq<char>,
    pub candidate: CandidateModel,
    pub watchlist_id: Seq<char>,
    pub alert_id: Option<Seq<char>>,
    pub trade_symbol: Option<Seq<char>>,
    pub as_of_ts: i64,
    pub smt: SmtModel,
    pub ltf_cisd_mss: Seq<LtfEventModel>,
    pub pda_context: Option<PdaRefModel>,
    pub liquidity_refs: Seq<LiquidityRefModel>,
    pub strength: Seq<StrengthLabelModel>,
    pub context_version: Seq<char>,
    pub strategy_version: Seq<char>,
    pub market_bars: Seq<BarModel>,
    pub market_structures: Seq<IctStructureModel>,
}

impl View for PackedEvidence {
    type V = EvidenceModel;

    open spec fn view(&self) -> EvidenceModel {
        EvidenceModel {
            candidate_id: self.candidate_id@,
            candidate: self.candidate@,
            watchlist_id: self.watchlist_id@,
            alert_id: self.alert_id.deep_view(),
            trade_symbol: self.trade_symbol.deep_view(),
            as_of_ts: self.as_of_ts,
            smt: self.smt@,
            ltf_cisd_mss: self.ltf_cisd_mss.deep_view(),
            pda_context: self.pda_context.deep_view(),
            liquidity_refs: self.liquidity_refs.deep_view(),
            strength: self.strength.deep_view(),
            context_version: self.context_version@,
            strategy_version: self.strategy_version@,
            market_bars: self.market_bars.deep_view(),
            market_structures: self.market_structures.deep_view(),
        }
    }
}

impl DeepView for PackedEvidence {
    type V = EvidenceModel;

    open spec fn deep_view(&self) -> EvidenceModel {
        self@
    }
}

impl Clone for PackedEvidence {
    fn clone(&self) -> (r: Self)
        ensures
            r@ == self@,
    {
        let r = PackedEvidence {
            candidate_id: self.candidate_id.clone(),
            candidate: self.candidate.clone(),
            watchlist_id: self.watchlist_id.clone(),
            alert_id: self.alert_id.clone(),
            trade_symbol: self.trade_symbol.clone(),
            as_of_ts: self.as_of_ts,
            smt: self.smt.clone(),
            ltf_cisd_mss: self.ltf_cisd_mss.clone(),
            pda_context: self.pda_context.clone(),
            liquidity_refs: self.liquidity_refs.clone(),
            strength: self.strength.clone(),
            context_version: self.context_version.clone(),
            strategy_version: self.strategy_version.clone(),
            market_bars: self.market_bars.clone(),
            market_structures: self.market_structures.clone(),
        };
        assert(r.ltf_cisd_mss.deep_view() =~= self.ltf_cisd_mss.deep_view());
        assert(r.liquidity_refs.deep_view() =~= self.liquidity_refs.deep_view());
        assert(r.strength.deep_view() =~= self.strength.deep_view());
        assert(r.market_bars.deep_view() =~= self.market_bars.deep_view());
        assert(r.market_structures.deep_view() =~= self.market_structures.deep_view());
        r
    }
}

/// What a decision strategy answers.
#[derive(Debug)]
pub struct DecisionRecord {
    pub provider: String,
    pub model: Option<String>,
    pub decision_mode: DecisionMode,
    pub prompt_version: Option<String>,
    pub strategy_version: String,
    pub context_version: String,
    pub request: PackedEvidence,
    pub raw_response: Option<String>,
    pub parsed_decision: ParsedDecision,
    pub parse_ok: bool,
    pub error: Option<String>,
}

/// Mathematical content of a [`DecisionRecord`].
pub struct DecisionRecordModel {
    pub provider: Seq<char>,
    pub model: Option<Seq<char>>,
    pub decision_mode: DecisionMode,
    pub prompt_version: Option<Seq<char>>,
    pub strategy_version: Seq<char>,
    pub context_version: Seq<char>,
    pub request: EvidenceModel,
    pub raw_response: Option<Seq<char>>,
    pub parsed_decision: ParsedDecisionModel,
    pub parse_ok: bool,
    pub error: Option<Seq<char>>,
}

impl View for DecisionRecord {
    type V = DecisionRecordModel;

    open spec fn view(&self) -> DecisionRecordModel {
        DecisionRecordModel {
            provider: self.provider@,
            model: self.model.deep_view(),
            decision_mode: self.decision_mode,
            prompt_version: self.prompt_version.deep_view(),
            strategy_version: self.strategy_version@,
            context_version: self.context_version@,
            request: self.request@,
            raw_response: self.raw_response.deep_view(),
            parsed_decision: self.parsed_decision@,
            parse_ok: self.parse_ok,
            error: self.error.deep_view(),
        }
    }
}

impl DeepView for DecisionRecord {
    type V = DecisionRecordModel;

    open spec fn deep_view(&self) -> DecisionRecordModel {
        self@
    }
}

impl Clone for DecisionRecord {
    fn clone(&self) -> (r: Self)
        ensures
            r@ == self@,
    {
        let r = DecisionRecord {
            provider: self.provider.clone(),
            model: self.model.clone(),
            decision_mode: self.decision_mode,
            prompt_version: self.prompt_version.clone(),
            strategy_version: self.strategy_version.clone(),
            context_version: self.context_version.clone(),
            request: self.request.clone(),
            raw_response: self.raw_response.clone(),
            parsed_decision: self.parsed_decision.clone(),
            parse_ok: self.parse_ok,
            error: self.error.clone(),
        };
        r
    }
}

/// One row of the decision log per state change.
#[derive(Debug)]
pub struct DecisionLogEntry {
    pub id: String,
    pub candidate_id: String,
    pub watchlist_id: String,
    pub alert_id: Option<String>,
    pub trade_symbol: Option<String>,
    pub parent_id: Option<String>,
    pub provider: String,
    pub model: Option<String>,
    pub decision_mode: DecisionMode,
    pub prompt_version: Option<String>,
    pub strategy_version: String,
    pub context_version: String,
    pub request: PackedEvidence,
    pub raw_response: Option<String>,
    pub parsed_decision: ParsedDecision,
    pub parse_ok: bool,
    pub error: Option<String>,
    pub created_at: i64,
}

/// Mathematical content of a [`DecisionLogEntry`].
pub struct DecisionModel {
    pub id: Seq<char>,
    pub candidate_id: Seq<char>,
    pub watchlist_id: Seq<char>,
    pub alert_id: Option<Seq<char>>,
    pub trade_symbol: Option<Seq<char>>,
    pub parent_id: Option<Seq<char>>,
    pub provider: Seq<char>,
    pub model: Option<Seq<char>>,
    pub decision_mode: DecisionMode,
    pub prompt_version: Option<Seq<char>>,
    pub strategy_version: Seq<char>,
    pub context_version: Seq<char>,
    pub request: EvidenceModel,
    pub raw_response: Option<Seq<char>>,
    pub parsed_decision: ParsedDecisionModel,
    pub parse_ok: bool,
    pub error: Option<Seq<char>>,
    pub created_at: i64,
}

impl View for DecisionLogEntry {
    type V = DecisionModel;

    open spec fn view(&self) -> DecisionModel {
        DecisionModel {
            id: self.id@,
            candidate_id: self.candidate_id@,
            watchlist_id: self.watchlist_id@,
            alert_id: self.alert_id.deep_view(),
            trade_symbol: self.trade_symbol.deep_view(),
            parent_id: self.parent_id.deep_view(),
            provider: self.provider@,
            model: self.model.deep_view(),
            decision_mode: self.decision_mode,
            prompt_version: self.prompt_version.deep_view(),
            strategy_version: self.strategy_version@,
            context_version: self.context_version@,
            request: self.request@,
            raw_response: self.raw_response.deep_view(),
            parsed_decision: self.parsed_decision@,
            parse_ok: self.parse_ok,
            error: self.error.deep_view(),
            created_at: self.created_at,
        }
    }
}

impl DeepView for DecisionLogEntry {
    type V = DecisionModel;

    open spec fn deep_view(&self) -> DecisionModel {
        self@
    }
}

impl Clone for DecisionLogEntry {
    fn clone(&self) -> (r: Self)
        ensures
            r@ == self@,
    {
        let r = DecisionLogEntry {
            id: self.id.clone(),
            candidate_id: self.candidate_id.clone(),
            watchlist_id: self.watchlist_id.clone(),
            alert_id: self.alert_id.clone(),
            trade_symbol: self.trade_symbol.clone(),
            parent_id: self.parent_id.clone(),
            provider: self.provider.clone(),
            model: self.model.clone(),
            decision_mode: self.decision_mode,
            prompt_version: self.prompt_version.clone(),
            strategy_version: self.strategy_version.clone(),
            context_version: self.context_version.clone(),
            request: self.request.clone(),
            raw_response: self.raw_response.clone(),
            parsed_decision: self.parsed_decision.clone(),
            parse_ok: self.parse_ok,
            error: self.error.clone(),
            created_at: self.created_at,
        };
        r
    }
}

/// A state change: the candidate as it is now and the row to log.
#[derive(Debug)]
pub struct CandidateChange {
    pub candidate: CandidateSetup,
    pub decision: DecisionLogEntry,
    /// Set only where this change accepted the first reversal of an instrument.
    pub validation_event: Option<SymbolValidation>,
}

/// Mathematical content of a [`CandidateChange`].
pub struct ChangeModel {
    pub candidate: CandidateModel,
    pub decision: DecisionModel,
    pub validation_event: Option<ValidationModel>,
}

impl View for CandidateChange {
    type V = ChangeModel;

    open spec fn view(&self) -> ChangeModel {
        ChangeModel {
            candidate: self.candidate@,
            decision: self.decision@,
            validation_event: self.validation_event.deep_view(),
        }
    }
}

impl DeepView for CandidateChange {
    type V = ChangeModel;

    open spec fn deep_view(&self) -> ChangeModel {
        self@
    }
}

impl Clone for CandidateChange {
    fn clone(&self) -> (r: Self)
        ensures
            r@ == self@,
    {
        let r = CandidateChange {
            candidate: self.candidate.clone(),
            decision: self.decision.clone(),
            validation_event: self.validation_event.clone(),
        };
        r
    }
}

} // verus!
