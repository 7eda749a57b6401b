//! Facts that the structure detectors publish.
use vstd::prelude::*;
use crate::types::Timeframe;

verus! {

/// Which way a structure points.
#[derive(Clone, Copy, Debug, PartialEq, Eq, Structural)]
pub enum Direction {
    Bullish,
    Bearish,
}

/// How the other members of a group move relative to the sweeper.
#[derive(Clone, Copy, Debug, PartialEq, Eq, Structural)]
pub enum Correlation {
    Positive,
    Negative,
}

/// How far the chain of one instrument has come.
#[derive(Clone, Copy, Debug, PartialEq, Eq, Structural)]
pub enum SmtDetectionState {
    /// The sweeping candle was seen.
    SmtKDetected,
    /// The second candle confirmed the sweep.
    C2Confirmed,
    /// The third candle closed.
    C3Entry,
    /// The chain failed.
    Invalidated,
}

/// Whether a reference level was taken.
#[derive(Clone, Copy, Debug, PartialEq, Eq, Structural)]
pub enum LiquidityRefStatus {
    Swept,
    NotSwept,
}

/// Which side of the market a level rests on.
#[derive(Clone, Copy, Debug, PartialEq, Eq, Structural)]
pub enum LiquiditySide {
    BuySide,
    SellSide,
}

/// Where a reference level was taken from.
#[derive(Clone, Copy, Debug, PartialEq, Eq, Structural)]
pub enum ReferenceScope {
    AdjacentCandle,
    DistantLeftSide,
}

/// Kind of a lower-timeframe reversal.
#[derive(Clone, Copy, Debug, PartialEq, Eq, Structural)]
pub enum ReversalConfirmKind {
    /// Change in the state of delivery.
    Cisd,
    /// Market structure shift.
    Mss,
}

/// Why a divergence ended.
#[derive(Clone, Copy, Debug, PartialEq, Eq, Structural)]
pub enum SmtInvalidationReason {
    SweeperC2Failed,
    SweeperC3Failed,
    AllCountersSwept,
    CanonicalReferenceChanged,
    CanonicalSweepInvalid,
    ReferenceAlreadyTaken,
    CanonicalChainChanged,
    PdaConsumedByOtherSmt,
    HtfFormationCancelled,
}

/// Trading session.
#[derive(Clone, Copy, Debug, PartialEq, Eq, Structural)]
pub enum SessionKind {
    Asia,
    London,
    NewYork,
}

/// Prices of one candle.
#[derive(Clone, Copy, Debug, PartialEq, Eq, Structural)]
pub struct CandleRef {
    pub ts: i64,
    pub open: i64,
    pub high: i64,
    pub low: i64,
    pub close: i64,
}

/// Descriptive strength of one instrument.
#[derive(Debug)]
pub struct StrengthLabel {
    pub symbol: String,
    pub label: String,
}

/// Mathematical content of a [`StrengthLabel`].
pub struct StrengthLabelModel {
    pub symbol: Seq<char>,
    pub label: Seq<char>,
}

impl View for StrengthLabel {
    type V = StrengthLabelModel;

    open spec fn view(&self) -> StrengthLabelModel {
        StrengthLabelModel {
            symbol: self.symbol@,
            label: self.label@,
        }
    }
}

impl DeepView for StrengthLabel {
    type V = StrengthLabelModel;

    open spec fn deep_view(&self) -> StrengthLabelModel {
        self@
    }
}

impl Clone for StrengthLabel {
    fn clone(&self) -> (r: Self)
        ensures
            r@ == self@,
    {
        let r = StrengthLabel {
            symbol: self.symbol.clone(),
            label: self.label.clone(),
        };
        r
    }
}

/// Price area that a divergence formed in.
#[derive(Debug)]
pub struct PdaRef {
    pub kind: String,
    pub id: String,
    pub tf: Timeframe,
    pub direction: Direction,
    pub price_low: i64,
    pub price_high: i64,
    pub ts_open: i64,
    pub ts_confirm: i64,
    pub exit_ts: Option<i64>,
    pub ts_filled: Option<i64>,
}

/// Mathematical content of a [`PdaRef`].
pub struct PdaRefModel {
    pub kind: Seq<char>,
    pub id: Seq<char>,
    pub tf: Timeframe,
    pub direction: Direction,
    pub price_low: i64,
    pub price_high: i64,
    pub ts_open: i64,
    pub ts_confirm: i64,
    pub exit_ts: Option<i64>,
    pub ts_filled: Option<i64>,
}

impl View for PdaRef {
    type V = PdaRefModel;

    open spec fn view(&self) -> PdaRefModel {
        PdaRefModel {
            kind: self.kind@,
            id: self.id@,
            tf: self.tf,
            direction: self.direction,
            price_low: self.price_low,
            price_high: self.price_high,
            ts_open: self.ts_open,
            ts_confirm: self.ts_confirm,
            exit_ts: self.exit_ts,
            ts_filled: self.ts_filled,
        }
    }
}

impl DeepView for PdaRef {
    type V = PdaRefModel;

    open spec fn deep_view(&self) -> PdaRefModel {
        self@
    }
}

impl Clone for PdaRef {
    fn clone(&self) -> (r: Self)
        ensures
            r@ == self@,
    {
        let r = PdaRef {
            kind: self.kind.clone(),
            id: self.id.clone(),
            tf: self.tf,
            direction: self.direction,
            price_low: self.price_low,
            price_high: self.price_high,
            ts_open: self.ts_open,
            ts_confirm: self.ts_confirm,
            exit_ts: self.exit_ts,
            ts_filled: self.ts_filled,
        };
        r
    }
}

/// Reference level of one instrument.
#[derive(Debug)]
pub struct LiquidityRef {
    pub symbol: String,
    pub ref_price: i64,
    pub ref_ts: i64,
    pub side: LiquiditySide,
    pub status: LiquidityRefStatus,
    pub tf: Timeframe,
    pub mtf_ref_candle: Option<CandleRef>,
    pub mtf_sweep_candle: Option<CandleRef>,
}

/// Mathematical content of a [`LiquidityRef`].
pub struct LiquidityRefModel {
    pub symbol: Seq<char>,
    pub ref_price: i64,
    pub ref_ts: i64,
    pub side: LiquiditySide,
    pub status: LiquidityRefStatus,
    pub tf: Timeframe,
    pub mtf_ref_candle: Option<CandleRef>,
    pub mtf_sweep_candle: Option<CandleRef>,
}

impl View for LiquidityRef {
    type V = LiquidityRefModel;

    open spec fn view(&self) -> LiquidityRefModel {
        LiquidityRefModel {
            symbol: self.symbol@,
            ref_price: self.ref_price,
            ref_ts: self.ref_ts,
            side: self.side,
            status: self.status,
            tf: self.tf,
            mtf_ref_candle: self.mtf_ref_candle,
            mtf_sweep_candle: self.mtf_sweep_candle,
        }
    }
}

impl DeepView for LiquidityRef {
    type V = LiquidityRefModel;

    open spec fn deep_view(&self) -> LiquidityRefModel {
        self@
    }
}

impl Clone for LiquidityRef {
    fn clone(&self) -> (r: Self)
        ensures
            r@ == self@,
    {
        let r = LiquidityRef {
            symbol: self.symbol.clone(),
            ref_price: self.ref_price,
            ref_ts: self.ref_ts,
            side: self.side,
            status: self.status,
            tf: self.tf,
            mtf_ref_candle: self.mtf_ref_candle,
            mtf_sweep_candle: self.mtf_sweep_candle,
        };
        r
    }
}

/// Candle chain of one instrument.
#[derive(Debug)]
pub struct SymbolChain {
    pub symbol: String,
    pub c1_candle: CandleRef,
    pub smt_k_candle: CandleRef,
    pub c2_candle: Option<CandleRef>,
    pub c2_case: Option<u8>,
    pub c3_candle: Option<CandleRef>,
    pub detection_state: SmtDetectionState,
}

/// Mathematical content of a [`SymbolChain`].
pub struct SymbolChainModel {
    pub symbol: Seq<char>,
    pub c1_candle: CandleRef,
    pub smt_k_candle: CandleRef,
    pub c2_candle: Option<CandleRef>,
    pub c2_case: Option<u8>,
    pub c3_candle: Option<CandleRef>,
    pub detection_state: SmtDetectionState,
}

impl View for SymbolChain {
    type V = SymbolChainModel;

    open spec fn view(&self) -> SymbolChainModel {
        SymbolChainModel {
            symbol: self.symbol@,
            c1_candle: self.c1_candle,
            smt_k_candle: self.smt_k_candle,
            c2_candle: self.c2_candle,
            c2_case: self.c2_case,
            c3_candle: self.c3_candle,
            detection_state: self.detection_state,
        }
    }
}

impl DeepView for SymbolChain {
    type V = SymbolChainModel;

    open spec fn deep_view(&self) -> SymbolChainModel {
        self@
    }
}

impl Clone for SymbolChain {
    fn clone(&self) -> (r: Self)
        ensures
            r@ == self@,
    {
        let r = SymbolChain {
            symbol: self.symbol.clone(),
            c1_candle: self.c1_candle,
            smt_k_candle: self.smt_k_candle,
            c2_candle: self.c2_candle,
            c2_case: self.c2_case,
            c3_candle: self.c3_candle,
            detection_state: self.detection_state,
        };
        r
    }
}

/// A divergence between the members of a correlated group.
#[derive(Debug)]
pub struct SmtDivergence {
    pub id: String,
    pub watchlist_id: String,
    pub rule_version: String,
    pub symbol_set: Vec<String>,
    pub relationship: Correlation,
    pub context_timeframe: Timeframe,
    pub comparison_timeframe: Timeframe,
    pub observation_window: (i64, i64),
    pub htf_confirmed: bool,
    pub reference_scope: ReferenceScope,
    pub liquidity_refs: Vec<LiquidityRef>,
    pub confluence_refs: Vec<LiquidityRef>,
    pub candidate_direction: Direction,
    pub sweeper_symbol: String,
    pub trade_symbols: Vec<String>,
    pub strength: Vec<StrengthLabel>,
    pub chains: Vec<SymbolChain>,
    pub invalidation_reasons: Vec<SmtInvalidationReason>,
    pub invalidation_ts: Option<i64>,
    pub htf_pda_ref: Option<PdaRef>,
    pub mtf_ref_candle: Option<CandleRef>,
}

/// Mathematical content of a [`SmtDivergence`].
pub struct SmtModel {
    pub id: Seq<char>,
    pub watchlist_id: Seq<char>,
    pub rule_version: Seq<char>,
    pub symbol_set: Seq<Seq<char>>,
    pub relationship: Correlation,
    pub context_timeframe: Timeframe,
    pub comparison_timeframe: Timeframe,
    pub observation_window: (i64, i64),
    pub htf_confirmed: bool,
    pub reference_scope: ReferenceScope,
    pub liquidity_refs: Seq<LiquidityRefModel>,
    pub confluence_refs: Seq<LiquidityRefModel>,
    pub candidate_direction: Direction,
    pub sweeper_symbol: Seq<char>,
    pub trade_symbols: Seq<Seq<char>>,
    pub strength: Seq<StrengthLabelModel>,
    pub chains: Seq<SymbolChainModel>,
    pub invalidation_reasons: Seq<SmtInvalidationReason>,
    pub invalidation_ts: Option<i64>,
    pub htf_pda_ref: Option<PdaRefModel>,
    pub mtf_ref_candle: Option<CandleRef>,
}

impl View for SmtDivergence {
    type V = SmtModel;

    open spec fn view(&self) -> SmtModel {
        SmtModel {
            id: self.id@,
            watchlist_id: self.watchlist_id@,
            rule_version: self.rule_version@,
            symbol_set: self.symbol_set.deep_view(),
            relationship: self.relationship,
            context_timeframe: self.context_timeframe,
            comparison_timeframe: self.comparison_timeframe,
            observation_window: self.observation_window,
            htf_confirmed: self.htf_confirmed,
            reference_scope: self.reference_scope,
            liquidity_refs: self.liquidity_refs.deep_view(),
            confluence_refs: self.confluence_refs.deep_view(),
            candidate_direction: self.candidate_direction,
            sweeper_symbol: self.sweeper_symbol@,
            trade_symbols: self.trade_symbols.deep_view(),
            strength: self.strength.deep_view(),
            chains: self.chains.deep_view(),
            invalidation_reasons: self.invalidation_reasons@,
            invalidation_ts: self.invalidation_ts,
            htf_pda_ref: self.htf_pda_ref.deep_view(),
            mtf_ref_candle: self.mtf_ref_candle,
        }
    }
}

impl DeepView for SmtDivergence {
    type V = SmtModel;

    open spec fn deep_view(&self) -> SmtModel {
        self@
    }
}

impl Clone for SmtDivergence {
    fn clone(&self) -> (r: Self)
        ensures
            r@ == self@,
    {
        let r = SmtDivergence {
            id: self.id.clone(),
            watchlist_id: self.watchlist_id.clone(),
            rule_version: self.rule_version.clone(),
            symbol_set: self.symbol_set.clone(),
            relationship: self.relationship,
            context_timeframe: self.context_timeframe,
            comparison_timeframe: self.comparison_timeframe,
            observation_window: self.observation_window,
            htf_confirmed: self.htf_confirmed,
            reference_scope: self.reference_scope,
            liquidity_refs: self.liquidity_refs.clone(),
            confluence_refs: self.confluence_refs.clone(),
            candidate_direction: self.candidate_direction,
            sweeper_symbol: self.sweeper_symbol.clone(),
            trade_symbols: self.trade_symbols.clone(),
            strength: self.strength.clone(),
            chains: self.chains.clone(),
            invalidation_reasons: self.invalidation_reasons.clone(),
            invalidation_ts: self.invalidation_ts,
            htf_pda_ref: self.htf_pda_ref.clone(),
            mtf_ref_candle: self.mtf_ref_candle,
        };
        assert(r.symbol_set.deep_view() =~= self.symbol_set.deep_view());
        assert(r.liquidity_refs.deep_view() =~= self.liquidity_refs.deep_view());
        assert(r.confluence_refs.deep_view() =~= self.confluence_refs.deep_view());
        assert(r.trade_symbols.deep_view() =~= self.trade_symbols.deep_view());
        assert(r.strength.deep_view() =~= self.strength.deep_view());
        assert(r.chains.deep_view() =~= self.chains.deep_view());
        assert(r.invalidation_reasons@ =~= self.invalidation_reasons@);
        r
    }
}

/// A change in the state of delivery.
#[derive(Debug)]
pub struct Cisd {
    pub id: String,
    pub symbol: String,
    pub tf: Timeframe,
    pub direction: Direction,
    pub leg_origin_ts: i64,
    pub leg_origin_price: i64,
    pub break_ts: i64,
    pub break_price: i64,
}

/// Mathematical content of a [`Cisd`].
pub struct CisdModel {
    pub id: Seq<char>,
    pub symbol: Seq<char>,
    pub tf: Timeframe,
    pub direction: Direction,
    pub leg_origin_ts: i64,
    pub leg_origin_price: i64,
    pub break_ts: i64,
    pub break_price: i64,
}

impl View for Cisd {
    type V = CisdModel;

    open spec fn view(&self) -> CisdModel {
        CisdModel {
            id: self.id@,
            symbol: self.symbol@,
            tf: self.tf,
            direction: self.direction,
            leg_origin_ts: self.leg_origin_ts,
            leg_origin_price: self.leg_origin_price,
            break_ts: self.break_ts,
            break_price: self.break_price,
        }
    }
}

impl DeepView for Cisd {
    type V = CisdModel;

    open spec fn deep_view(&self) -> CisdModel {
        self@
    }
}

impl Clone for Cisd {
    fn clone(&self) -> (r: Self)
        ensures
            r@ == self@,
    {
        let r = Cisd {
            id: self.id.clone(),
            symbol: self.symbol.clone(),
            tf: self.tf,
            direction: self.direction,
            leg_origin_ts: self.leg_origin_ts,
            leg_origin_price: self.leg_origin_price,
            break_ts: self.break_ts,
            break_price: self.break_price,
        };
        r
    }
}

/// A market structure shift.
#[derive(Debug)]
pub struct Mss {
    pub id: String,
    pub symbol: String,
    pub tf: Timeframe,
    pub direction: Direction,
    pub break_ts: i64,
    pub break_price: i64,
    pub swing_ts: i64,
    pub swing_price: i64,
}

/// Mathematical content of a [`Mss`].
pub struct MssModel {
    pub id: Seq<char>,
    pub symbol: Seq<char>,
    pub tf: Timeframe,
    pub direction: Direction,
    pub break_ts: i64,
    pub break_price: i64,
    pub swing_ts: i64,
    pub swing_price: i64,
}

impl View for Mss {
    type V = MssModel;

    open spec fn view(&self) -> MssModel {
        MssModel {
            id: self.id@,
            symbol: self.symbol@,
            tf: self.tf,
            direction: self.direction,
            break_ts: self.break_ts,
            break_price: self.break_price,
            swing_ts: self.swing_ts,
            swing_price: self.swing_price,
        }
    }
}

impl DeepView for Mss {
    type V = MssModel;

    open spec fn deep_view(&self) -> MssModel {
        self@
    }
}

impl Clone for Mss {
    fn clone(&self) -> (r: Self)
        ensures
            r@ == self@,
    {
        let r = Mss {
            id: self.id.clone(),
            symbol: self.symbol.clone(),
            tf: self.tf,
            direction: self.direction,
            break_ts: self.break_ts,
            break_price: self.break_price,
            swing_ts: self.swing_ts,
            swing_price: self.swing_price,
        };
        r
    }
}

/// A fair value gap.
#[derive(Debug)]
pub struct Fvg {
    pub id: String,
    pub symbol: String,
    pub tf: Timeframe,
    pub direction: Direction,
    pub price_low: i64,
    pub price_high: i64,
    pub ts_open: i64,
    pub ts_confirm: i64,
    pub ts_filled: Option<i64>,
    /// Where the chart ends the gap because a divergence used it.
    pub consumed_exit_ts: Option<i64>,
}

/// Mathematical content of a [`Fvg`].
pub struct FvgModel {
    pub id: Seq<char>,
    pub symbol: Seq<char>,
    pub tf: Timeframe,
    pub direction: Direction,
    pub price_low: i64,
    pub price_high: i64,
    pub ts_open: i64,
    pub ts_confirm: i64,
    pub ts_filled: Option<i64>,
    pub consumed_exit_ts: Option<i64>,
}

impl View for Fvg {
    type V = FvgModel;

    open spec fn view(&self) -> FvgModel {
        FvgModel {
            id: self.id@,
            symbol: self.symbol@,
            tf: self.tf,
            direction: self.direction,
            price_low: self.price_low,
            price_high: self.price_high,
            ts_open: self.ts_open,
            ts_confirm: self.ts_confirm,
            ts_filled: self.ts_filled,
            consumed_exit_ts: self.consumed_exit_ts,
        }
    }
}

impl DeepView for Fvg {
    type V = FvgModel;

    open spec fn deep_view(&self) -> FvgModel {
        self@
    }
}

impl Clone for Fvg {
    fn clone(&self) -> (r: Self)
        ensures
            r@ == self@,
    {
        let r = Fvg {
            id: self.id.clone(),
            symbol: self.symbol.clone(),
            tf: self.tf,
            direction: self.direction,
            price_low: self.price_low,
            price_high: self.price_high,
            ts_open: self.ts_open,
            ts_confirm: self.ts_confirm,
            ts_filled: self.ts_filled,
            consumed_exit_ts: self.consumed_exit_ts,
        };
        r
    }
}

/// High and low of one trading session.
#[derive(Debug)]
pub struct SessionRange {
    pub id: String,
    pub symbol: String,
    pub tf: Timeframe,
    pub session: SessionKind,
    pub label: String,
    pub ts_start: i64,
    pub ts_end: i64,
    pub high: i64,
    pub low: i64,
    pub high_ts: i64,
    pub low_ts: i64,
    pub finalized: bool,
}

/// Mathematical content of a [`SessionRange`].
pub struct SessionRangeModel {
    pub id: Seq<char>,
    pub symbol: Seq<char>,
    pub tf: Timeframe,
    pub session: SessionKind,
    pub label: Seq<char>,
    pub ts_start: i64,
    pub ts_end: i64,
    pub high: i64,
    pub low: i64,
    pub high_ts: i64,
    pub low_ts: i64,
    pub finalized: bool,
}

impl View for SessionRange {
    type V = SessionRangeModel;

    open spec fn view(&self) -> SessionRangeModel {
        SessionRangeModel {
            id: self.id@,
            symbol: self.symbol@,
            tf: self.tf,
            session: self.session,
            label: self.label@,
            ts_start: self.ts_start,
            ts_end: self.ts_end,
            high: self.high,
            low: self.low,
            high_ts: self.high_ts,
            low_ts: self.low_ts,
            finalized: self.finalized,
        }
    }
}

impl DeepView for SessionRange {
    type V = SessionRangeModel;

    open spec fn deep_view(&self) -> SessionRangeModel {
        self@
    }
}

impl Clone for SessionRange {
    fn clone(&self) -> (r: Self)
        ensures
            r@ == self@,
    {
        let r = SessionRange {
            id: self.id.clone(),
            symbol: self.symbol.clone(),
            tf: self.tf,
            session: self.session,
            label: self.label.clone(),
            ts_start: self.ts_start,
            ts_end: self.ts_end,
            high: self.high,
            low: self.low,
            high_ts: self.high_ts,
            low_ts: self.low_ts,
            finalized: self.finalized,
        };
        r
    }
}

/// A marked price level.
#[derive(Debug)]
pub struct LevelMarker {
    pub id: String,
    pub symbol: String,
    pub tf: Timeframe,
    pub price: i64,
    pub label: String,
    pub confirmed_at_ts: Option<i64>,
    pub valid_from_ts: i64,
    pub valid_until_ts: i64,
    pub source_ts: Option<i64>,
}

/// Mathematical content of a [`LevelMarker`].
pub struct LevelMarkerModel {
    pub id: Seq<char>,
    pub symbol: Seq<char>,
    pub tf: Timeframe,
    pub price: i64,
    pub label: Seq<char>,
    pub confirmed_at_ts: Option<i64>,
    pub valid_from_ts: i64,
    pub valid_until_ts: i64,
    pub source_ts: Option<i64>,
}

impl View for LevelMarker {
    type V = LevelMarkerModel;

    open spec fn view(&self) -> LevelMarkerModel {
        LevelMarkerModel {
            id: self.id@,
            symbol: self.symbol@,
            tf: self.tf,
            price: self.price,
            label: self.label@,
            confirmed_at_ts: self.confirmed_at_ts,
            valid_from_ts: self.valid_from_ts,
            valid_until_ts: self.valid_until_ts,
            source_ts: self.source_ts,
        }
    }
}

impl DeepView for LevelMarker {
    type V = LevelMarkerModel;

    open spec fn deep_view(&self) -> LevelMarkerModel {
        self@
    }
}

impl Clone for LevelMarker {
    fn clone(&self) -> (r: Self)
        ensures
            r@ == self@,
    {
        let r = LevelMarker {
            id: self.id.clone(),
            symbol: self.symbol.clone(),
            tf: self.tf,
            price: self.price,
            label: self.label.clone(),
            confirmed_at_ts: self.confirmed_at_ts,
            valid_from_ts: self.valid_from_ts,
            valid_until_ts: self.valid_until_ts,
            source_ts: self.source_ts,
        };
        r
    }
}

/// A structure that lists carry through and nothing here looks into, such as a kill zone
/// or an order block.
#[derive(Debug)]
pub struct OtherStructure {
    pub id: String,
    pub kind: String,
    /// What the detector says of it, as JSON.
    pub body: String,
}

/// Mathematical content of an [`OtherStructure`].
pub struct OtherModel {
    pub id: Seq<char>,
    pub kind: Seq<char>,
    pub body: Seq<char>,
}

impl View for OtherStructure {
    type V = OtherModel;

    open spec fn view(&self) -> OtherModel {
        OtherModel { id: self.id@, kind: self.kind@, body: self.body@ }
    }
}

impl DeepView for OtherStructure {
    type V = OtherModel;

    open spec fn deep_view(&self) -> OtherModel {
        self@
    }
}

impl Clone for OtherStructure {
    fn clone(&self) -> (r: Self)
        ensures
            r@ == self@,
    {
        OtherStructure { id: self.id.clone(), kind: self.kind.clone(), body: self.body.clone() }
    }
}

/// A detected structure.
#[derive(Debug)]
pub enum IctStructure {
    Cisd(Cisd),
    Mss(Mss),
    Fvg(Fvg),
    SessionRange(SessionRange),
    Pdh(LevelMarker),
    Pdl(LevelMarker),
    SmtDivergence(SmtDivergence),
    Other(OtherStructure),
}

/// Mathematical content of an [`IctStructure`].
pub enum IctStructureModel {
    Cisd(CisdModel),
    Mss(MssModel),
    Fvg(FvgModel),
    SessionRange(SessionRangeModel),
    Pdh(LevelMarkerModel),
    Pdl(LevelMarkerModel),
    SmtDivergence(SmtModel),
    Other(OtherModel),
}

impl View for IctStructure {
    type V = IctStructureModel;

    open spec fn view(&self) -> IctStructureModel {
        match *self {
            IctStructure::Cisd(x) => IctStructureModel::Cisd(x@),
            IctStructure::Mss(x) => IctStructureModel::Mss(x@),
            IctStructure::Fvg(x) => IctStructureModel::Fvg(x@),
            IctStructure::SessionRange(x) => IctStructureModel::SessionRange(x@),
            IctStructure::Pdh(x) => IctStructureModel::Pdh(x@),
            IctStructure::Pdl(x) => IctStructureModel::Pdl(x@),
            IctStructure::SmtDivergence(x) => IctStructureModel::SmtDivergence(x@),
            IctStructure::Other(x) => IctStructureModel::Other(x@),
        }
    }
}

impl DeepView for IctStructure {
    type V = IctStructureModel;

    open spec fn deep_view(&self) -> IctStructureModel {
        self@
    }
}

impl Clone for IctStructure {
    fn clone(&self) -> (r: Self)
        ensures
            r@ == self@,
    {
        match self {
            IctStructure::Cisd(x) => IctStructure::Cisd(x.clone()),
            IctStructure::Mss(x) => IctStructure::Mss(x.clone()),
            IctStructure::Fvg(x) => IctStructure::Fvg(x.clone()),
            IctStructure::SessionRange(x) => IctStructure::SessionRange(x.clone()),
            IctStructure::Pdh(x) => IctStructure::Pdh(x.clone()),
            IctStructure::Pdl(x) => IctStructure::Pdl(x.clone()),
            IctStructure::SmtDivergence(x) => IctStructure::SmtDivergence(x.clone()),
            IctStructure::Other(x) => IctStructure::Other(x.clone()),
        }
    }
}

/// What a detector says about a structure.
#[derive(Debug)]
pub enum StructureEvent {
    New(IctStructure),
    Update(IctStructure),
    Invalidated { id: String, kind: String },
}

/// Mathematical content of a [`StructureEvent`].
pub enum StructureEventModel {
    New(IctStructureModel),
    Update(IctStructureModel),
    Invalidated { id: Seq<char>, kind: Seq<char> },
}

impl View for StructureEvent {
    type V = StructureEventModel;

    open spec fn view(&self) -> StructureEventModel {
        match *self {
            StructureEvent::New(s) => StructureEventModel::New(s@),
            StructureEvent::Update(s) => StructureEventModel::Update(s@),
            StructureEvent::Invalidated { id, kind } => StructureEventModel::Invalidated {
                id: id@,
                kind: kind@,
            },
        }
    }
}

} // verus!
