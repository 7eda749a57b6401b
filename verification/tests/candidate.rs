use ict_monitor::alert::engine::{AlertEngine, FiredFacts};
use ict_monitor::alert::types::AlertTrigger;
use ict_monitor::candidate::engine::CandidateEngine;
use ict_monitor::candidate::lifecycle::invalidation_reason;
use ict_monitor::candidate::replay::{extract_ltf_events, SymbolBars, SymbolEvents};
use ict_monitor::candidate::rules::{effective_ltf_dir, executable_symbols};
use ict_monitor::candidate::types::{
    CandidateChange, CandidateSetup, DecisionLogEntry, DecisionMode, ExpiryReason, LtfEventRef,
    SetupStatus,
};
use ict_monitor::detector::{
    CandleRef, Cisd, Correlation, Direction, IctStructure, LiquidityRef, LiquidityRefStatus,
    LiquiditySide, PdaRef, ReferenceScope, ReversalConfirmKind, SmtDetectionState, SmtDivergence,
    SmtInvalidationReason, StrengthLabel, StructureEvent, SymbolChain,
};
use ict_monitor::types::{Bar, Timeframe};

fn vol(x: f64) -> i128 {
    (x * 1e9).round() as i128
}

fn px(x: f64) -> i64 {
    (x * 1e9).round() as i64
}

const MTF_DUR: i64 = 60 * 60 * 1000;
const TS_BASE: i64 = 1_700_000_000_000;

#[test]
fn positive_correlation_ltf_direction_is_not_flipped() {
    assert_eq!(
        effective_ltf_dir(
            Direction::Bullish,
            "OANDA:USDCHF",
            "TVC:DXY",
            Correlation::Positive,
        ),
        Direction::Bullish,
    );
    assert_eq!(
        effective_ltf_dir(
            Direction::Bearish,
            "OANDA:USDCAD",
            "TVC:DXY",
            Correlation::Positive,
        ),
        Direction::Bearish,
    );
}

#[test]
fn executable_symbols_are_group_driven_not_eu_gu_hard_coded() {
    let mut smt = make_smt(
        "positive-group",
        Direction::Bullish,
        true,
        SmtDetectionState::C2Confirmed,
        TS_BASE + 2 * MTF_DUR,
        None,
    );
    smt.sweeper_symbol = "TVC:DXY".into();
    smt.symbol_set = vec![
        "TVC:DXY".into(),
        "OANDA:USDCHF".into(),
        "OANDA:USDCAD".into(),
    ];
    smt.trade_symbols = vec!["OANDA:USDCHF".into(), "OANDA:USDCAD".into()];
    assert_eq!(executable_symbols(&smt), smt.trade_symbols);
}

fn candle(ts: i64, o: f64, h: f64, l: f64, c: f64) -> CandleRef {
    CandleRef {
        ts,
        open: px(o),
        high: px(h),
        low: px(l),
        close: px(c),
    }
}

fn make_smt(
    id: &str,
    direction: Direction,
    has_pda: bool,
    det_state: SmtDetectionState,
    c2_ts: i64,
    c3_ts: Option<i64>,
) -> SmtDivergence {
    let c1 = candle(TS_BASE, 100.0, 101.0, 99.0, 100.5);
    let smt_k = candle(TS_BASE + MTF_DUR, 99.5, 100.5, 98.5, 99.0);
    let c2 = candle(c2_ts, 99.0, 100.0, 98.0, 99.5);
    let c3 = c3_ts.map(|ts| candle(ts, 99.5, 100.5, 98.5, 100.0));

    let chain = SymbolChain {
        symbol: "TVC:DXY".into(),
        c1_candle: c1,
        smt_k_candle: smt_k,
        c2_candle: Some(c2),
        c2_case: Some(1),
        c3_candle: c3,
        detection_state: det_state,
    };
    let eu_c1 = candle(TS_BASE, 1.079, 1.082, 1.078, 1.080);
    let eu_smt_k = candle(TS_BASE + MTF_DUR, 1.081, 1.083, 1.080, 1.082);
    let eu_c2 = candle(c2_ts, 1.080, 1.084, 1.079, 1.082);
    let eu_c3 = c3_ts.map(|ts| candle(ts, 1.081, 1.085, 1.080, 1.083));
    let eu_chain = SymbolChain {
        symbol: "OANDA:EURUSD".into(),
        c1_candle: eu_c1,
        smt_k_candle: eu_smt_k,
        c2_candle: Some(eu_c2),
        c2_case: Some(1),
        c3_candle: eu_c3,
        detection_state: det_state,
    };

    let pda = if has_pda {
        Some(PdaRef {
            kind: "fvg".into(),
            id: "pda-test-1".into(),
            tf: Timeframe::H4,
            direction,
            price_low: px(98.0),
            price_high: px(101.0),
            ts_open: TS_BASE - MTF_DUR,
            ts_confirm: TS_BASE,
            exit_ts: None,
            ts_filled: None,
        })
    } else {
        None
    };

    SmtDivergence {
        id: id.into(),
        watchlist_id: "test-wl".into(),
        rule_version: "m5c2.v5".into(),
        symbol_set: vec!["TVC:DXY".into(), "OANDA:EURUSD".into()],
        relationship: Correlation::Negative,
        context_timeframe: Timeframe::H4,
        comparison_timeframe: Timeframe::H1,
        observation_window: (TS_BASE - MTF_DUR, TS_BASE + 5 * MTF_DUR),
        htf_confirmed: true,
        reference_scope: ReferenceScope::DistantLeftSide,
        liquidity_refs: vec![
            LiquidityRef {
                symbol: "TVC:DXY".into(),
                ref_price: px(99.0),
                ref_ts: TS_BASE,
                side: LiquiditySide::SellSide,
                status: LiquidityRefStatus::Swept,
                tf: Timeframe::H4,
                mtf_ref_candle: None,
                mtf_sweep_candle: None,
            },
            LiquidityRef {
                symbol: "OANDA:EURUSD".into(),
                ref_price: px(1.08),
                ref_ts: TS_BASE,
                side: LiquiditySide::BuySide,
                status: LiquidityRefStatus::NotSwept,
                tf: Timeframe::H4,
                mtf_ref_candle: None,
                mtf_sweep_candle: None,
            },
        ],
        confluence_refs: Vec::new(),
        candidate_direction: direction,
        sweeper_symbol: "TVC:DXY".into(),
        trade_symbols: vec!["OANDA:EURUSD".into()],
        strength: vec![StrengthLabel {
            symbol: "OANDA:EURUSD".into(),
            label: "strong".into(),
        }],
        chains: vec![chain, eu_chain],
        invalidation_reasons: Vec::new(),
        invalidation_ts: None,
        htf_pda_ref: pda,
        mtf_ref_candle: None,
    }
}

fn ltf_event(
    symbol: &str,
    kind: ReversalConfirmKind,
    direction: Direction,
    ts: i64,
) -> LtfEventRef {
    LtfEventRef {
        id: format!("ltf-{}", ts),
        symbol: symbol.into(),
        kind,
        direction,
        ts,
        price: px(1.08),
    }
}

fn make_bar(symbol: &str, ts: i64, close: f64) -> Bar {
    Bar {
        symbol: symbol.into(),
        tf: Timeframe::M5,
        ts,
        open: px(close),
        high: px(close + 0.001),
        low: px(close - 0.001),
        close: px(close),
        volume: vol(1.0),
    }
}

fn smt_event(smt: &SmtDivergence) -> StructureEvent {
    StructureEvent::New(IctStructure::SmtDivergence(smt.clone()))
}

fn smt_update(smt: &SmtDivergence) -> StructureEvent {
    StructureEvent::Update(IctStructure::SmtDivergence(smt.clone()))
}

#[test]
fn t01_spawn_on_c2_confirmed_with_pda() {
    let mut engine = CandidateEngine::new();
    let smt = make_smt(
        "smt-1",
        Direction::Bullish,
        true,
        SmtDetectionState::C2Confirmed,
        TS_BASE + 2 * MTF_DUR,
        None,
    );
    let changes = engine.on_smt_event(&smt_event(&smt), TS_BASE + 2 * MTF_DUR);
    assert_eq!(changes.len(), 1);
    assert_eq!(changes[0].candidate.setup_status, SetupStatus::C2Confirmed);
    assert_eq!(changes[0].candidate.smt_id, "smt-1");
    assert!(changes[0].candidate.context_pda_id.is_some());
    assert_eq!(changes[0].candidate.c2_case, 1);
    assert_eq!(changes[0].candidate.trade_symbols, vec!["OANDA:EURUSD"]);
}

#[test]
fn t02_no_spawn_without_pda() {
    let mut engine = CandidateEngine::new();
    let smt = make_smt(
        "smt-2",
        Direction::Bullish,
        false,
        SmtDetectionState::C2Confirmed,
        TS_BASE + 2 * MTF_DUR,
        None,
    );
    let changes = engine.on_smt_event(&smt_event(&smt), TS_BASE + 2 * MTF_DUR);
    assert!(changes.is_empty());
}

#[test]
fn t03_validate_cisd_in_c2_window() {
    let mut engine = CandidateEngine::new();
    let c2_ts = TS_BASE + 2 * MTF_DUR;
    let smt = make_smt(
        "smt-3",
        Direction::Bullish,
        true,
        SmtDetectionState::C2Confirmed,
        c2_ts,
        None,
    );
    engine.on_smt_event(&smt_event(&smt), c2_ts);

    let ev = ltf_event(
        "OANDA:EURUSD",
        ReversalConfirmKind::Cisd,
        Direction::Bearish,
        c2_ts + 60_000,
    );
    let bar = make_bar("OANDA:EURUSD", c2_ts + 60_000, 1.082);
    let changes = engine.on_ltf_bar_close("OANDA:EURUSD", &bar, &[ev], c2_ts + 60_000);
    assert_eq!(changes.len(), 1);
    assert_eq!(changes[0].candidate.setup_status, SetupStatus::Validated);
    assert_eq!(
        changes[0].candidate.validation_kind,
        Some(ReversalConfirmKind::Cisd)
    );
    assert_eq!(
        changes[0].candidate.validation_direction,
        Some(Direction::Bearish),
        "Candidate must preserve the actual EURUSD validation direction, not the bullish DXY direction"
    );
    assert!(!changes[0].candidate.c2_cisd_event_ids.is_empty());
}

#[test]
fn t04_validate_mss_in_c3_window() {
    let mut engine = CandidateEngine::new();
    let c2_ts = TS_BASE + 2 * MTF_DUR;
    let c3_ts = c2_ts + MTF_DUR;
    let smt_c2 = make_smt(
        "smt-4",
        Direction::Bullish,
        true,
        SmtDetectionState::C2Confirmed,
        c2_ts,
        None,
    );
    engine.on_smt_event(&smt_event(&smt_c2), c2_ts);
    let smt_c3 = make_smt(
        "smt-4",
        Direction::Bullish,
        true,
        SmtDetectionState::C3Entry,
        c2_ts,
        Some(c3_ts),
    );
    engine.on_smt_event(&smt_update(&smt_c3), c3_ts);

    let ev = ltf_event(
        "OANDA:EURUSD",
        ReversalConfirmKind::Mss,
        Direction::Bearish,
        c3_ts + 60_000,
    );
    let bar = make_bar("OANDA:EURUSD", c3_ts + 60_000, 1.082);
    let changes = engine.on_ltf_bar_close("OANDA:EURUSD", &bar, &[ev], c3_ts + 60_000);
    assert_eq!(changes.len(), 1);
    assert_eq!(changes[0].candidate.setup_status, SetupStatus::Validated);
    assert_eq!(
        changes[0].candidate.validation_kind,
        Some(ReversalConfirmKind::Mss)
    );
    assert!(!changes[0].candidate.c3_cisd_event_ids.is_empty());
}

#[test]
fn t05_sweeper_cisd_does_not_validate() {
    let mut engine = CandidateEngine::new();
    let c2_ts = TS_BASE + 2 * MTF_DUR;
    let smt = make_smt(
        "smt-5",
        Direction::Bullish,
        true,
        SmtDetectionState::C2Confirmed,
        c2_ts,
        None,
    );
    engine.on_smt_event(&smt_event(&smt), c2_ts);

    let ev = ltf_event(
        "TVC:DXY",
        ReversalConfirmKind::Cisd,
        Direction::Bullish,
        c2_ts + 60_000,
    );
    let bar = make_bar("TVC:DXY", c2_ts + 60_000, 100.5);
    let changes = engine.on_ltf_bar_close("TVC:DXY", &bar, &[ev], c2_ts + 60_000);
    assert!(changes
        .iter()
        .all(|c| c.candidate.setup_status != SetupStatus::Validated));
}

#[test]
fn t06_reverse_cisd_invalidates() {
    let mut engine = CandidateEngine::new();
    let c2_ts = TS_BASE + 2 * MTF_DUR;
    let smt = make_smt(
        "smt-6",
        Direction::Bullish,
        true,
        SmtDetectionState::C2Confirmed,
        c2_ts,
        None,
    );
    engine.on_smt_event(&smt_event(&smt), c2_ts);

    let ev = ltf_event(
        "OANDA:EURUSD",
        ReversalConfirmKind::Cisd,
        Direction::Bullish,
        c2_ts + 60_000,
    );
    let bar = make_bar("OANDA:EURUSD", c2_ts + 60_000, 1.082);
    let changes = engine.on_ltf_bar_close("OANDA:EURUSD", &bar, &[ev], c2_ts + 60_000);
    assert!(changes.iter().any(|c| {
        c.candidate.setup_status == SetupStatus::Invalidated
            && c.candidate.expiry_reason == Some(ExpiryReason::Reverse)
            && invalidation_reason(&c.candidate.symbol_invalidation_reasons, "OANDA:EURUSD")
                == Some(ExpiryReason::Reverse)
    }));
}

#[test]
fn t07_c2_break_on_close_not_wick() {
    let mut engine = CandidateEngine::new();
    let c2_ts = TS_BASE + 2 * MTF_DUR;
    let smt = make_smt(
        "smt-7",
        Direction::Bullish,
        true,
        SmtDetectionState::C2Confirmed,
        c2_ts,
        None,
    );
    engine.on_smt_event(&smt_event(&smt), c2_ts);

    let wick_bar = Bar {
        symbol: "OANDA:EURUSD".into(),
        tf: Timeframe::M5,
        ts: c2_ts + 60_000,
        open: px(1.082),
        high: px(1.087),
        low: px(1.080),
        close: px(1.082),
        volume: vol(1.0),
    };
    let changes = engine.on_ltf_bar_close("OANDA:EURUSD", &wick_bar, &[], c2_ts + 60_000);
    assert!(changes
        .iter()
        .all(|c| c.candidate.setup_status != SetupStatus::Invalidated));

    let break_bar = Bar {
        symbol: "OANDA:EURUSD".into(),
        tf: Timeframe::M5,
        ts: c2_ts + 120_000,
        open: px(1.083),
        high: px(1.088),
        low: px(1.082),
        close: px(1.086),
        volume: vol(1.0),
    };
    let changes = engine.on_ltf_bar_close("OANDA:EURUSD", &break_bar, &[], c2_ts + 120_000);
    assert!(changes.iter().any(|c| {
        c.candidate.setup_status == SetupStatus::Invalidated
            && c.candidate.expiry_reason == Some(ExpiryReason::C2Break)
            && invalidation_reason(&c.candidate.symbol_invalidation_reasons, "OANDA:EURUSD")
                == Some(ExpiryReason::C2Break)
    }));
}

#[test]
fn t08_ttl_expiry_after_c3_plus_n_bars() {
    let mut engine = CandidateEngine::new();
    let c2_ts = TS_BASE + 2 * MTF_DUR;
    let c3_ts = c2_ts + MTF_DUR;
    let smt_c2 = make_smt(
        "smt-8",
        Direction::Bullish,
        true,
        SmtDetectionState::C2Confirmed,
        c2_ts,
        None,
    );
    engine.on_smt_event(&smt_event(&smt_c2), c2_ts);
    let smt_c3 = make_smt(
        "smt-8",
        Direction::Bullish,
        true,
        SmtDetectionState::C3Entry,
        c2_ts,
        Some(c3_ts),
    );
    engine.on_smt_event(&smt_update(&smt_c3), c3_ts);

    let expiry_at = c3_ts + 5 * MTF_DUR;
    let bar = make_bar("OANDA:EURUSD", expiry_at, 1.082);
    let changes = engine.on_ltf_bar_close("OANDA:EURUSD", &bar, &[], expiry_at);
    assert!(changes.iter().any(|c| {
        c.candidate.setup_status == SetupStatus::ReCheck
            && c.candidate.expiry_reason == Some(ExpiryReason::Ttl)
    }));
}

#[test]
fn t09_smt_invalidation_propagates() {
    let mut engine = CandidateEngine::new();
    let c2_ts = TS_BASE + 2 * MTF_DUR;
    let smt_c2 = make_smt(
        "smt-9",
        Direction::Bullish,
        true,
        SmtDetectionState::C2Confirmed,
        c2_ts,
        None,
    );
    engine.on_smt_event(&smt_event(&smt_c2), c2_ts);

    let smt_inv = make_smt(
        "smt-9",
        Direction::Bullish,
        true,
        SmtDetectionState::Invalidated,
        c2_ts,
        None,
    );
    let changes = engine.on_smt_event(&smt_update(&smt_inv), c2_ts + 60_000);
    assert!(changes.iter().any(|c| {
        c.candidate.setup_status == SetupStatus::Invalidated
            && c.candidate.expiry_reason == Some(ExpiryReason::SmtInvalidated)
            && invalidation_reason(&c.candidate.symbol_invalidation_reasons, "OANDA:EURUSD")
                == Some(ExpiryReason::SmtInvalidated)
    }));
}

#[test]
fn t09b_terminal_invalidation_event_propagates_by_id() {
    let mut engine = CandidateEngine::new();
    let c2_ts = TS_BASE + 2 * MTF_DUR;
    let smt = make_smt(
        "smt-9b",
        Direction::Bullish,
        true,
        SmtDetectionState::C2Confirmed,
        c2_ts,
        None,
    );
    engine.on_smt_event(&smt_event(&smt), c2_ts);

    let changes = engine.on_smt_event(
        &StructureEvent::Invalidated {
            id: "smt-9b".into(),
            kind: "smt_divergence".into(),
        },
        c2_ts + 60_000,
    );
    assert!(changes.iter().any(|c| {
        c.candidate.setup_status == SetupStatus::Invalidated
            && c.candidate.expiry_reason == Some(ExpiryReason::SmtInvalidated)
    }));
}

#[test]
fn t09c_snapshot_invalidation_uses_market_time_for_candidate_and_decision() {
    let mut engine = CandidateEngine::new();
    let c2_ts = TS_BASE + 2 * MTF_DUR;
    let mut smt = make_smt(
        "smt-9c",
        Direction::Bullish,
        true,
        SmtDetectionState::C2Confirmed,
        c2_ts,
        None,
    );
    engine.on_smt_event(&smt_event(&smt), c2_ts);

    let market_ts = c2_ts + MTF_DUR;
    smt.chains[0].detection_state = SmtDetectionState::Invalidated;
    smt.invalidation_reasons = vec![SmtInvalidationReason::SweeperC3Failed];
    smt.invalidation_ts = Some(market_ts);
    let changes = engine.on_smt_invalidated_at(&smt, market_ts);

    assert_eq!(changes.len(), 1);
    assert_eq!(changes[0].candidate.invalidated_at, Some(market_ts));
    assert_eq!(changes[0].decision.created_at, market_ts);
}

#[test]
fn t10_no_ttl_before_c3() {
    let mut engine = CandidateEngine::new();
    let c2_ts = TS_BASE + 2 * MTF_DUR;
    let smt = make_smt(
        "smt-10",
        Direction::Bullish,
        true,
        SmtDetectionState::C2Confirmed,
        c2_ts,
        None,
    );
    engine.on_smt_event(&smt_event(&smt), c2_ts);

    let active = engine.list_active();
    assert_eq!(active.len(), 1);
    assert_eq!(active[0].setup_status, SetupStatus::C2Confirmed);
    assert!(active[0].expiry_at.is_none());
    assert!(active[0].c3_candle.is_none());
}

#[test]
fn t11_decision_log_on_every_change() {
    let mut engine = CandidateEngine::new();
    let c2_ts = TS_BASE + 2 * MTF_DUR;
    let smt = make_smt(
        "smt-11",
        Direction::Bullish,
        true,
        SmtDetectionState::C2Confirmed,
        c2_ts,
        None,
    );
    let changes = engine.on_smt_event(&smt_event(&smt), c2_ts);
    assert_eq!(changes.len(), 1);
    let dec = &changes[0].decision;
    assert_eq!(dec.provider, "deterministic");
    assert!(dec.parse_ok);
    assert_eq!(dec.decision_mode, DecisionMode::Deterministic);
    assert!(dec.parent_id.is_none());
    assert!(!format!("{:?}", dec.parsed_decision).contains("alert"));
}

#[test]
fn t14_no_forbidden_fields_in_json() {
    let mut engine = CandidateEngine::new();
    let c2_ts = TS_BASE + 2 * MTF_DUR;
    let smt = make_smt(
        "smt-14",
        Direction::Bullish,
        true,
        SmtDetectionState::C2Confirmed,
        c2_ts,
        None,
    );
    let changes = engine.on_smt_event(&smt_event(&smt), c2_ts);
    let cand_json = format!("{:?}", changes[0].candidate);
    let dec_json = format!("{:?}", changes[0].decision);
    for forbidden in &[
        "entry_price",
        "sl_price",
        "tp_price",
        "position_size",
        "selected_symbol",
        "risk_reward",
        "invalidation_price",
        "entry_zone",
    ] {
        assert!(
            !cand_json.contains(forbidden),
            "CandidateSetup JSON contains forbidden field: {forbidden}"
        );
        assert!(
            !dec_json.contains(forbidden),
            "DecisionLogEntry JSON contains forbidden field: {forbidden}"
        );
    }
}

#[test]
fn t16_ttl_config_n3() {
    let mut engine = CandidateEngine::new();
    engine.set_expiry_mtf_bars(3);
    let c2_ts = TS_BASE + 2 * MTF_DUR;
    let c3_ts = c2_ts + MTF_DUR;
    let smt_c2 = make_smt(
        "smt-16",
        Direction::Bullish,
        true,
        SmtDetectionState::C2Confirmed,
        c2_ts,
        None,
    );
    engine.on_smt_event(&smt_event(&smt_c2), c2_ts);
    let smt_c3 = make_smt(
        "smt-16",
        Direction::Bullish,
        true,
        SmtDetectionState::C3Entry,
        c2_ts,
        Some(c3_ts),
    );
    engine.on_smt_event(&smt_update(&smt_c3), c3_ts);

    let expiry_at = c3_ts + 3 * MTF_DUR;
    let bar_before = make_bar("OANDA:EURUSD", expiry_at - 1, 1.082);
    let changes_before = engine.on_ltf_bar_close("OANDA:EURUSD", &bar_before, &[], expiry_at - 1);
    assert!(changes_before
        .iter()
        .all(|c| c.candidate.setup_status != SetupStatus::Expired));

    let bar_at = make_bar("OANDA:EURUSD", expiry_at, 1.082);
    let changes_at = engine.on_ltf_bar_close("OANDA:EURUSD", &bar_at, &[], expiry_at);
    assert!(changes_at
        .iter()
        .any(|c| c.candidate.setup_status == SetupStatus::ReCheck));
}

#[test]
fn t15_replay_rebuilds_active_candidates() {
    let mut engine = CandidateEngine::new();
    let c2_ts = TS_BASE + 2 * MTF_DUR;
    let smt = make_smt(
        "smt-15",
        Direction::Bullish,
        true,
        SmtDetectionState::C2Confirmed,
        c2_ts,
        None,
    );

    let mut ltf_map: Vec<SymbolEvents> = Vec::new();
    ltf_map.push(SymbolEvents {
        symbol: "OANDA:EURUSD".to_string(),
        events: vec![ltf_event(
            "OANDA:EURUSD",
            ReversalConfirmKind::Cisd,
            Direction::Bearish,
            c2_ts + 60_000,
        )],
    });

    engine.replay(vec![smt], &ltf_map, &Vec::new(), c2_ts + 120_000);
    let active = engine.list_active();
    assert_eq!(active.len(), 1);
    assert_eq!(active[0].setup_status, SetupStatus::Validated);
    assert_eq!(active[0].validation_kind, Some(ReversalConfirmKind::Cisd));
}

#[test]
fn t15b_replay_c3entry_spawns_candidate() {
    let mut engine = CandidateEngine::new();
    let c2_ts = TS_BASE + 2 * MTF_DUR;
    let c3_ts = TS_BASE + 3 * MTF_DUR;
    let smt = make_smt(
        "smt-15b",
        Direction::Bullish,
        true,
        SmtDetectionState::C3Entry,
        c2_ts,
        Some(c3_ts),
    );

    let ltf_map: Vec<SymbolEvents> = Vec::new();
    let changes = engine.replay(vec![smt], &ltf_map, &Vec::new(), c3_ts + 60_000);
    assert!(
        !changes.is_empty(),
        "replay should return changes for C3Entry SMT"
    );
    let active = engine.list_active();
    assert_eq!(active.len(), 1, "C3Entry SMT should spawn a candidate");
    assert!(active[0].c3_candle.is_some(), "C3 candle should be filled");
}

#[test]
fn t15c_replay_orders_cross_symbol_events_by_market_time() {
    let mut engine = CandidateEngine::new();
    let c2_ts = TS_BASE + 2 * MTF_DUR;
    let c3_ts = c2_ts + MTF_DUR;
    let mut smt = make_smt(
        "smt-15c",
        Direction::Bullish,
        true,
        SmtDetectionState::C3Entry,
        c2_ts,
        Some(c3_ts),
    );
    smt.trade_symbols.push("OANDA:GBPUSD".into());
    smt.symbol_set.push("OANDA:GBPUSD".into());
    smt.chains.push(SymbolChain {
        symbol: "OANDA:GBPUSD".into(),
        c1_candle: candle(TS_BASE, 1.279, 1.282, 1.278, 1.280),
        smt_k_candle: candle(TS_BASE + MTF_DUR, 1.281, 1.283, 1.280, 1.282),
        c2_candle: Some(candle(c2_ts, 1.280, 1.284, 1.279, 1.282)),
        c2_case: Some(1),
        c3_candle: Some(candle(c3_ts, 1.281, 1.285, 1.280, 1.283)),
        detection_state: SmtDetectionState::C3Entry,
    });

    let mut ltf_map: Vec<SymbolEvents> = Vec::new();
    ltf_map.push(SymbolEvents {
        symbol: "OANDA:GBPUSD".to_string(),
        events: vec![ltf_event(
            "OANDA:GBPUSD",
            ReversalConfirmKind::Cisd,
            Direction::Bullish,
            c2_ts + 120_000,
        )],
    });
    ltf_map.push(SymbolEvents {
        symbol: "OANDA:EURUSD".to_string(),
        events: vec![ltf_event(
            "OANDA:EURUSD",
            ReversalConfirmKind::Cisd,
            Direction::Bearish,
            c2_ts + 60_000,
        )],
    });

    engine.replay(vec![smt], &ltf_map, &Vec::new(), c3_ts + 60_000);
    let active = engine.list_active();
    assert_eq!(active.len(), 1);
    assert_eq!(active[0].setup_status, SetupStatus::Validated);
    assert_eq!(active[0].validation_symbol.as_deref(), Some("OANDA:EURUSD"));
}

#[test]
fn t15d_extract_ltf_events_is_chronological() {
    let newer = IctStructure::Cisd(Cisd {
        id: "newer".into(),
        symbol: "OANDA:EURUSD".into(),
        tf: Timeframe::M5,
        direction: Direction::Bearish,
        leg_origin_ts: TS_BASE,
        leg_origin_price: px(1.08),
        break_ts: TS_BASE + 120_000,
        break_price: px(1.079),
    });
    let older = IctStructure::Cisd(Cisd {
        id: "older".into(),
        symbol: "OANDA:EURUSD".into(),
        tf: Timeframe::M5,
        direction: Direction::Bearish,
        leg_origin_ts: TS_BASE,
        leg_origin_price: px(1.08),
        break_ts: TS_BASE + 60_000,
        break_price: px(1.0795),
    });
    let events = extract_ltf_events(&[newer, older]);
    assert_eq!(
        events
            .iter()
            .map(|event| event.id.as_str())
            .collect::<Vec<_>>(),
        vec!["older", "newer"]
    );
}

#[test]
fn t18_first_same_dir_event_per_symbol_wins() {
    let mut engine = CandidateEngine::new();
    let c2_ts = TS_BASE + 2 * MTF_DUR;
    let c3_ts = c2_ts + MTF_DUR;
    let smt_c2 = make_smt(
        "smt-18",
        Direction::Bullish,
        true,
        SmtDetectionState::C2Confirmed,
        c2_ts,
        None,
    );
    engine.on_smt_event(&smt_event(&smt_c2), c2_ts);
    let smt_c3 = make_smt(
        "smt-18",
        Direction::Bullish,
        true,
        SmtDetectionState::C3Entry,
        c2_ts,
        Some(c3_ts),
    );
    engine.on_smt_event(&smt_update(&smt_c3), c3_ts);

    let ev1 = ltf_event(
        "OANDA:EURUSD",
        ReversalConfirmKind::Cisd,
        Direction::Bearish,
        c2_ts + 60_000,
    );
    let bar1 = make_bar("OANDA:EURUSD", c2_ts + 60_000, 1.082);
    let changes1 = engine.on_ltf_bar_close("OANDA:EURUSD", &bar1, &[ev1.clone()], c2_ts + 60_000);
    assert!(changes1
        .iter()
        .any(|c| c.candidate.setup_status == SetupStatus::Validated));

    let ev2 = ltf_event(
        "OANDA:EURUSD",
        ReversalConfirmKind::Mss,
        Direction::Bearish,
        c2_ts + 120_000,
    );
    let bar2 = make_bar("OANDA:EURUSD", c2_ts + 120_000, 1.082);
    let changes2 = engine.on_ltf_bar_close("OANDA:EURUSD", &bar2, &[ev2.clone()], c2_ts + 120_000);
    assert!(changes2.is_empty());
    let cand = engine.list_active()[0].clone();
    assert_eq!(cand.c2_cisd_event_ids.len(), 1);
    assert_eq!(cand.validations.len(), 1);
}

#[test]
fn t19_same_event_across_bars_no_duplicate() {
    let mut engine = CandidateEngine::new();
    let c2_ts = TS_BASE + 2 * MTF_DUR;
    let c3_ts = c2_ts + MTF_DUR;
    let smt_c2 = make_smt(
        "smt-19",
        Direction::Bullish,
        true,
        SmtDetectionState::C2Confirmed,
        c2_ts,
        None,
    );
    engine.on_smt_event(&smt_event(&smt_c2), c2_ts);
    let smt_c3 = make_smt(
        "smt-19",
        Direction::Bullish,
        true,
        SmtDetectionState::C3Entry,
        c2_ts,
        Some(c3_ts),
    );
    engine.on_smt_event(&smt_update(&smt_c3), c3_ts);

    let ev1 = ltf_event(
        "OANDA:EURUSD",
        ReversalConfirmKind::Cisd,
        Direction::Bearish,
        c2_ts + 60_000,
    );

    let bar1 = make_bar("OANDA:EURUSD", c2_ts + 60_000, 1.082);
    let changes1 = engine.on_ltf_bar_close("OANDA:EURUSD", &bar1, &[ev1.clone()], c2_ts + 60_000);
    assert!(changes1
        .iter()
        .any(|c| c.candidate.setup_status == SetupStatus::Validated));
    assert_eq!(
        changes1[0].candidate.c2_cisd_event_ids.len(),
        1,
        "first bar should add ev1"
    );

    let bar2 = make_bar("OANDA:EURUSD", c2_ts + 120_000, 1.082);
    let changes2 = engine.on_ltf_bar_close("OANDA:EURUSD", &bar2, &[ev1.clone()], c2_ts + 120_000);
    assert!(
        changes2.is_empty(),
        "duplicate event should produce no changes"
    );

    let bar3 = make_bar("OANDA:EURUSD", c2_ts + 180_000, 1.082);
    let changes3 = engine.on_ltf_bar_close("OANDA:EURUSD", &bar3, &[ev1.clone()], c2_ts + 180_000);
    assert!(
        changes3.is_empty(),
        "duplicate event should still produce no changes"
    );

    let ev2 = ltf_event(
        "OANDA:EURUSD",
        ReversalConfirmKind::Mss,
        Direction::Bearish,
        c2_ts + 240_000,
    );
    let bar4 = make_bar("OANDA:EURUSD", c2_ts + 240_000, 1.082);
    let changes4 = engine.on_ltf_bar_close("OANDA:EURUSD", &bar4, &[ev2.clone()], c2_ts + 240_000);
    assert!(changes4.is_empty());
    assert_eq!(engine.list_active()[0].c2_cisd_event_ids.len(), 1);

    let bar5 = make_bar("OANDA:EURUSD", c2_ts + 300_000, 1.082);
    let changes5 = engine.on_ltf_bar_close(
        "OANDA:EURUSD",
        &bar5,
        &[ev1.clone(), ev2.clone()],
        c2_ts + 300_000,
    );
    assert!(
        changes5.is_empty(),
        "both known events should produce no changes"
    );
    assert_eq!(changes5.len(), 0, "no decision_log rows for known events");
}

#[test]
fn t20_bearish_sweeper_direction_flip() {
    let mut engine = CandidateEngine::new();
    let c2_ts = TS_BASE + 2 * MTF_DUR;
    let smt = make_smt(
        "smt-20",
        Direction::Bearish,
        true,
        SmtDetectionState::C2Confirmed,
        c2_ts,
        None,
    );
    engine.on_smt_event(&smt_event(&smt), c2_ts);

    let ev = ltf_event(
        "OANDA:EURUSD",
        ReversalConfirmKind::Cisd,
        Direction::Bullish,
        c2_ts + 60_000,
    );
    let bar = make_bar("OANDA:EURUSD", c2_ts + 60_000, 1.082);
    let changes = engine.on_ltf_bar_close("OANDA:EURUSD", &bar, &[ev], c2_ts + 60_000);
    assert_eq!(changes[0].candidate.setup_status, SetupStatus::Validated);
    assert_eq!(
        changes[0].candidate.validation_direction,
        Some(Direction::Bullish)
    );

    let mut engine2 = CandidateEngine::new();
    let smt2 = make_smt(
        "smt-20b",
        Direction::Bearish,
        true,
        SmtDetectionState::C2Confirmed,
        c2_ts,
        None,
    );
    engine2.on_smt_event(&smt_event(&smt2), c2_ts);

    let ev_rev = ltf_event(
        "OANDA:EURUSD",
        ReversalConfirmKind::Cisd,
        Direction::Bearish,
        c2_ts + 60_000,
    );
    let bar2 = make_bar("OANDA:EURUSD", c2_ts + 60_000, 1.082);
    let changes2 = engine2.on_ltf_bar_close("OANDA:EURUSD", &bar2, &[ev_rev], c2_ts + 60_000);
    assert!(changes2.iter().any(|c| {
        c.candidate.setup_status == SetupStatus::Invalidated
            && c.candidate.expiry_reason == Some(ExpiryReason::Reverse)
    }));
}

#[test]
fn t21_option_b_non_validation_symbol_reverse() {
    let mut engine = CandidateEngine::new();
    let c2_ts = TS_BASE + 2 * MTF_DUR;

    let mut smt = make_smt(
        "smt-21",
        Direction::Bullish,
        true,
        SmtDetectionState::C2Confirmed,
        c2_ts,
        None,
    );
    smt.trade_symbols.push("OANDA:GBPUSD".into());
    smt.symbol_set.push("OANDA:GBPUSD".into());
    smt.chains.push(SymbolChain {
        symbol: "OANDA:GBPUSD".into(),
        c1_candle: candle(TS_BASE, 1.279, 1.282, 1.278, 1.280),
        smt_k_candle: candle(TS_BASE + MTF_DUR, 1.281, 1.283, 1.280, 1.282),
        c2_candle: Some(candle(c2_ts, 1.280, 1.284, 1.279, 1.282)),
        c2_case: Some(1),
        c3_candle: None,
        detection_state: SmtDetectionState::C2Confirmed,
    });
    smt.liquidity_refs.push(LiquidityRef {
        symbol: "OANDA:GBPUSD".into(),
        ref_price: px(1.28),
        ref_ts: TS_BASE,
        side: LiquiditySide::BuySide,
        status: LiquidityRefStatus::NotSwept,
        tf: Timeframe::H4,
        mtf_ref_candle: None,
        mtf_sweep_candle: None,
    });

    engine.on_smt_event(&smt_event(&smt), c2_ts);

    let ev_eu = ltf_event(
        "OANDA:EURUSD",
        ReversalConfirmKind::Cisd,
        Direction::Bearish,
        c2_ts + 60_000,
    );
    let bar_eu = make_bar("OANDA:EURUSD", c2_ts + 60_000, 1.082);
    let changes = engine.on_ltf_bar_close("OANDA:EURUSD", &bar_eu, &[ev_eu], c2_ts + 60_000);
    assert!(changes
        .iter()
        .any(|c| c.candidate.setup_status == SetupStatus::Validated));
    assert_eq!(
        changes[0].candidate.validation_symbol.as_deref(),
        Some("OANDA:EURUSD")
    );

    let ev_gu = ltf_event(
        "OANDA:GBPUSD",
        ReversalConfirmKind::Cisd,
        Direction::Bullish,
        c2_ts + 120_000,
    );
    let bar_gu = make_bar("OANDA:GBPUSD", c2_ts + 120_000, 1.282);
    let changes2 = engine.on_ltf_bar_close("OANDA:GBPUSD", &bar_gu, &[ev_gu], c2_ts + 120_000);
    assert!(
        changes2
            .iter()
            .all(|c| c.candidate.setup_status != SetupStatus::Invalidated),
        "GBPUSD reverse CISD must not invalidate EURUSD-validated candidate"
    );

    let ev_eu_rev = ltf_event(
        "OANDA:EURUSD",
        ReversalConfirmKind::Cisd,
        Direction::Bullish,
        c2_ts + 180_000,
    );
    let bar_eu_rev = make_bar("OANDA:EURUSD", c2_ts + 180_000, 1.082);
    let changes3 =
        engine.on_ltf_bar_close("OANDA:EURUSD", &bar_eu_rev, &[ev_eu_rev], c2_ts + 180_000);
    assert!(changes3.is_empty());
    let candidate = engine.list_active()[0].clone();
    assert_eq!(candidate.setup_status, SetupStatus::Validated);
    assert_eq!(candidate.validations.len(), 1);
    assert!(candidate
        .invalidated_symbols
        .contains(&"OANDA:GBPUSD".to_string()));
    assert_eq!(
        invalidation_reason(&candidate.symbol_invalidation_reasons, "OANDA:GBPUSD"),
        Some(ExpiryReason::Reverse)
    );
}

#[test]
fn t22_ltf_path_to_alert_integration() {

    let mut cand_engine = CandidateEngine::new();
    let c2_ts = TS_BASE + 2 * MTF_DUR;
    let smt = make_smt(
        "smt-t22",
        Direction::Bullish,
        true,
        SmtDetectionState::C2Confirmed,
        c2_ts,
        None,
    );
    cand_engine.on_smt_event(&smt_event(&smt), c2_ts);

    let ev = ltf_event(
        "OANDA:EURUSD",
        ReversalConfirmKind::Cisd,
        Direction::Bearish,
        c2_ts + 60_000,
    );
    let bar = Bar {
        symbol: "OANDA:EURUSD".into(),
        tf: Timeframe::M5,
        ts: c2_ts + 60_000,
        open: px(1.082),
        high: px(1.083),
        low: px(1.081),
        close: px(1.082),
        volume: vol(1.0),
    };
    let changes = cand_engine.on_ltf_bar_close("OANDA:EURUSD", &bar, &[ev], c2_ts + 60_000);

    let validated = changes
        .iter()
        .find(|c| c.candidate.setup_status == SetupStatus::Validated);
    assert!(
        validated.is_some(),
        "LTF bar close should produce Validated transition"
    );
    let change = validated.unwrap();

    let mut alert_engine = AlertEngine::new();
    let c2_change = cand_engine.list_active().into_iter().next().map(|c| {
        CandidateChange {
            candidate: CandidateSetup {
                setup_status: SetupStatus::C2Confirmed,
                ..c
            },
            validation_event: None,
            decision: DecisionLogEntry {
                id: "seed".into(),
                candidate_id: "seed".into(),
                watchlist_id: "test".into(),
                alert_id: None,
                trade_symbol: None,
                parent_id: None,
                provider: "deterministic".into(),
                model: None,
                decision_mode: DecisionMode::Deterministic,
                prompt_version: None,
                strategy_version: "m6a.v1".into(),
                context_version: "m6a.v1".into(),
                request: change.decision.request.clone(),
                raw_response: None,
                parsed_decision: change.decision.parsed_decision.clone(),
                parse_ok: true,
                error: None,
                created_at: c2_ts,
            },
        }
    });
    if let Some(c2c) = c2_change {
        alert_engine.on_candidate_change(&c2c, c2_ts, false, FiredFacts::none());
    }

    let alert = alert_engine.on_candidate_change(change, c2_ts + 60_000, false, FiredFacts::none());
    assert!(
        alert.is_some(),
        "AlertEngine should fire on LTF Validated transition"
    );
    let alert = alert.unwrap();
    assert_eq!(alert.trigger, AlertTrigger::Validated);
    assert_eq!(alert.candidate_id, change.candidate.id);
    assert_eq!(
        alert.validation_direction,
        change.candidate.validation_direction
    );
}

#[test]
fn t23_c2_timestamp_is_inside_validation_window() {
    let mut engine = CandidateEngine::new();
    let c2_ts = TS_BASE + 2 * MTF_DUR;
    let smt = make_smt(
        "smt-23",
        Direction::Bullish,
        true,
        SmtDetectionState::C2Confirmed,
        c2_ts,
        None,
    );
    engine.on_smt_event(&smt_event(&smt), c2_ts);

    let event = ltf_event(
        "OANDA:EURUSD",
        ReversalConfirmKind::Cisd,
        Direction::Bearish,
        c2_ts,
    );
    let bar = make_bar("OANDA:EURUSD", c2_ts, 1.082);
    let changes = engine.on_ltf_bar_close("OANDA:EURUSD", &bar, &[event], c2_ts);

    assert_eq!(changes.len(), 1);
    assert_eq!(changes[0].candidate.setup_status, SetupStatus::Validated);
    assert_eq!(changes[0].candidate.validation_ts, Some(c2_ts));
}

#[test]
fn t24_future_ltf_event_is_not_consumed_early() {
    let mut engine = CandidateEngine::new();
    let c2_ts = TS_BASE + 2 * MTF_DUR;
    let smt = make_smt(
        "smt-24",
        Direction::Bullish,
        true,
        SmtDetectionState::C2Confirmed,
        c2_ts,
        None,
    );
    engine.on_smt_event(&smt_event(&smt), c2_ts);

    let future_event = ltf_event(
        "OANDA:EURUSD",
        ReversalConfirmKind::Cisd,
        Direction::Bearish,
        c2_ts + 10 * 60_000,
    );
    let current_bar = make_bar("OANDA:EURUSD", c2_ts + 5 * 60_000, 1.082);
    let changes = engine.on_ltf_bar_close(
        "OANDA:EURUSD",
        &current_bar,
        &[future_event],
        current_bar.ts,
    );

    assert!(changes.is_empty());
    assert_eq!(
        engine.list_active()[0].setup_status,
        SetupStatus::C2Confirmed
    );
}

#[test]
fn t25_c2_break_wins_over_same_bar_validation() {
    let mut engine = CandidateEngine::new();
    let c2_ts = TS_BASE + 2 * MTF_DUR;
    let smt = make_smt(
        "smt-25",
        Direction::Bullish,
        true,
        SmtDetectionState::C2Confirmed,
        c2_ts,
        None,
    );
    engine.on_smt_event(&smt_event(&smt), c2_ts);

    let event = ltf_event(
        "OANDA:EURUSD",
        ReversalConfirmKind::Cisd,
        Direction::Bearish,
        c2_ts + 60_000,
    );
    let bar = make_bar("OANDA:EURUSD", c2_ts + 60_000, 1.090);
    let changes = engine.on_ltf_bar_close("OANDA:EURUSD", &bar, &[event], bar.ts);

    assert_eq!(changes.len(), 1, "must not emit a transient validation");
    assert_eq!(changes[0].candidate.setup_status, SetupStatus::Invalidated);
    assert_eq!(
        changes[0].candidate.expiry_reason,
        Some(ExpiryReason::C2Break)
    );
}

#[test]
fn t26_repeated_c3_update_is_idempotent() {
    let mut engine = CandidateEngine::new();
    let c2_ts = TS_BASE + 2 * MTF_DUR;
    let c3_ts = c2_ts + MTF_DUR;
    let c2 = make_smt(
        "smt-26",
        Direction::Bullish,
        true,
        SmtDetectionState::C2Confirmed,
        c2_ts,
        None,
    );
    engine.on_smt_event(&smt_event(&c2), c2_ts);
    let c3 = make_smt(
        "smt-26",
        Direction::Bullish,
        true,
        SmtDetectionState::C3Entry,
        c2_ts,
        Some(c3_ts),
    );

    assert_eq!(engine.on_smt_event(&smt_update(&c3), c3_ts).len(), 1);
    assert!(engine
        .on_smt_event(&smt_update(&c3), c3_ts + 60_000)
        .is_empty());
}

#[test]
fn t27_aggregates_eu_and_gu_even_when_only_gu_is_smt_trade_leg() {
    let mut engine = CandidateEngine::new();
    let c2_ts = TS_BASE + 2 * MTF_DUR;
    let mut smt = make_smt(
        "smt-27",
        Direction::Bullish,
        true,
        SmtDetectionState::C2Confirmed,
        c2_ts,
        None,
    );
    smt.trade_symbols = vec!["OANDA:GBPUSD".into()];
    smt.symbol_set.push("OANDA:GBPUSD".into());
    smt.chains.push(SymbolChain {
        symbol: "OANDA:GBPUSD".into(),
        c1_candle: candle(TS_BASE, 1.279, 1.282, 1.278, 1.280),
        smt_k_candle: candle(TS_BASE + MTF_DUR, 1.281, 1.283, 1.280, 1.282),
        c2_candle: Some(candle(c2_ts, 1.280, 1.284, 1.279, 1.282)),
        c2_case: Some(1),
        c3_candle: None,
        detection_state: SmtDetectionState::C2Confirmed,
    });

    let spawned = engine.on_smt_event(&smt_event(&smt), c2_ts);
    assert_eq!(
        spawned[0].candidate.trade_symbols,
        vec!["OANDA:EURUSD", "OANDA:GBPUSD"]
    );

    let eu_event = ltf_event(
        "OANDA:EURUSD",
        ReversalConfirmKind::Mss,
        Direction::Bearish,
        c2_ts + 5 * 60_000,
    );
    let eu_bar = make_bar("OANDA:EURUSD", eu_event.ts, 1.082);
    let eu_changes =
        engine.on_ltf_bar_close("OANDA:EURUSD", &eu_bar, &[eu_event.clone()], eu_event.ts);
    assert_eq!(eu_changes.len(), 1);
    assert_eq!(
        eu_changes[0]
            .validation_event
            .as_ref()
            .map(|validation| validation.symbol.as_str()),
        Some("OANDA:EURUSD")
    );

    let gu_event = ltf_event(
        "OANDA:GBPUSD",
        ReversalConfirmKind::Cisd,
        Direction::Bearish,
        c2_ts + 10 * 60_000,
    );
    let gu_bar = make_bar("OANDA:GBPUSD", gu_event.ts, 1.282);
    let gu_changes =
        engine.on_ltf_bar_close("OANDA:GBPUSD", &gu_bar, &[gu_event.clone()], gu_event.ts);
    assert_eq!(gu_changes.len(), 1);
    assert_eq!(gu_changes[0].candidate.validations.len(), 2);
    assert_eq!(gu_changes[0].candidate.validation_ts, Some(eu_event.ts));
    assert_eq!(
        gu_changes[0]
            .validation_event
            .as_ref()
            .map(|validation| validation.symbol.as_str()),
        Some("OANDA:GBPUSD")
    );
}

#[test]
fn t30_trade_symbol_uses_its_own_earlier_c2_c3_window() {
    let mut engine = CandidateEngine::new();
    let dxy_c2_ts = TS_BASE + 3 * MTF_DUR;
    let eu_c2_ts = TS_BASE + MTF_DUR;
    let eu_c3_ts = TS_BASE + 2 * MTF_DUR;
    let mut smt = make_smt(
        "smt-30",
        Direction::Bullish,
        true,
        SmtDetectionState::C2Confirmed,
        dxy_c2_ts,
        None,
    );
    let eu_chain = smt
        .chains
        .iter_mut()
        .find(|chain| chain.symbol == "OANDA:EURUSD")
        .unwrap();
    eu_chain.c2_candle = Some(candle(eu_c2_ts, 1.080, 1.084, 1.079, 1.082));
    eu_chain.c3_candle = Some(candle(eu_c3_ts, 1.081, 1.085, 1.080, 1.083));
    eu_chain.detection_state = SmtDetectionState::C3Entry;

    engine.on_smt_event(&smt_event(&smt), dxy_c2_ts);
    let reversal_ts = eu_c2_ts + 5 * 60_000;
    let reversal = ltf_event(
        "OANDA:EURUSD",
        ReversalConfirmKind::Mss,
        Direction::Bearish,
        reversal_ts,
    );
    let current_bar = make_bar("OANDA:EURUSD", dxy_c2_ts, 1.082);
    let changes = engine.on_ltf_bar_close("OANDA:EURUSD", &current_bar, &[reversal], dxy_c2_ts);
    assert_eq!(changes.len(), 1);
    assert_eq!(changes[0].candidate.validation_ts, Some(reversal_ts));
}

#[test]
fn t28_replay_uses_earlier_reversal_before_later_c2_break() {
    let mut engine = CandidateEngine::new();
    let c2_ts = TS_BASE + 2 * MTF_DUR;
    let smt = make_smt(
        "smt-28",
        Direction::Bullish,
        true,
        SmtDetectionState::C2Confirmed,
        c2_ts,
        None,
    );
    let validation = ltf_event(
        "OANDA:EURUSD",
        ReversalConfirmKind::Mss,
        Direction::Bearish,
        c2_ts + 5 * 60_000,
    );
    let mut structures: Vec<SymbolEvents> = Vec::new();
    structures.push(SymbolEvents {
        symbol: "OANDA:EURUSD".to_string(),
        events: vec![validation.clone()],
    });
    let mut bars: Vec<SymbolBars> = Vec::new();
    bars.push(SymbolBars {
        symbol: "OANDA:EURUSD".to_string(),
        bars: vec![make_bar("OANDA:EURUSD", c2_ts + 10 * 60_000, 1.090)],
    });

    engine.replay(vec![smt], &structures, &bars, c2_ts + 15 * 60_000);
    let candidate = engine.list_active().into_iter().next().expect("candidate");
    assert_eq!(candidate.setup_status, SetupStatus::Validated);
    assert_eq!(candidate.validation_ts, Some(validation.ts));
}

#[test]
fn t29_replay_same_bar_c2_break_beats_reversal() {
    let mut engine = CandidateEngine::new();
    let c2_ts = TS_BASE + 2 * MTF_DUR;
    let smt = make_smt(
        "smt-29",
        Direction::Bullish,
        true,
        SmtDetectionState::C2Confirmed,
        c2_ts,
        None,
    );
    let ts = c2_ts + 5 * 60_000;
    let mut structures: Vec<SymbolEvents> = Vec::new();
    structures.push(SymbolEvents {
        symbol: "OANDA:EURUSD".to_string(),
        events: vec![ltf_event(
            "OANDA:EURUSD",
            ReversalConfirmKind::Mss,
            Direction::Bearish,
            ts,
        )],
    });
    let mut bars: Vec<SymbolBars> = Vec::new();
    bars.push(SymbolBars {
        symbol: "OANDA:EURUSD".to_string(),
        bars: vec![make_bar("OANDA:EURUSD", ts, 1.090)],
    });

    let changes = engine.replay(vec![smt], &structures, &bars, ts);
    assert!(changes.iter().any(|change| {
        change.candidate.setup_status == SetupStatus::Invalidated
            && change.candidate.expiry_reason == Some(ExpiryReason::C2Break)
    }));
    assert!(engine.list_active().is_empty());
}
