use ict_monitor::alert::records::build_c2_alert;
use ict_monitor::alert::types::{AlertRecord, ChannelKind};
use ict_monitor::backtest::cli::{find_output_fault, parse_arguments, parse_count, Command};
use ict_monitor::backtest::model::{
    EntryZone, Evaluation, ExitMode, Guardrails, Outcome, Parameters, Simulation, SymbolCutoff,
    Trade, TradeDirection, TradeFacts, UserResult, MINUTE, R_SCALE, VERSION,
};
use ict_monitor::backtest::output::{
    can_be_reported, cell, csv, markdown, project_r, project_user, shortest_text, user_summary, TradeTexts,
};
use ict_monitor::backtest::report::{are_summable, safe};
use ict_monitor::backtest::run::{
    begin_trade, find_cutoff, finish_run, issue_counts, outcome_counts, prepare_trade, AlertRow,
};
use ict_monitor::backtest::simulator;
use ict_monitor::backtest::source::{
    alert_symbol, anchor_gap, buckets_at, evaluate_trade, fill_in, find_source_fault, gap_category,
    holding_bars, reject_trade, time_buckets, trade_evidence, user_buffers, user_multiples, Row,
};
use ict_monitor::backtest::stats::{average, median, number, quantile, stats, Fraction};
use ict_monitor::candidate::types::{CandidateSetup, DecisionStatus, SetupStatus, SetupType};
use ict_monitor::detector::{
    CandleRef, Correlation, Direction, LiquidityRef, LiquidityRefStatus, LiquiditySide,
    ReferenceScope, SmtDetectionState, SmtDivergence, SymbolChain,
};
use ict_monitor::identity::content_hash;
use ict_monitor::types::{Bar, Timeframe};

const USER_BUFFERS: [u8; 3] = [0, 5, 10];
const USER_MULTIPLES: [f64; 4] = [1.0, 1.5, 2.0, 3.0];

fn vol(x: f64) -> i128 {
    (x * 1e9).round() as i128
}

fn px(x: f64) -> i64 {
    (x * 1e9).round() as i64
}

fn risk(x: Option<i128>) -> Option<f64> {
    x.map(|x| x as f64 / 1e18)
}

fn read(x: Option<i64>) -> Option<f64> {
    x.map(|x| x as f64 / 1e9)
}

/// A simulation with its numbers as they are read.
#[derive(Clone, Debug, PartialEq)]
struct Seen {
    outcome: Outcome,
    reason: String,
    entry: Option<f64>,
    entry_ts: Option<i64>,
    exit_ts: Option<i64>,
    realized_rr: Option<f64>,
    floating_rr: Option<f64>,
    mfe_rr: Option<f64>,
    mae_rr: Option<f64>,
    time_to_entry_ms: Option<i64>,
    time_to_target_ms: Option<i64>,
    time_to_stop_ms: Option<i64>,
}

fn seen(s: &Simulation) -> Seen {
    Seen {
        outcome: s.outcome,
        reason: s.reason.clone(),
        entry: read(s.entry),
        entry_ts: s.entry_ts,
        exit_ts: s.exit_ts,
        realized_rr: risk(s.realized_rr),
        floating_rr: risk(s.floating_rr),
        mfe_rr: risk(s.mfe_rr),
        mae_rr: risk(s.mae_rr),
        time_to_entry_ms: s.time_to_entry_ms,
        time_to_target_ms: s.time_to_target_ms,
        time_to_stop_ms: s.time_to_stop_ms,
    }
}

/// A result with its numbers as they are read.
struct UserSeen {
    stop: Option<f64>,
    target: Option<f64>,
    target1_in_user_r: Option<f64>,
    simulation: Seen,
}

fn simulate(
    g: &Guardrails,
    as_of: i64,
    price: f64,
    bars: &[Bar],
    window: usize,
    holding: usize,
) -> Seen {
    seen(&simulator::simulate(g, as_of, px(price), bars, window, holding))
}

fn simulate_exit(
    g: &Guardrails,
    as_of: i64,
    price: f64,
    bars: &[Bar],
    window: usize,
    holding: usize,
    fixed_r: Option<f64>,
) -> Seen {
    let fixed = fixed_r.map(|r| (r * 1000.0).round() as u32);
    seen(&simulator::simulate_exit(g, as_of, px(price), bars, window, holding, fixed))
}

fn simulate_anchor(
    g: &Guardrails,
    as_of: i64,
    price: f64,
    bars: &[Bar],
    holding: usize,
    multiple: f64,
) -> Seen {
    let multiple = (multiple * 1000.0).round() as u32;
    seen(&simulator::simulate_anchor(g, as_of, px(price), bars, holding, multiple))
}

fn point_of(symbol: &str) -> f64 {
    match symbol {
        "TVC:DXY" | "OANDA:USDJPY" => 0.001,
        "COINBASE:BTCUSD" => 0.01,
        _ => 0.00001,
    }
}

fn simulate_user(
    g: &Guardrails,
    symbol: &str,
    c2: &CandleRef,
    as_of: i64,
    price: f64,
    bars: &[Bar],
    holding: usize,
    buffer: u8,
    multiple: f64,
) -> UserSeen {
    let multiple = (multiple * 1000.0).round() as u32;
    let point = px(point_of(symbol));
    let r: UserResult = simulator::simulate_user(
        g,
        point,
        c2,
        as_of,
        px(price),
        bars,
        holding,
        buffer,
        multiple,
    );
    UserSeen {
        stop: read(r.stop),
        target: r.target.map(|x| x as f64 / 1e12),
        target1_in_user_r: risk(r.target1_in_user_r),
        simulation: seen(&r.simulation),
    }
}

fn g() -> Guardrails {
    Guardrails {
        direction: TradeDirection::Bullish,
        entry_zone: Some(EntryZone {
            low: px(100.0),
            high: px(101.0),
        }),
        invalidation_price: Some(px(99.0)),
        targets: vec![px(105.0)],
    }
}

fn bar(ts: i64, low: f64, high: f64, close: f64) -> Bar {
    Bar {
        symbol: "OANDA:EURUSD".into(),
        tf: Timeframe::M1,
        ts,
        open: px(close),
        high: px(high),
        low: px(low),
        close: px(close),
        volume: vol(1.0),
    }
}

fn user_c2() -> CandleRef {
    CandleRef {
        ts: 0,
        open: px(100.0),
        close: px(101.0),
        low: px(99.0),
        high: px(103.0),
    }
}

fn candle(ts: i64) -> CandleRef {
    CandleRef {
        ts,
        open: px(100.0),
        high: px(101.0),
        low: px(99.0),
        close: px(100.5),
    }
}

fn fixture(watchlist_id: &str, candidate_id: &str) -> (CandidateSetup, SmtDivergence, AlertRecord) {
    let chain = |symbol: &str, c2_ts: i64| SymbolChain {
        symbol: symbol.into(),
        c1_candle: candle(1_000),
        smt_k_candle: candle(2_000),
        c2_candle: Some(candle(c2_ts)),
        c2_case: Some(1),
        c3_candle: Some(candle(c2_ts + 1_800_000)),
        detection_state: SmtDetectionState::C3Entry,
    };
    let smt = SmtDivergence {
        id: format!("smt-{candidate_id}"),
        watchlist_id: watchlist_id.into(),
        rule_version: "current".into(),
        symbol_set: vec!["TVC:DXY".into(), "OANDA:EURUSD".into()],
        relationship: Correlation::Negative,
        context_timeframe: Timeframe::H4,
        comparison_timeframe: Timeframe::M30,
        observation_window: (500, 9_000),
        htf_confirmed: true,
        reference_scope: ReferenceScope::DistantLeftSide,
        liquidity_refs: vec![LiquidityRef {
            symbol: "OANDA:EURUSD".into(),
            ref_price: px(98.0),
            ref_ts: 1_500,
            side: LiquiditySide::SellSide,
            status: LiquidityRefStatus::NotSwept,
            tf: Timeframe::H4,
            mtf_ref_candle: None,
            mtf_sweep_candle: None,
        }],
        confluence_refs: vec![],
        candidate_direction: Direction::Bullish,
        sweeper_symbol: "TVC:DXY".into(),
        trade_symbols: vec!["OANDA:EURUSD".into()],
        strength: vec![],
        chains: vec![chain("TVC:DXY", 3_000), chain("OANDA:EURUSD", 4_000)],
        invalidation_reasons: vec![],
        invalidation_ts: None,
        htf_pda_ref: None,
        mtf_ref_candle: None,
    };
    let candidate = CandidateSetup {
        id: candidate_id.into(),
        rule_version: "m6a.v1".into(),
        watchlist_id: watchlist_id.into(),
        smt_id: smt.id.clone(),
        setup_type: SetupType::Smt,
        symbol_set: smt.symbol_set.clone(),
        sweeper_symbol: smt.sweeper_symbol.clone(),
        trade_symbols: smt.trade_symbols.clone(),
        candidate_direction: Direction::Bullish,
        context_timeframe: Timeframe::H4,
        comparison_timeframe: Timeframe::M30,
        validation_timeframe: Timeframe::M5,
        context_pda_id: Some("pda-test".into()),
        observation_window: smt.observation_window,
        c1_candle: candle(1_000),
        smt_k_candle: candle(2_000),
        c2_candle: candle(3_000),
        c2_case: 1,
        c3_candle: Some(candle(4_800_000)),
        c2_cisd_event_ids: vec![],
        c3_cisd_event_ids: vec![],
        validation_kind: None,
        validation_symbol: None,
        validation_ts: None,
        validation_direction: None,
        validations: vec![],
        invalidated_symbols: vec![],
        symbol_invalidation_reasons: vec![],
        setup_status: SetupStatus::C2Confirmed,
        decision_status: DecisionStatus::New,
        deterministic_score: 60,
        created_at: 4_000,
        validated_at: None,
        expired_at: None,
        invalidated_at: None,
        expiry_reason: None,
        strength: vec![],
        expiry_at: None,
        smt_rule_version: "current".into(),
    };
    let alert = build_c2_alert(
        &candidate,
        &smt,
        "OANDA:EURUSD",
        4_000 + Timeframe::M30.duration_ms(),
        vec![ChannelKind::Inbox],
    )
    .expect("C2 alert fixture");
    (candidate, smt, alert)
}

/// Stored rows of one alert, in memory.
#[derive(Clone)]
struct Source {
    candidate: CandidateSetup,
    smt: SmtDivergence,
    alert: AlertRecord,
    bars: Vec<Bar>,
    guardrails: Guardrails,
}

impl Source {
    fn as_of(&self) -> i64 {
        self.alert.created_at
    }

    fn insert(&mut self, bars: &[Bar]) {
        self.bars.extend(bars.iter().cloned());
        self.bars.sort_by_key(|b| b.ts);
    }

    fn of(&self, symbol: &str) -> Vec<Bar> {
        self.bars.iter().filter(|b| b.symbol == symbol).cloned().collect()
    }

    fn c2(&mut self) -> &mut CandleRef {
        self.smt.chains[1].c2_candle.as_mut().unwrap()
    }

    fn evaluate(&self, p: &Parameters, run_id: &str) -> Evaluation {
        let as_of = self.as_of();
        let trade = begin_trade(AlertRow {
            id: self.alert.id.clone(),
            candidate_id: self.alert.candidate_id.clone(),
            smt_id: self.alert.smt_id.clone(),
            watchlist_id: self.alert.watchlist_id.clone(),
            validation_symbol: self.alert.validation_symbol.clone(),
            trade_symbols: Some(self.alert.trade_symbols.clone()),
            created_at: as_of,
        });
        let symbol = trade.symbol.clone();
        let (trade, evidence) = prepare_trade(
            p,
            trade,
            &Row::Found(self.candidate.clone()),
            &Row::Found(self.smt.clone()),
            Some(60),
            "ctx",
            "strategy",
        );
        let evidence = evidence.expect("evidence of the alert");
        let own = self.of(&symbol);
        let expected = as_of - MINUTE;
        let c2 = self.smt.chains[1].c2_candle.unwrap();
        let facts = TradeFacts {
            guardrails: self.guardrails.clone(),
            direction: "bearish".into(),
            confidence: 60,
            quality: "B".into(),
            evidence_hash: content_hash(&format!("{evidence:?}")),
            cutoff: own.last().map(|b| b.ts).unwrap_or(0),
            anchor_close: own.iter().find(|b| b.ts == expected).map(|b| b.close),
            first_m1: own.first().map(|b| b.ts),
            last_m1: own.last().map(|b| b.ts),
            previous_m1: own.iter().rev().find(|b| b.ts < expected).map(|b| b.ts),
            next_m1: own.iter().find(|b| b.ts > expected).map(|b| b.ts),
            comparison_close_available: false,
            confirmed_c2: if c2.ts + Timeframe::M30.duration_ms() <= as_of {
                Some(c2)
            } else {
                None
            },
            bars: own,
            point: px(point_of(&symbol)),
        };
        let trade = fill_in(p.mode, evaluate_trade(p, trade, &facts));
        let mut symbols: Vec<String> = self.bars.iter().map(|b| b.symbol.clone()).collect();
        symbols.sort();
        symbols.dedup();
        let cutoffs = symbols
            .into_iter()
            .map(|symbol| SymbolCutoff {
                cutoff: self.of(&symbol).last().map(|b| b.ts).unwrap_or(0),
                symbol,
            })
            .collect();
        finish_run(run_id.into(), p.clone(), cutoffs, 0, vec![trade])
    }
}

fn seed() -> Source {
    let (candidate, smt, alert) = fixture("test-group", "test-candidate");
    let as_of = alert.created_at;
    Source {
        candidate,
        smt,
        alert,
        bars: vec![
            bar(as_of - MINUTE, 100.0, 101.0, 100.25),
            bar(as_of, 97.5, 100.5, 98.0),
            bar(as_of + MINUTE, 97.5, 100.0, 99.0),
        ],
        guardrails: Guardrails {
            direction: TradeDirection::Bearish,
            entry_zone: Some(EntryZone { low: px(100.0), high: px(100.5) }),
            invalidation_price: Some(px(101.0)),
            targets: vec![px(98.0)],
        },
    }
}

fn parameters() -> Parameters {
    Parameters {
        version: VERSION.into(),
        source: "source.db".into(),
        cohort: "test".into(),
        entry_bars: 2,
        holding_bars: Some(2),
        ttl_mtf_bars: 5,
        mode: ExitMode::Targets,
        guardrail_version: "strategy".into(),
    }
}

fn texts(e: &Evaluation) -> Vec<TradeTexts> {
    e.trades
        .iter()
        .map(|_| TradeTexts {
            guardrails_json: "{}".into(),
            anchor_gap_json: "null".into(),
            planned_rr: String::new(),
        })
        .collect()
}

fn value(f: Option<Fraction>) -> Option<f64> {
    f.map(|f| f.num as f64 / f.den as f64)
}

#[test]
fn l2_immediate_entry_target_rr_and_time() {
    let s = simulate(&g(), 0, 100.0, &[bar(0, 100.0, 105.0, 104.0)], 2, 2);
    assert_eq!(s.outcome, Outcome::Win);
    assert_eq!(s.entry, Some(100.0));
    assert_eq!(s.realized_rr, Some(5.0));
    assert_eq!(s.time_to_entry_ms, Some(0));
    assert_eq!(s.time_to_target_ms, Some(MINUTE));
}

#[test]
fn l2_boundary_fill_then_target() {
    let s = simulate(
        &g(),
        0,
        103.0,
        &[
            bar(0, 100.5, 104.0, 102.0),
            bar(MINUTE, 102.0, 105.0, 104.0),
        ],
        2,
        2,
    );
    assert_eq!(s.entry, Some(101.0));
    assert_eq!(s.realized_rr, Some(2.0));
    assert_eq!(s.time_to_entry_ms, Some(MINUTE));
}

#[test]
fn l2_stop_before_entry_is_skip() {
    let s = simulate(&g(), 0, 103.0, &[bar(0, 98.0, 99.0, 98.5)], 2, 2);
    assert_eq!(s.outcome, Outcome::Skip);
    assert_eq!(s.entry, None);
}

#[test]
fn l2_same_bar_entry_stop_is_ambiguous_unfilled() {
    let s = simulate(&g(), 0, 103.0, &[bar(0, 98.0, 104.0, 102.0)], 2, 2);
    assert_eq!(s.outcome, Outcome::Ambiguous);
    assert_eq!(s.entry, None);
    assert_eq!(s.realized_rr, None);
}

#[test]
fn l2_window_exhausted_no_fill() {
    assert_eq!(
        simulate(
            &g(),
            0,
            103.0,
            &[
                bar(0, 102.0, 104.0, 103.0),
                bar(MINUTE, 102.0, 104.0, 103.0)
            ],
            2,
            2
        )
        .outcome,
        Outcome::NoFill
    );
}

#[test]
fn l2_stop_after_entry_is_minus_one() {
    let s = simulate(&g(), 0, 100.0, &[bar(0, 98.0, 102.0, 100.0)], 2, 2);
    assert_eq!(s.outcome, Outcome::Loss);
    assert_eq!(s.realized_rr, Some(-1.0));
    assert_eq!(s.time_to_stop_ms, Some(MINUTE));
}

#[test]
fn l2_same_bar_target_stop_conservative_loss() {
    let s = simulate(&g(), 0, 100.0, &[bar(0, 98.0, 106.0, 102.0)], 2, 2);
    assert_eq!(s.outcome, Outcome::Loss);
    assert_eq!(s.realized_rr, Some(-1.0));
    assert_eq!(s.mfe_rr, Some(0.0));
}

#[test]
fn l2_expired_marks_float_not_realized() {
    let s = simulate(
        &g(),
        0,
        100.0,
        &[bar(0, 99.5, 102.0, 101.0), bar(MINUTE, 99.5, 104.0, 103.0)],
        2,
        2,
    );
    assert_eq!(s.outcome, Outcome::Expired);
    assert_eq!(s.realized_rr, None);
    assert_eq!(s.floating_rr, Some(3.0));
    assert_eq!(s.mfe_rr, Some(4.0));
    assert_eq!(s.mae_rr, Some(0.5));
}

#[test]
fn l2_entry_bar_target_is_not_awarded_before_known_fill() {
    let s = simulate(
        &g(),
        0,
        103.0,
        &[
            bar(0, 100.0, 106.0, 102.0),
            bar(MINUTE, 102.0, 103.0, 102.0),
        ],
        2,
        1,
    );
    assert_eq!(s.outcome, Outcome::Expired);
    assert_eq!(s.floating_rr, Some(0.5));
}

#[test]
fn bearish_boundary_and_rr_are_symmetric() {
    let mut guard = g();
    guard.direction = TradeDirection::Bearish;
    guard.invalidation_price = Some(px(102.0));
    guard.targets[0] = px(96.0);
    let s = simulate(
        &guard,
        0,
        98.0,
        &[bar(0, 98.0, 100.5, 100.0), bar(MINUTE, 96.0, 100.0, 97.0)],
        2,
        2,
    );
    assert_eq!(s.entry, Some(100.0));
    assert_eq!(s.outcome, Outcome::Win);
    assert_eq!(s.realized_rr, Some(2.0));
}

#[test]
fn gaps_and_tail_are_not_fabricated_outcomes() {
    assert_eq!(
        simulate(&g(), 0, 100.0, &[], 2, 2).outcome,
        Outcome::InsufficientData
    );
    assert_eq!(
        simulate(&g(), 0, 100.0, &[bar(MINUTE, 99.5, 106.0, 100.0)], 2, 2).outcome,
        Outcome::DataGap
    );
    assert_eq!(
        simulate(&g(), 0, 103.0, &[bar(0, 102.0, 104.0, 103.0)], 2, 2).outcome,
        Outcome::InsufficientData
    );
}

#[test]
fn l1_simulator_ignores_all_pre_anchor_bars() {
    let future = bar(MINUTE, 100.0, 105.0, 102.0);
    let expected = simulate(&g(), MINUTE, 100.0, &[future.clone()], 2, 2);
    for i in 1..100 {
        let past = bar(MINUTE - i * MINUTE, -999.0, 999.0, 0.0);
        assert_eq!(
            simulate(&g(), MINUTE, 100.0, &[past, future.clone()], 2, 2),
            expected
        );
    }
}

#[test]
fn malformed_geometry_and_ohlc_do_not_generate_returns() {
    let mut guard = g();
    guard.invalidation_price = Some(px(100.5));
    assert_eq!(
        simulate(&guard, 0, 100.0, &[], 2, 2).outcome,
        Outcome::Excluded
    );
    let mut invalid = bar(0, 100.0, 101.0, 100.5);
    invalid.open = px(110.0);
    assert_eq!(
        simulate(&g(), 0, 100.0, &[invalid], 2, 2).outcome,
        Outcome::DataGap
    );
}

#[test]
fn fixed_r_actual_fill_and_independent_exits() {
    let mut guard = g();
    guard.targets.clear();
    let path = [bar(0, 100.0, 101.2, 100.5), bar(MINUTE, 98.0, 100.5, 99.0)];
    let results: Vec<_> = (1..=3)
        .map(|r| simulate_exit(&guard, 0, 100.0, &path, 2, 2, Some(r as f64)))
        .collect();
    assert_eq!(results[0].outcome, Outcome::Win);
    assert_eq!(results[0].realized_rr, Some(1.0));
    for s in &results[1..] {
        assert_eq!(s.outcome, Outcome::Loss);
        assert_eq!(s.realized_rr, Some(-1.0));
        assert_eq!(s.entry, results[0].entry);
        assert_eq!(s.entry_ts, results[0].entry_ts);
    }
    let boundary = [
        bar(0, 100.5, 104.0, 102.0),
        bar(MINUTE, 101.5, 102.7, 102.0),
    ];
    let s = simulate_exit(&guard, 0, 103.0, &boundary, 2, 1, Some(1.0));
    assert_eq!(s.entry, Some(101.0));
    assert_eq!(s.outcome, Outcome::Expired);
}

#[test]
fn fixed_r_ambiguous_double_touch_gap_and_bearish() {
    for r in 1..=3 {
        let ambiguous = simulate_exit(
            &g(),
            0,
            103.0,
            &[bar(0, 98.0, 110.0, 100.0)],
            2,
            2,
            Some(r as f64),
        );
        assert_eq!(ambiguous.outcome, Outcome::Ambiguous);
        assert!(ambiguous.entry.is_none());
        let loss = simulate_exit(
            &g(),
            0,
            100.0,
            &[bar(0, 98.0, 110.0, 100.0)],
            2,
            2,
            Some(r as f64),
        );
        assert_eq!(loss.outcome, Outcome::Loss);
    }
    let path = [
        bar(0, 100.0, 101.1, 100.5),
        bar(2 * MINUTE, 100.0, 105.0, 102.0),
    ];
    assert_eq!(
        simulate_exit(&g(), 0, 100.0, &path, 2, 3, Some(1.0)).outcome,
        Outcome::Win
    );
    assert_eq!(
        simulate_exit(&g(), 0, 100.0, &path, 2, 3, Some(2.0)).outcome,
        Outcome::DataGap
    );
    let mut guard = g();
    guard.direction = TradeDirection::Bearish;
    guard.invalidation_price = Some(px(102.0));
    guard.targets.clear();
    assert_eq!(
        simulate_exit(
            &guard,
            0,
            101.0,
            &[bar(0, 98.0, 101.0, 99.0)],
            2,
            2,
            Some(3.0)
        )
        .realized_rr,
        Some(3.0)
    );
}

#[test]
fn user_immediate_entry_outside_body_and_no_anchor_holding() {
    let guard = g();
    let c2 = user_c2();
    let bars = [bar(0, 0.0, 999.0, 100.0), bar(MINUTE, 102.0, 105.0, 104.0)];
    let original = simulate(&guard, MINUTE, 102.0, &bars, 2, 1);
    let u = simulate_user(&guard, "OANDA:EURUSD", &c2, MINUTE, 102.0, &bars, 1, 0, 1.0);
    assert_eq!(u.simulation.outcome, Outcome::Win);
    assert_eq!(u.simulation.entry, Some(102.0));
    assert_eq!(u.simulation.entry_ts, Some(MINUTE));
    assert_eq!(u.simulation.time_to_entry_ms, Some(0));
    assert_eq!(u.simulation.exit_ts, Some(2 * MINUTE));
    assert_eq!(u.target, Some(105.0));
    assert_eq!(original.entry, None);
    assert_eq!(simulate(&guard, MINUTE, 102.0, &bars, 2, 1), original);
}

#[test]
fn user_buffers_share_production_precision_and_bearish_mirror() {
    for (symbol, point) in [
        ("OANDA:EURUSD", 0.00001),
        ("TVC:DXY", 0.001),
        ("OANDA:USDJPY", 0.001),
        ("COINBASE:BTCUSD", 0.01),
    ] {
        for buffer in USER_BUFFERS {
            for multiple in USER_MULTIPLES {
                for bull in [true, false] {
                    let mut guard = g();
                    if !bull {
                        guard.direction = TradeDirection::Bearish;
                    }
                    let u = simulate_user(
                        &guard,
                        symbol,
                        &user_c2(),
                        MINUTE,
                        101.0,
                        &[],
                        2,
                        buffer,
                        multiple,
                    );
                    let sign = if bull { 1.0 } else { -1.0 };
                    let stop = if bull {
                        99.0 - f64::from(buffer) * point
                    } else {
                        103.0 + f64::from(buffer) * point
                    };
                    assert!((u.stop.unwrap() - stop).abs() < 1e-12);
                    assert!(
                        (u.target.unwrap() - (101.0 + sign * multiple * (101.0 - stop).abs()))
                            .abs()
                            < 1e-12
                    );
                    assert_eq!(u.simulation.entry, Some(101.0));
                    assert_eq!(u.simulation.outcome, Outcome::InsufficientData);
                }
            }
        }
    }
}

#[test]
fn user_degenerate_stop_is_excluded_even_with_buffer() {
    for bull in [true, false] {
        let mut guard = g();
        if !bull {
            guard.direction = TradeDirection::Bearish;
        }
        for buffer in USER_BUFFERS {
            let price = if bull { 99.0 } else { 103.0 };
            let u = simulate_user(
                &guard,
                "EURUSD",
                &user_c2(),
                MINUTE,
                price,
                &[],
                2,
                buffer,
                1.0,
            );
            assert_eq!(u.simulation.reason, "degenerate_stop");
            assert_eq!(u.simulation.entry, None);
            assert_eq!(u.target1_in_user_r, None);
        }
    }
}

#[test]
fn user_double_touch_expiry_and_internal_gap() {
    for bull in [true, false] {
        let mut guard = g();
        if !bull {
            guard.direction = TradeDirection::Bearish;
        }
        let u = simulate_user(
            &guard,
            "EURUSD",
            &user_c2(),
            MINUTE,
            101.0,
            &[bar(MINUTE, 98.0, 104.0, 101.0)],
            2,
            0,
            1.0,
        );
        assert_eq!(u.simulation.outcome, Outcome::Loss);
        assert_eq!(u.simulation.realized_rr, Some(-1.0));
        let e = simulate_user(
            &guard,
            "EURUSD",
            &user_c2(),
            MINUTE,
            101.0,
            &[bar(MINUTE, 100.5, 101.5, 101.5)],
            1,
            0,
            1.5,
        );
        assert_eq!(e.simulation.outcome, Outcome::Expired);
        assert_eq!(
            e.simulation.floating_rr,
            Some(if bull { 0.25 } else { -0.25 })
        );
        let gap = simulate_user(
            &guard,
            "EURUSD",
            &user_c2(),
            MINUTE,
            101.0,
            &[bar(2 * MINUTE, 98.0, 104.0, 101.0)],
            2,
            0,
            1.0,
        );
        assert_eq!(gap.simulation.outcome, Outcome::DataGap);
    }
}

#[test]
fn user_target_description_is_signed_and_optional() {
    let mut guard = g();
    guard.targets[0] = px(100.0);
    let u = simulate_user(&guard, "EURUSD", &user_c2(), MINUTE, 101.0, &[], 1, 0, 1.5);
    assert_eq!(u.target1_in_user_r, Some(-0.5));
    guard.targets.clear();
    let u = simulate_user(&guard, "EURUSD", &user_c2(), MINUTE, 101.0, &[], 1, 0, 1.5);
    assert_eq!(u.target1_in_user_r, None);
    assert_eq!(u.simulation.entry, Some(101.0));
}

#[test]
fn shared_anchor_ignores_one_tick_truncated_body_without_changing_legacy() {
    let mut guard = g();
    guard.entry_zone = Some(EntryZone {
        low: px(1.15492),
        high: px(1.15497),
    });
    guard.invalidation_price = Some(px(1.1548));
    let c2 = CandleRef {
        ts: 0,
        open: px(1.15492),
        close: px(1.15498),
        low: px(1.1548),
        high: px(1.15502),
    };
    let bars = [bar(MINUTE, 1.15494, 1.15520, 1.15510)];
    let legacy = simulate_exit(&guard, MINUTE, 1.15498, &bars, 2, 2, Some(1.0));
    assert_eq!(legacy.entry, Some(1.15497));
    assert_eq!(legacy.time_to_entry_ms, Some(MINUTE));
    for r in 1..=3 {
        let control = simulate_anchor(&guard, MINUTE, 1.15498, &bars, 2, r as f64);
        let user = simulate_user(
            &guard, "EURUSD", &c2, MINUTE, 1.15498, &bars, 2, 0, r as f64,
        );
        assert_eq!(control, user.simulation);
        assert_eq!(control.entry, Some(1.15498));
        assert_eq!(control.entry_ts, Some(MINUTE));
        assert_eq!(control.time_to_entry_ms, Some(0));
    }
    assert_eq!(
        simulate_exit(&guard, MINUTE, 1.15498, &bars, 2, 2, Some(1.0)),
        legacy
    );
}

#[test]
fn output_aliases_cannot_write_production() {
    let parts = |p: &str| -> Vec<String> { p.split('/').map(|s| s.to_string()).collect() };
    let source = "/tmp/x/source.db";
    let reports = parts("/tmp/x/reports");
    assert!(
        find_output_fault(&parts(source), &parts(source), &reports, source, source, false).is_some()
    );
    let link = "/tmp/x/alias.db";
    assert!(
        find_output_fault(&parts(source), &parts(link), &reports, source, link, true).is_some()
    );
    let wal = "/tmp/x/source.db-wal";
    assert!(find_output_fault(&parts(source), &parts(wal), &reports, source, wal, false).is_some());
    let inside = "/tmp/x/reports/eval.db";
    assert!(
        find_output_fault(&parts(source), &parts(inside), &reports, source, inside, false).is_some()
    );
    let eval = "/tmp/x/eval.db";
    assert_eq!(
        find_output_fault(&parts(source), &parts(eval), &reports, source, eval, false),
        None
    );
}

#[test]
fn dst_aware_session_and_small_sample_reporting() {
    let jan = chrono::DateTime::parse_from_rfc3339("2026-01-05T12:00:00Z")
        .unwrap()
        .timestamp_millis();
    let jul = chrono::DateTime::parse_from_rfc3339("2026-07-06T11:00:00Z")
        .unwrap()
        .timestamp_millis();
    assert_eq!(time_buckets(jan).unwrap().0, "NY");
    assert_eq!(time_buckets(jul).unwrap().0, "NY");
    let result = seed().evaluate(&parameters(), "eval");
    assert!(markdown(&result, "{}").contains("小样本，不可下结论"));
    assert!(markdown(&result, "{}").contains("不能判断"));
}

#[test]
fn fresh_evaluations_are_byte_deterministic_and_cohorts_refresh_explicitly() {
    let source = seed();
    let p = parameters();
    let id = |p: &Parameters| content_hash(&format!("{p:?}"));
    let first = source.evaluate(&p, &id(&p));
    let second = source.evaluate(&p, &id(&p));
    assert_eq!(format!("{first:?}"), format!("{second:?}"));
    assert_eq!(markdown(&first, "{}"), markdown(&second, "{}"));
    assert_eq!(csv(&first, &texts(&first)), csv(&second, &texts(&second)));
    let mut emptied = source.clone();
    emptied.bars.clear();
    let mut fresh = p;
    fresh.cohort = "updated".into();
    let third = emptied.evaluate(&fresh, &id(&fresh));
    assert_ne!(third.run_id, first.run_id);
    assert_eq!(
        third.trades[0].simulation.outcome,
        Outcome::InsufficientData
    );
}

#[test]
fn report_metrics_exclude_unfilled_and_expired_rr() {
    let win = simulator::simulate(&g(), 0, px(100.0), &[bar(0, 100.0, 105.0, 104.0)], 2, 2);
    let loss = simulator::simulate(&g(), 0, px(100.0), &[bar(0, 98.0, 100.0, 99.0)], 2, 2);
    let expired = simulator::simulate(&g(), 0, px(100.0), &[bar(0, 100.0, 104.0, 103.0)], 2, 1);
    let skip = Simulation::empty(Outcome::Skip, "test");
    let stats = stats(&vec![win, loss, expired, skip]);
    assert_eq!(stats.n, 4);
    assert_eq!(stats.resolved, 2);
    assert_eq!(stats.wins, 1);
    assert_eq!(value(stats.mean), Some(2.0));
    assert_eq!(value(stats.median), Some(2.0));
    assert_eq!(value(stats.profit_factor), Some(5.0));
    assert_eq!(value(stats.floating), Some(3.0));
    assert_eq!(stats.expired_n, 1);
    assert_eq!(stats.excursions_n, 3);
}

#[test]
fn fixed_r_source_without_targets_and_deterministic_report() {
    let mut source = seed();
    source.guardrails.targets.clear();
    let mut p = parameters();
    p.mode = ExitMode::FixedR;
    let first = source.evaluate(&p, "eval");
    let second = source.evaluate(&p, "eval");
    assert!(first.trades[0]
        .guardrails
        .as_ref()
        .unwrap()
        .targets
        .is_empty());
    assert_eq!(first.trades[0].fixed_r.len(), 3);
    for (i, r) in first.trades[0].fixed_r.iter().enumerate() {
        assert_eq!(r.simulation.outcome, Outcome::Win);
        assert_eq!(risk(r.simulation.realized_rr), Some((i + 1) as f64));
    }
    assert_eq!(csv(&first, &texts(&first)), csv(&second, &texts(&second)));
    assert_eq!(markdown(&first, "{}"), markdown(&second, "{}"));
    assert_eq!(csv(&first, &texts(&first)).lines().count(), 4);
    assert!(
        markdown(&first, "{}").contains("非") || markdown(&first, "{}").contains("不代表生产策略")
    );
    assert!(markdown(&first, "{}").contains("含到期期望"));
}

#[test]
fn d1_symbol_tail_is_independent_of_other_feeds_and_internal_gaps_remain() {
    let mut source = seed();
    let as_of = source.as_of();
    for b in source.bars.iter_mut().filter(|b| b.ts >= as_of) {
        b.open = px(100.25);
        b.high = px(100.5);
        b.low = px(100.0);
        b.close = px(100.25);
    }
    let before = source.evaluate(&parameters(), "before");
    assert_eq!(
        before.trades[0].simulation.outcome,
        Outcome::InsufficientData
    );
    let mut unrelated = bar(as_of + 100 * MINUTE, 100.0, 101.0, 100.25);
    unrelated.symbol = "TVC:DXY".into();
    source.insert(&[unrelated]);
    let after = source.evaluate(&parameters(), "after");
    assert!(after.source_cutoff_ts > before.source_cutoff_ts);
    assert_eq!(
        seen(&before.trades[0].simulation),
        seen(&after.trades[0].simulation)
    );
    assert_eq!(after.trades[0].available_future_m1, 1);
    for b in source.bars.iter_mut() {
        if b.symbol == "OANDA:EURUSD" && b.ts == as_of + MINUTE {
            b.low = px(97.0);
        }
    }
    let forming = source.evaluate(&parameters(), "forming");
    assert_eq!(
        seen(&before.trades[0].simulation),
        seen(&forming.trades[0].simulation)
    );
    source
        .bars
        .retain(|b| !(b.symbol == "OANDA:EURUSD" && b.ts == as_of + MINUTE));
    source.insert(&[
        bar(as_of + 2 * MINUTE, 100.0, 100.5, 100.25),
        bar(as_of + 3 * MINUTE, 100.0, 100.5, 100.25),
    ]);
    let gap = source.evaluate(&parameters(), "gap");
    assert_eq!(gap.trades[0].simulation.outcome, Outcome::DataGap);
}

#[test]
fn user_grid_same_snapshot_control_readonly_and_cached_reports() {
    let source = seed();
    let mut p = parameters();
    p.mode = ExitMode::UserV1;
    let result = source.evaluate(&p, "eval");
    assert_eq!(result.trades[0].user_v1.len(), 12);
    let mut baseline = p.clone();
    baseline.mode = ExitMode::FixedR;
    let fixed = source.evaluate(&baseline, "control");
    assert_eq!(
        format!("{:?}", result.trades[0].fixed_r),
        format!("{:?}", fixed.trades[0].fixed_r)
    );
    for buffer in user_buffers() {
        for r in user_multiples() {
            let projected = project_user(&result, buffer, r);
            let t = &projected.trades[0];
            assert_eq!(t.simulation.entry_ts, Some(t.as_of_ts));
        }
    }
    let table = csv(&result, &texts(&result));
    assert_eq!(table.lines().count(), 16);
    assert!(table.contains("target1_in_user_R"));
    assert!(markdown(&result, "{}").contains("expired P25/P50/P75/P90"));
    let second = source.evaluate(&p, "eval");
    assert_eq!(table, csv(&second, &texts(&second)));
    assert_eq!(markdown(&result, "{}"), markdown(&second, "{}"));
    assert!(!user_summary(&result).is_empty());
}

#[test]
fn user_missing_anchor_and_future_c2_never_create_fills() {
    let mut source = seed();
    let as_of = source.as_of();
    source.bars.retain(|b| b.ts != as_of - MINUTE);
    let mut p = parameters();
    p.mode = ExitMode::UserV1;
    let missing = source.evaluate(&p, "missing");
    assert_eq!(missing.trades[0].user_v1.len(), 12);
    for u in &missing.trades[0].user_v1 {
        assert_eq!(u.simulation.outcome, Outcome::InsufficientData);
        assert_eq!(u.simulation.reason, "missing_anchor_m1_close");
    }
    source.insert(&[bar(as_of - MINUTE, 100.0, 101.0, 100.25)]);
    source.c2().ts = as_of;
    let future = source.evaluate(&p, "future");
    for u in &future.trades[0].user_v1 {
        assert_eq!(u.simulation.outcome, Outcome::Excluded);
        assert!(u.simulation.reason.contains("missing_confirmed_trade_c2"));
        assert_eq!(u.simulation.entry, None);
    }
}

#[test]
fn source_pair_uses_identical_entry_outside_body_and_exports_explicit_control_mode() {
    let mut source = seed();
    let as_of = source.as_of();
    for b in source.bars.iter_mut().filter(|b| b.ts == as_of - MINUTE) {
        b.open = px(99.75);
        b.low = px(99.5);
        b.high = px(100.0);
        b.close = px(99.75);
    }
    let mut p = parameters();
    p.mode = ExitMode::UserV1;
    let result = source.evaluate(&p, "same-entry");
    let t = &result.trades[0];
    for sim in t
        .fixed_r
        .iter()
        .map(|r| &r.simulation)
        .chain(t.user_v1.iter().map(|r| &r.simulation))
    {
        assert_eq!(read(sim.entry), Some(99.75));
        assert_eq!(sim.entry_ts, Some(as_of));
        assert_eq!(sim.time_to_entry_ms, Some(0));
    }
    assert!(csv(&result, &texts(&result)).contains("fixed_r_anchor"));
    let md = markdown(&result, "{}");
    assert!(md.contains("统一锚点收盘立即入场"));
    assert!(!md.contains("在区间内立即成交"));
}

#[test]
fn a_seeded_alert_wins_at_its_target() {
    let result = seed().evaluate(&parameters(), "eval");
    assert_eq!(result.trades[0].simulation.outcome, Outcome::Win);
    assert_eq!(result.trades[0].evidence_hash.as_ref().unwrap().len(), 64);
    assert_eq!(result.trades[0].data_issues.len(), 0);
}

#[test]
fn each_source_fault_is_reported() {
    let source = seed();
    let e = source.evaluate(&parameters(), "eval");
    let t = e.trades[0].clone();
    let c = || Row::Found(source.candidate.clone());
    let s = || Row::Found(source.smt.clone());
    assert_eq!(find_source_fault(&t, &c(), &s(), true), None);
    let absent = "Query returned no rows";
    let fault = |a: &Row<CandidateSetup>, b: &Row<SmtDivergence>| {
        find_source_fault(&t, a, b, true).unwrap()
    };
    assert_eq!(
        fault(&Row::Missing(absent.into()), &Row::Missing(absent.into())),
        "missing_candidate: Query returned no rows"
    );
    assert_eq!(
        fault(&Row::Malformed("EOF".into()), &Row::Missing(absent.into())),
        "missing_smt: Query returned no rows"
    );
    assert_eq!(
        fault(&Row::Malformed("EOF".into()), &Row::Malformed("EOF".into())),
        "malformed_candidate: EOF"
    );
    assert_eq!(fault(&c(), &Row::Malformed("EOF".into())), "malformed_smt: EOF");
    assert_eq!(find_source_fault(&t, &c(), &s(), false), Some("invalid_alert_score".to_string()));
    let mut other = t.clone();
    other.watchlist_id = "other".into();
    assert_eq!(find_source_fault(&other, &c(), &s(), true), Some("source_identity_mismatch".to_string()));
    other = t.clone();
    other.symbol = "".into();
    assert_eq!(
        find_source_fault(&other, &c(), &s(), true),
        Some("missing_unambiguous_trade_symbol".to_string())
    );
    other = t.clone();
    other.symbol = "OANDA:GBPUSD".into();
    assert_eq!(find_source_fault(&other, &c(), &s(), true), Some("missing_chain".to_string()));
    let mut unconfirmed = source.smt.clone();
    unconfirmed.chains[1].c2_candle = None;
    assert_eq!(
        find_source_fault(&t, &c(), &Row::Found(unconfirmed), true),
        Some("missing_c2".to_string())
    );
    let rejected = fill_in(ExitMode::UserV1, reject_trade(t, "missing_c2"));
    assert_eq!(rejected.simulation.outcome, Outcome::Excluded);
    assert_eq!(rejected.data_issues.last().unwrap(), "missing_c2");
}

#[test]
fn gaps_before_an_alert_are_told_apart() {
    assert_eq!(gap_category(10, None, None, 2, 12), "no_m1_series");
    assert_eq!(gap_category(10, Some(20), Some(30), 2, 12), "before_m1_coverage");
    assert_eq!(gap_category(40, Some(20), Some(30), 2, 12), "after_m1_coverage");
    assert_eq!(gap_category(25, Some(20), Some(30), 6, 12), "possible_weekend_closure");
    assert_eq!(gap_category(25, Some(20), Some(30), 2, 12), "internal_gap");
    let mut source = seed();
    let as_of = source.as_of();
    source.bars.retain(|b| b.ts != as_of - MINUTE);
    let e = source.evaluate(&parameters(), "gap");
    let gap = e.trades[0].anchor_gap.as_ref().unwrap();
    assert_eq!(gap.expected_ts, as_of - MINUTE);
    assert_eq!(gap.category, "before_m1_coverage");
    let facts_gap = anchor_gap(
        as_of,
        &TradeFacts {
            guardrails: g(),
            direction: "".into(),
            confidence: 0,
            quality: "".into(),
            evidence_hash: "".into(),
            cutoff: 0,
            anchor_close: None,
            first_m1: None,
            last_m1: None,
            previous_m1: None,
            next_m1: None,
            comparison_close_available: true,
            bars: vec![],
            confirmed_c2: None,
            point: 1,
        },
    )
    .unwrap();
    assert_eq!(facts_gap.category, "no_m1_series");
    assert!(facts_gap.comparison_close_available);
}

#[test]
fn sessions_and_slots_follow_the_hour() {
    assert_eq!(buckets_at(1, 21), ("Asia".to_string(), "Mon 20:00-24:00 NY".to_string()));
    assert_eq!(buckets_at(5, 3).0, "London");
    assert_eq!(buckets_at(5, 11).0, "London");
    assert_eq!(buckets_at(0, 8), ("NY".to_string(), "Sun 08:00-12:00 NY".to_string()));
    assert_eq!(buckets_at(6, 13).0, "Off-hours");
}

#[test]
fn an_alert_without_a_symbol_takes_its_only_instrument() {
    assert_eq!(alert_symbol(Some("A".into()), None), "A");
    assert_eq!(alert_symbol(None, Some(vec!["B".into()])), "B");
    assert_eq!(alert_symbol(None, Some(vec!["B".into(), "C".into()])), "");
    assert_eq!(alert_symbol(None, None), "");
}

#[test]
fn arguments_are_read() {
    let args = |list: &[&str]| -> Vec<String> { list.iter().map(|s| s.to_string()).collect() };
    assert!(matches!(parse_arguments(&args(&["--help"])), Ok(Command::Help)));
    match parse_arguments(&args(&["--mode", "fixed-r", "--holding-bars", "7"])).unwrap() {
        Command::Run(o) => {
            assert_eq!(o.mode, ExitMode::FixedR);
            assert_eq!(o.holding_bars, Some(7));
            assert_eq!(o.entry_bars, 288);
            assert_eq!(o.ttl_mtf_bars, 5);
            assert_eq!(o.cohort, "initial");
        }
        Command::Help => panic!("options expected"),
    }
    let fault = |list: &[&str]| match parse_arguments(&args(list)) {
        Err(e) => e,
        Ok(_) => panic!("a fault expected"),
    };
    assert_eq!(fault(&["--mode"]), "missing value for --mode");
    assert_eq!(fault(&["--mode", "x"]), "mode must be targets, fixed-r or user-v1");
    assert_eq!(fault(&["--speed", "x"]), "unknown option --speed");
    assert_eq!(fault(&["--entry-bars", "0"]), "invalid cohort/window parameters");
    assert_eq!(fault(&["--cohort", " "]), "invalid cohort/window parameters");
    assert_eq!(parse_count("42"), Ok(42));
    assert!(parse_count("x").is_err());
}

#[test]
fn quantiles_and_medians_are_exact() {
    let v: Vec<i128> = [3, 1, 2, 4].iter().map(|x| x * R_SCALE).collect();
    assert_eq!(value(median(&v)), Some(2.5));
    assert_eq!(value(quantile(&v, 25)), Some(1.75));
    assert_eq!(value(quantile(&v, 100)), Some(4.0));
    assert_eq!(value(quantile(&Vec::new(), 50)), None);
}

#[test]
fn table_cells_are_quoted_and_numbers_are_short() {
    assert_eq!(cell("plain"), "\"plain\"");
    assert_eq!(cell("a\"b"), "\"a\"\"b\"");
    assert_eq!(cell("a,b"), "\"a,b\"");
    assert_eq!(shortest_text(1_500_000_000, 9), "1.5");
    assert!(!safe("a|b").contains("a|b"));
}

#[test]
fn a_projection_keeps_every_alert() {
    let mut p = parameters();
    p.mode = ExitMode::FixedR;
    let e = seed().evaluate(&p, "eval");
    for r in 1..=3 {
        let one = project_r(&e, r);
        assert_eq!(one.trades.len(), e.trades.len());
        assert_eq!(one.trades[0].alert_id, e.trades[0].alert_id);
    }
}

#[test]
fn a_run_that_was_evaluated_can_be_reported() {
    for mode in [ExitMode::Targets, ExitMode::FixedR, ExitMode::UserV1] {
        let mut p = parameters();
        p.mode = mode;
        let e = seed().evaluate(&p, "eval");
        assert!(can_be_reported(&e));
    }
    let mut p = parameters();
    p.mode = ExitMode::FixedR;
    let mut e = seed().evaluate(&p, "eval");
    for t in e.trades.iter_mut() {
        t.fixed_r.clear();
    }
    assert!(!can_be_reported(&e));
}

#[test]
fn a_run_is_counted_by_outcome_and_issue() {
    let e = seed().evaluate(&parameters(), "eval");
    let mut skipped = reject_trade(e.trades[0].clone(), "missing_c2");
    skipped.data_issues.push("missing_target".into());
    let mut trades = vec![skipped.clone(), e.trades[0].clone(), skipped];
    trades.push(e.trades[0].clone());
    let cutoffs = vec![
        SymbolCutoff { symbol: "A".into(), cutoff: -5 },
        SymbolCutoff { symbol: "B".into(), cutoff: -9 },
    ];
    assert_eq!(find_cutoff(&cutoffs, "B"), -9);
    assert_eq!(find_cutoff(&cutoffs, "C"), 0);
    let e = finish_run("run".into(), parameters(), cutoffs, 7, trades);
    assert_eq!(e.c2_count, 4);
    assert_eq!(e.other_alert_count, 7);
    assert_eq!(e.source_cutoff_ts, -5);
    let outcomes: Vec<(String, usize)> =
        outcome_counts(&e).into_iter().map(|t| (t.label, t.count)).collect();
    assert_eq!(outcomes, vec![("excluded".to_string(), 2), ("win".to_string(), 2)]);
    let issues: Vec<(String, usize)> =
        issue_counts(&e).into_iter().map(|t| (t.label, t.count)).collect();
    assert_eq!(issues, vec![("missing_c2".to_string(), 2), ("missing_target".to_string(), 2)]);
    let empty = finish_run("run".into(), parameters(), Vec::new(), 0, Vec::new());
    assert_eq!(empty.source_cutoff_ts, 0);
    assert!(outcome_counts(&empty).is_empty());
}

#[test]
fn an_alert_with_a_fault_yields_no_evidence() {
    let source = seed();
    let t = source.evaluate(&parameters(), "eval").trades[0].clone();
    let (r, evidence) = prepare_trade(
        &parameters(),
        t,
        &Row::Found(source.candidate.clone()),
        &Row::Found(source.smt.clone()),
        None,
        "ctx",
        "strategy",
    );
    assert!(evidence.is_none());
    assert_eq!(r.simulation.outcome, Outcome::Excluded);
    assert_eq!(r.simulation.reason, "invalid_alert_score");
}

#[test]
fn reports_write_times_lists_and_digests_out() {
    assert_eq!(
        content_hash("abc"),
        "6437b3ac38465133ffb63b75273a8db548c558465d79db03fd359c6cd5bd9d85"
    );
    let mut e = seed().evaluate(&parameters(), "eval");
    assert_eq!(e.trades[0].as_of_ts, 1_804_000);
    assert!(markdown(&e, "{}").contains("1970-01-01T00:30:04+00:00"));
    let rejected = reject_trade(e.trades[0].clone(), "no \"c2\"");
    e.trades = vec![rejected];
    assert!(csv(&e, &texts(&e)).contains("\"[\"\"no \\\"\"c2\\\"\"\"\"]\""));
}

#[test]
fn multiples_keep_all_their_digits_in_the_table() {
    let mut wide = g();
    wide.invalidation_price = Some(px(97.0));
    let left = simulator::simulate(&wide, 0, px(100.0), &[bar(0, 99.0, 102.0, 101.0)], 2, 1);
    assert_eq!(left.outcome, Outcome::Expired);
    assert_eq!(left.floating_rr, Some(333_333_333_333_333_333));
    assert_eq!(left.mfe_rr, Some(666_666_666_666_666_667));
    assert_eq!(left.mae_rr, Some(333_333_333_333_333_333));
    let mut e = seed().evaluate(&parameters(), "eval");
    e.trades[0].simulation = left;
    let table = csv(&e, &texts(&e));
    assert!(table.contains("0.333333333333333333"));
    assert!(table.contains("0.666666666666666667"));
    let mut planned = texts(&e);
    planned[0].planned_rr = "2.6666666666666665".into();
    assert!(csv(&e, &planned).contains("2.6666666666666665"));
}

#[test]
fn averages_are_taken_of_exact_multiples() {
    let third = R_SCALE / 3;
    let mean = average(&vec![third, -third + 3, R_SCALE]).unwrap();
    assert_eq!(mean, Fraction { num: R_SCALE + 3, den: 3 * R_SCALE });
    // A risk of one billionth makes multiples of many billions.
    let huge = 50_000_000_000 * R_SCALE;
    assert_eq!(number(average(&vec![huge, huge + R_SCALE])), "50000000000.5000");
    assert_eq!(number(quantile(&vec![huge, 0], 25)), "12500000000.0000");
    assert_eq!(number(Some(Fraction { num: -2, den: 3 })), "-0.6667");
    assert_eq!(number(Some(Fraction { num: 19_999_95, den: 1_000_000 })), "2.0000");
    assert_eq!(number(Some(Fraction { num: 1, den: 20_000 })), "0.0000");
    assert_eq!(number(Some(Fraction { num: 3, den: 20_000 })), "0.0002");
    assert_eq!(number(None), "N/A");
}

#[test]
fn sums_that_do_not_fit_are_not_reported() {
    let mut e = seed().evaluate(&parameters(), "eval");
    assert!(are_summable(&e.trades));
    assert!(can_be_reported(&e));
    e.trades[0].simulation.mae_rr = Some(i128::MIN);
    assert!(!are_summable(&e.trades));
    assert!(!can_be_reported(&e));
}
