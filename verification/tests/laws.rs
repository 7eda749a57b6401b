use ict_monitor::aggregator::SymbolAggregator;
use ict_monitor::backtest::stats::{number, Fraction};
use ict_monitor::calendar::{expected_market_bar_opens, next_window_boundary};
use ict_monitor::candidate::engine::CandidateEngine;
use ict_monitor::candidate::replay::extract_ltf_events;
use ict_monitor::candidate::types::{CandidateSetup, ExpiryReason, SetupStatus};
use ict_monitor::detector::{
    CandleRef, Cisd, Correlation, Direction, IctStructure, PdaRef, ReferenceScope,
    SmtDetectionState, SmtDivergence, StructureEvent, SymbolChain,
};
use ict_monitor::h4::{
    aggregate_h4_from_h1, aggregate_h4_with_native_fallback, has_incomplete_h4_window,
};
use ict_monitor::types::{Bar, BarEvent, Timeframe};

const HOUR: i64 = 3_600_000;
const TS_BASE: i64 = 1_700_000_000_000;

fn candle(symbol: &str, tf: Timeframe, ts: i64, price: i64) -> Bar {
    Bar {
        symbol: symbol.to_string(),
        tf,
        ts,
        open: price,
        high: price + 5,
        low: price - 5,
        close: price + 1,
        volume: 10,
    }
}

fn shown<T: std::fmt::Debug>(x: &T) -> String {
    format!("{:?}", x)
}

#[test]
fn every_instant_lies_between_two_boundaries() {
    // The clocks of New York change on 9 March and on 2 November 2025.
    for change in [1_741_503_600_000, 1_762_063_200_000] {
        for tf in [
            Timeframe::M1,
            Timeframe::M15,
            Timeframe::H1,
            Timeframe::H4,
            Timeframe::D1,
            Timeframe::W1,
            Timeframe::MN1,
        ] {
            let mut t = change - 30 * HOUR;
            while t < change + 30 * HOUR {
                let w = tf.boundary_align(t);
                let n = next_window_boundary(tf, w);
                assert!(w <= t && t < n);
                assert_eq!(tf.boundary_align(w), w);
                assert_eq!(tf.boundary_align(n), n);
                assert_eq!(tf.boundary_align(n - 1), w);
                t += 1_700_000;
            }
        }
    }
    let day = Timeframe::D1.boundary_align(1_741_503_600_000);
    assert_eq!(next_window_boundary(Timeframe::D1, day) - day, 23 * HOUR);
    let day = Timeframe::D1.boundary_align(1_762_063_200_000);
    assert_eq!(next_window_boundary(Timeframe::D1, day) - day, 25 * HOUR);
}

#[test]
fn opens_of_adjoining_spans_add_up() {
    let a = Timeframe::W1.boundary_align(TS_BASE);
    let b = a + 61 * HOUR;
    let c = a + 168 * HOUR;
    let mut parts = expected_market_bar_opens("OANDA:EURUSD", Timeframe::H1, a, b);
    parts.extend(expected_market_bar_opens("OANDA:EURUSD", Timeframe::H1, b, c));
    let whole = expected_market_bar_opens("OANDA:EURUSD", Timeframe::H1, a, c);
    assert_eq!(parts, whole);
    assert_eq!(whole.len(), 120);
}

#[test]
fn quotes_never_change_what_minutes_produce() {
    let start = Timeframe::H4.boundary_align(TS_BASE);
    let mut quoted = SymbolAggregator::new("OANDA:EURUSD");
    let mut quiet = SymbolAggregator::new("OANDA:EURUSD");
    let closes = |events: Vec<BarEvent>| -> Vec<String> {
        events
            .iter()
            .filter(|e| matches!(e, BarEvent::BarClosed(_)))
            .map(|e| shown(e))
            .collect()
    };
    for i in 0..300 {
        let minute = candle("OANDA:EURUSD", Timeframe::M1, start + i * 60_000, 1_000 + i % 17);
        let mut quote = candle("OANDA:EURUSD", Timeframe::M1, start + i * 60_000, 9_000);
        quote.volume = 77;
        let updates = quoted.on_m1_event(&BarEvent::BarUpdate(quote));
        assert_eq!(updates.len(), 8);
        assert!(updates.iter().all(|e| matches!(e, BarEvent::BarUpdate(_))));
        let ahead = candle("OANDA:EURUSD", Timeframe::M1, start + (i + 1) * 60_000, 8_000);
        quoted.on_m1_event(&BarEvent::BarUpdate(ahead));
        let a = closes(quoted.on_m1_event(&BarEvent::BarClosed(minute.clone())));
        let b = closes(quiet.on_m1_event(&BarEvent::BarClosed(minute)));
        assert_eq!(a, b);
    }
    for tf in Timeframe::higher_than_m1() {
        assert_eq!(shown(&quoted.history(tf)), shown(&quiet.history(tf)));
    }
    assert_eq!(quiet.history(Timeframe::M5).len(), 60);
    assert_eq!(quiet.history(Timeframe::H4).len(), 1);
}

#[test]
fn history_is_the_newest_candles_in_order() {
    let start = Timeframe::D1.boundary_align(TS_BASE);
    let mut agg = SymbolAggregator::new("BINANCE:BTCUSDT");
    for i in 0..7_520 {
        let minute = candle("BINANCE:BTCUSDT", Timeframe::M1, start + i * 60_000, 1_000);
        for event in agg.warm_start_with_closed(&minute) {
            let b = match event {
                BarEvent::BarUpdate(b) => b,
                BarEvent::BarClosed(b) => b,
                BarEvent::Historical(_) => unreachable!(),
            };
            assert_eq!(b.symbol, "BINANCE:BTCUSDT");
            assert!(b.tf != Timeframe::M1);
            assert_eq!(b.tf.boundary_align(b.ts), b.ts);
        }
    }
    let kept = agg.history(Timeframe::M5);
    assert_eq!(kept.len(), 1_500);
    assert_eq!(kept[0].ts, start + 4 * 300_000);
    for i in 0..kept.len() {
        assert_eq!(kept[i].tf, Timeframe::M5);
        assert_eq!(kept[i].ts, start + (i as i64 + 4) * 300_000);
    }
}

#[test]
fn hours_may_come_in_any_order() {
    let w = Timeframe::H4.boundary_align(TS_BASE);
    let hours: Vec<Bar> = (0..8)
        .map(|i| candle("DXY", Timeframe::H1, w + i * HOUR, 100 + 7 * i))
        .collect();
    let now = w + 9 * HOUR;
    let straight = shown(&aggregate_h4_from_h1(&hours, "DXY", now));
    for shift in 1..8 {
        let mut turned = hours.clone();
        turned.rotate_left(shift);
        assert_eq!(shown(&aggregate_h4_from_h1(&turned, "DXY", now)), straight);
        turned.reverse();
        assert_eq!(shown(&aggregate_h4_from_h1(&turned, "DXY", now)), straight);
    }
    assert_eq!(aggregate_h4_from_h1(&hours, "DXY", now).len(), 2);
}

#[test]
fn a_hole_is_a_window_that_is_left_out() {
    let w = Timeframe::H4.boundary_align(TS_BASE);
    let whole: Vec<Bar> = (0..12)
        .map(|i| candle("DXY", Timeframe::H1, w + i * HOUR, 100))
        .collect();
    let now = w + 12 * HOUR;
    let opens = |hours: &[Bar]| -> Vec<i64> {
        aggregate_h4_from_h1(hours, "DXY", now).iter().map(|b| b.ts).collect()
    };
    assert!(!has_incomplete_h4_window(&whole, "DXY", now));
    assert_eq!(opens(&whole), vec![w, w + 4 * HOUR, w + 8 * HOUR]);
    for missing in 5..11 {
        let mut hours = whole.clone();
        hours.remove(missing);
        assert!(has_incomplete_h4_window(&hours, "DXY", now));
        assert_eq!(opens(&hours).len(), 2);
    }
    // A first window that the hours only begin to cover late is no hole.
    assert!(!has_incomplete_h4_window(&whole[2..], "DXY", now));
    assert_eq!(opens(&whole[2..]), vec![w + 4 * HOUR, w + 8 * HOUR]);
}

#[test]
fn provider_candles_only_add_to_rebuilt_ones() {
    let w = Timeframe::H4.boundary_align(TS_BASE);
    let mut hours: Vec<Bar> = (0..12)
        .map(|i| candle("DXY", Timeframe::H1, w + i * HOUR, 100))
        .collect();
    hours.remove(5);
    let now = w + 12 * HOUR;
    let strict = aggregate_h4_from_h1(&hours, "DXY", now);
    let natives: Vec<Bar> = (0..3)
        .map(|i| Bar { volume: 99, ..candle("DXY", Timeframe::H4, w + 4 * i * HOUR, 100) })
        .collect();
    let rows = aggregate_h4_with_native_fallback(&hours, &natives, "DXY", now);
    assert_eq!(rows.len(), 3);
    assert_eq!(shown(&rows[0]), shown(&strict[0]));
    assert_eq!(shown(&rows[1]), shown(&natives[1]));
    assert_eq!(shown(&rows[2]), shown(&strict[1]));
    let alone = aggregate_h4_with_native_fallback(&hours, &[], "DXY", now);
    assert_eq!(shown(&alone), shown(&strict));
}

fn reversal(id: &str, symbol: &str, ts: i64) -> IctStructure {
    IctStructure::Cisd(Cisd {
        id: id.into(),
        symbol: symbol.into(),
        tf: Timeframe::M5,
        direction: Direction::Bearish,
        leg_origin_ts: TS_BASE,
        leg_origin_price: 100,
        break_ts: ts,
        break_price: 90,
    })
}

#[test]
fn structures_may_come_in_any_order() {
    let list = vec![
        reversal("c", "A", TS_BASE + 2),
        reversal("a", "B", TS_BASE + 1),
        reversal("b", "A", TS_BASE + 1),
        reversal("d", "A", TS_BASE + 1),
        IctStructure::SmtDivergence(divergence(SmtDetectionState::C2Confirmed, None)),
    ];
    let ids = |structures: &[IctStructure]| -> Vec<String> {
        extract_ltf_events(structures).iter().map(|e| e.id.clone()).collect()
    };
    for shift in 0..5 {
        let mut turned = list.clone();
        turned.rotate_left(shift);
        assert_eq!(ids(&turned), vec!["b", "d", "a", "c"]);
        turned.reverse();
        assert_eq!(ids(&turned), vec!["b", "d", "a", "c"]);
    }
}

fn at(ts: i64, price: i64) -> CandleRef {
    CandleRef { ts, open: price, high: price + 5, low: price - 5, close: price + 1 }
}

fn divergence(state: SmtDetectionState, c3_ts: Option<i64>) -> SmtDivergence {
    let chain = |symbol: &str| SymbolChain {
        symbol: symbol.into(),
        c1_candle: at(TS_BASE, 100),
        smt_k_candle: at(TS_BASE + HOUR, 100),
        c2_candle: Some(at(TS_BASE + 2 * HOUR, 100)),
        c2_case: Some(1),
        c3_candle: c3_ts.map(|ts| at(ts, 100)),
        detection_state: state,
    };
    SmtDivergence {
        id: "smt".into(),
        watchlist_id: "group".into(),
        rule_version: "v".into(),
        symbol_set: vec!["TVC:DXY".into(), "OANDA:EURUSD".into()],
        relationship: Correlation::Negative,
        context_timeframe: Timeframe::H4,
        comparison_timeframe: Timeframe::H1,
        observation_window: (TS_BASE - HOUR, TS_BASE + 5 * HOUR),
        htf_confirmed: true,
        reference_scope: ReferenceScope::DistantLeftSide,
        liquidity_refs: Vec::new(),
        confluence_refs: Vec::new(),
        candidate_direction: Direction::Bullish,
        sweeper_symbol: "TVC:DXY".into(),
        trade_symbols: vec!["OANDA:EURUSD".into()],
        strength: Vec::new(),
        chains: vec![chain("TVC:DXY"), chain("OANDA:EURUSD")],
        invalidation_reasons: Vec::new(),
        invalidation_ts: None,
        htf_pda_ref: Some(PdaRef {
            kind: "fvg".into(),
            id: "area".into(),
            tf: Timeframe::H4,
            direction: Direction::Bullish,
            price_low: 90,
            price_high: 110,
            ts_open: TS_BASE - HOUR,
            ts_confirm: TS_BASE,
            exit_ts: None,
            ts_filled: None,
        }),
        mtf_ref_candle: None,
    }
}

fn reported(d: &SmtDivergence) -> StructureEvent {
    StructureEvent::Update(IctStructure::SmtDivergence(d.clone()))
}

fn the_candidate(engine: &CandidateEngine) -> CandidateSetup {
    engine.get_by_smt_id("smt").expect("candidate")
}

#[test]
fn manual_review_outlives_its_divergence() {
    let c3_ts = TS_BASE + 3 * HOUR;
    let entered = divergence(SmtDetectionState::C3Entry, Some(c3_ts));
    let ended = divergence(SmtDetectionState::Invalidated, Some(c3_ts));
    let mut engine = CandidateEngine::new();
    engine.on_smt_event(&reported(&entered), c3_ts);
    let overdue = c3_ts + 5 * HOUR;
    let close = candle("OANDA:EURUSD", Timeframe::M5, overdue, 101);
    engine.on_ltf_bar_close("OANDA:EURUSD", &close, &[], overdue);
    let kept = the_candidate(&engine);
    assert_eq!(kept.setup_status, SetupStatus::ReCheck);
    assert_eq!(kept.expiry_reason, Some(ExpiryReason::Ttl));

    assert!(engine.on_smt_event(&reported(&ended), overdue + HOUR).is_empty());
    assert!(engine.on_smt_invalidated_at(&ended, overdue + HOUR).is_empty());
    let gone = StructureEvent::Invalidated { id: "smt".into(), kind: "smt_divergence".into() };
    assert!(engine.on_smt_event(&gone, overdue + HOUR).is_empty());
    engine.on_ltf_bar_close("OANDA:EURUSD", &close, &[], overdue + 2 * HOUR);
    engine.replay(vec![entered], &Vec::new(), &Vec::new(), overdue + 3 * HOUR);
    let after = the_candidate(&engine);
    assert_eq!(after.setup_status, SetupStatus::ReCheck);
    assert_eq!(after.invalidated_at, None);
}

#[test]
fn confirmations_do_not_depend_on_the_clock() {
    for (state, c3_ts) in [
        (SmtDetectionState::C2Confirmed, None),
        (SmtDetectionState::C3Entry, Some(TS_BASE + 3 * HOUR)),
    ] {
        let event = reported(&divergence(state, c3_ts));
        let mut early = CandidateEngine::new();
        let mut late = CandidateEngine::new();
        let a = early.on_smt_event(&event, 0);
        let b = late.on_smt_event(&event, TS_BASE + 900 * HOUR);
        assert_eq!(shown(&a), shown(&b));
        assert_eq!(shown(&the_candidate(&early)), shown(&the_candidate(&late)));
    }
}

#[test]
fn a_replay_leaves_no_overdue_candidate_active() {
    let c3_ts = TS_BASE + 3 * HOUR;
    let entered = divergence(SmtDetectionState::C3Entry, Some(c3_ts));
    let mut engine = CandidateEngine::new();
    engine.replay(vec![entered.clone()], &Vec::new(), &Vec::new(), c3_ts + 5 * HOUR - 1);
    assert_eq!(engine.list_active().len(), 1);
    engine.replay(vec![entered], &Vec::new(), &Vec::new(), c3_ts + 5 * HOUR);
    assert!(engine.list_active().is_empty());
}

#[test]
fn a_deadline_is_counted_on_the_comparison_timeframe() {
    // Five months would leave the clock here, five hours do not.
    let c3_ts = i64::MAX - 6 * HOUR;
    let mut engine = CandidateEngine::new();
    engine.on_smt_event(&reported(&divergence(SmtDetectionState::C3Entry, Some(c3_ts))), 0);
    assert_eq!(the_candidate(&engine).expiry_at, Some(c3_ts + 5 * HOUR));
}

#[test]
fn halves_are_written_to_the_even_digit() {
    let text = |num: i128, den: i128| number(Some(Fraction { num, den }));
    assert_eq!(text(1, 32), "0.0312");
    assert_eq!(text(3, 32), "0.0938");
    assert_eq!(text(-1, 32), "-0.0312");
    assert_eq!(text(1, 3), "0.3333");
    assert_eq!(text(2, 3), "0.6667");
    assert_eq!(text(5, 1), "5.0000");
    assert_eq!(number(None), "N/A");
}
