use std::cell::RefCell;

use ict_monitor::calendar::next_window_boundary;
use ict_monitor::charts;
use ict_monitor::charts::canonicalize_provider_calendar_bars;
use ict_monitor::detector::{IctStructure, SessionKind, SessionRange};
use ict_monitor::history;
use ict_monitor::history::{
    bars_have_unexpected_intraday_gap, bars_have_unexpected_market_gap,
    chart_history_needs_provider_refresh, fixed_aggregate_rows_need_fill, history_needs_backfill,
    H4Reading, ReconnectHistoryPreflightGate, Replacement, H4_REPLAY_MIN_BARS,
    RECONNECT_PREFLIGHT_RETRY_COOLDOWN_MS, RECONNECT_PREFLIGHT_SUCCESS_COOLDOWN_MS,
    SMT_SOURCE_HISTORY_LIMIT, SMT_SOURCE_MIN_BARS,
};
use ict_monitor::smt::replay::replay_detection_start_index;
use ict_monitor::structures::merge_persisted_session_structures;
use ict_monitor::types::{Bar, Timeframe};
use ict_monitor::watchlist::{default_watchlists, monitored_symbol_union};

fn vol(x: f64) -> i128 {
    (x * 1e9).round() as i128
}

fn px(x: f64) -> i64 {
    (x * 1e9).round() as i64
}

/// Stored candles, in memory.
#[derive(Default)]
struct Store {
    bars: RefCell<Vec<Bar>>,
}

impl Store {
    fn insert_bar(&self, bar: &Bar) -> Result<(), String> {
        let mut bars = self.bars.borrow_mut();
        bars.retain(|b| !(b.symbol == bar.symbol && b.tf == bar.tf && b.ts == bar.ts));
        bars.push(bar.clone());
        bars.sort_by_key(|b| b.ts);
        Ok(())
    }

    fn insert_bars(&self, rows: &[Bar]) -> Result<(), String> {
        self.bars.borrow_mut().extend(rows.iter().cloned());
        self.bars.borrow_mut().sort_by_key(|b| b.ts);
        Ok(())
    }

    fn insert_if_missing(&self, rows: &[Bar]) -> usize {
        let mut n = 0;
        for row in rows {
            let known = self
                .bars
                .borrow()
                .iter()
                .any(|b| b.symbol == row.symbol && b.tf == row.tf && b.ts == row.ts);
            if !known {
                self.insert_bar(row).unwrap();
                n += 1;
            }
        }
        n
    }

    fn replace(&self, symbol: &str, x: &Replacement) {
        self.bars.borrow_mut().retain(|b| {
            !(b.symbol == symbol && b.tf == x.tf && x.from <= b.ts && b.ts <= x.to)
        });
        self.insert_bars(&x.rows).unwrap();
    }

    fn recent_bars(&self, symbol: &str, tf: Timeframe, limit: usize) -> Result<Vec<Bar>, String> {
        let all: Vec<Bar> = self
            .bars
            .borrow()
            .iter()
            .filter(|b| b.symbol == symbol && b.tf == tf)
            .cloned()
            .collect();
        Ok(all[all.len().saturating_sub(limit)..].to_vec())
    }

    fn count(&self, symbol: &str, tag: &str) -> Result<usize, String> {
        let tf = Timeframe::from_tag(tag).unwrap();
        Ok(self.recent_bars(symbol, tf, usize::MAX)?.len())
    }
}

fn repair_recent_aggregates(store: &Store, symbol: &str) -> Result<usize, String> {
    let minutes = store.recent_bars(symbol, Timeframe::M1, 100_000)?;
    let plan = history::repair_recent_aggregates(&minutes, symbol);
    for x in &plan {
        store.replace(symbol, x);
    }
    Ok(plan.iter().map(|x| x.rows.len()).sum())
}

fn fill_missing_recent_aggregates(store: &Store, symbol: &str) -> Result<usize, String> {
    let minutes = store.recent_bars(symbol, Timeframe::M1, 5_000)?;
    let rows = history::fill_missing_recent_aggregates(&minutes, symbol);
    Ok(store.insert_if_missing(&rows))
}

fn canonicalize_forex_h4_from_h1(
    store: &Store,
    symbol: &str,
    now: i64,
) -> Result<Option<usize>, String> {
    let h1 = store.recent_bars(symbol, Timeframe::H1, 5_000)?;
    let native = store.recent_bars(symbol, Timeframe::H4, 1_500)?;
    Ok(history::canonicalize_forex_h4_from_h1(symbol, &h1, &native, now).map(|x| {
        store.replace(symbol, &x);
        x.rows.len()
    }))
}

fn h4_replay_coverage_issue(store: &Store, symbols: &[String], now: i64) -> Option<String> {
    let readings: Vec<H4Reading> = symbols
        .iter()
        .map(|symbol| H4Reading {
            symbol: symbol.clone(),
            bars: store.recent_bars(symbol, Timeframe::H4, H4_REPLAY_MIN_BARS),
        })
        .collect();
    history::h4_replay_coverage_issue(&readings, now)
}

fn persist_canonical_h4_slice(store: &Store, symbol: &str, bars: &[Bar]) -> Result<usize, String> {
    Ok(match charts::persist_canonical_h4_slice(&bars.to_vec()) {
        Some(x) => {
            store.replace(symbol, &x);
            x.rows.len()
        }
        None => 0,
    })
}

#[test]
fn reconnect_preflight_gate_coalesces_snapshots_after_success() {
    let mut gate = ReconnectHistoryPreflightGate::default();
    let started_at = 100_000;
    assert!(gate.try_begin(started_at));
    assert!(!gate.try_begin(started_at + 1));

    gate.finish(started_at + 10, true);
    assert!(!gate.try_begin(started_at + 10 + RECONNECT_PREFLIGHT_SUCCESS_COOLDOWN_MS - 1));
    assert!(gate.try_begin(started_at + 10 + RECONNECT_PREFLIGHT_SUCCESS_COOLDOWN_MS));
}

#[test]
fn reconnect_preflight_gate_allows_bounded_failure_retry() {
    let mut gate = ReconnectHistoryPreflightGate::default();
    let started_at = 200_000;
    assert!(gate.try_begin(started_at));
    gate.finish(started_at + 10, false);

    assert!(!gate.try_begin(started_at + RECONNECT_PREFLIGHT_RETRY_COOLDOWN_MS - 1));
    assert!(gate.try_begin(started_at + RECONNECT_PREFLIGHT_RETRY_COOLDOWN_MS));
}

fn hourly_bar(symbol: &str, ts: i64, index: usize) -> Bar {
    let base = 1.0 + index as f64 * 0.0001;
    Bar {
        symbol: symbol.to_string(),
        tf: Timeframe::H1,
        ts,
        open: px(base),
        high: px(base + 0.0002),
        low: px(base - 0.0002),
        close: px(base + 0.0001),
        volume: vol(1.0),
    }
}

fn minute_bar(symbol: &str, ts: i64, index: usize) -> Bar {
    let base = 1.0 + index as f64 * 0.000001;
    Bar {
        symbol: symbol.to_string(),
        tf: Timeframe::M1,
        ts,
        open: px(base),
        high: px(base + 0.000002),
        low: px(base - 0.000002),
        close: px(base + 0.000001),
        volume: vol(1.0),
    }
}

fn bar_at(symbol: &str, tf: Timeframe, ts: i64, index: usize) -> Bar {
    let base = 1.0 + index as f64 * 0.0001;
    Bar {
        symbol: symbol.to_string(),
        tf,
        ts,
        open: px(base),
        high: px(base + 0.0002),
        low: px(base - 0.0002),
        close: px(base + 0.0001),
        volume: vol(1.0 + index as f64),
    }
}

#[test]
fn subscription_union_contains_one_dxy_and_every_group_symbol() {
    let groups = default_watchlists();
    let union = monitored_symbol_union(&groups);
    assert_eq!(
        union.iter().filter(|symbol| *symbol == "TVC:DXY").count(),
        1
    );
    assert_eq!(union.len(), 7);
    for expected in [
        "OANDA:EURUSD",
        "OANDA:GBPUSD",
        "OANDA:AUDUSD",
        "OANDA:NZDUSD",
        "OANDA:USDCHF",
        "OANDA:USDCAD",
        "TVC:DXY",
    ] {
        assert!(union.iter().any(|symbol| symbol == expected));
    }
}

#[test]
fn a_pair_specific_outage_does_not_change_other_groups_membership() {
    let groups = default_watchlists();
    let routed = |symbol: &str| {
        groups
            .iter()
            .filter(|group| group.symbols.iter().any(|item| item == symbol))
            .map(|group| group.id.as_str())
            .collect::<Vec<_>>()
    };
    assert_eq!(routed("OANDA:EURUSD"), vec!["eu-gu-dxy"]);
    assert_eq!(routed("OANDA:USDCHF"), vec!["chf-cad-dxy"]);
    assert_eq!(routed("TVC:DXY").len(), 3);
}

#[test]
fn source_history_with_enough_rows_but_a_multiweek_hole_still_needs_backfill() {
    let symbol = "OANDA:USDCHF";
    let start = 1_783_296_000_000_i64;
    let mut bars: Vec<Bar> = (0..750)
        .map(|index| hourly_bar(symbol, start + index as i64 * 3_600_000, index))
        .collect();
    let resumed = start + 60 * 24 * 3_600_000;
    bars.extend(
        (0..750)
            .map(|index| hourly_bar(symbol, resumed + index as i64 * 3_600_000, index + 750)),
    );

    assert_eq!(bars.len(), SMT_SOURCE_HISTORY_LIMIT as usize);
    assert!(history_needs_backfill(
        &bars,
        SMT_SOURCE_MIN_BARS,
        bars.last().expect("last bar").ts + 3_600_000,
    ));
}

#[test]
fn source_history_with_one_missing_market_bar_needs_backfill() {
    let symbol = "OANDA:NZDUSD";
    let first_ts = 1_787_855_400_000_i64;
    let bars = vec![
        Bar {
            symbol: symbol.into(),
            tf: Timeframe::M30,
            ts: first_ts,
            open: px(0.595),
            high: px(0.596),
            low: px(0.594),
            close: px(0.595),
            volume: vol(1.0),
        },
        Bar {
            symbol: symbol.into(),
            tf: Timeframe::M30,
            ts: first_ts + 2 * Timeframe::M30.duration_ms(),
            open: px(0.595),
            high: px(0.596),
            low: px(0.594),
            close: px(0.595),
            volume: vol(1.0),
        },
    ];

    assert!(bars_have_unexpected_intraday_gap(&bars));
}

#[test]
fn chart_refresh_repairs_an_internal_gap_when_the_tail_is_current() {
    let symbol = "TVC:DXY";
    let duration = Timeframe::H1.duration_ms();
    let bars = vec![
        hourly_bar(symbol, 0, 0),
        hourly_bar(symbol, 2 * duration, 2),
    ];

    assert!(bars_have_unexpected_intraday_gap(&bars));
    assert!(chart_history_needs_provider_refresh(&bars, 2, 3 * duration,));
}

#[test]
fn chart_refresh_detects_a_missing_calendar_window() {
    let tf = Timeframe::D1;
    let first = tf.boundary_align(1_780_000_000_000);
    let missing = next_window_boundary(tf, first);
    let third = next_window_boundary(tf, missing);
    let bars = vec![
        bar_at("COINBASE:BTCUSD", tf, first, 0),
        bar_at("COINBASE:BTCUSD", tf, third, 2),
    ];

    assert!(bars_have_unexpected_market_gap(&bars));
    assert!(chart_history_needs_provider_refresh(
        &bars,
        bars.len(),
        next_window_boundary(tf, third),
    ));
}

#[test]
fn calendar_provider_rows_are_canonicalized_and_deduplicated() {
    let tf = Timeframe::D1;
    let window = tf.boundary_align(1_780_000_000_000);
    let first = bar_at("TVC:DXY", tf, window + 60 * 60_000, 0);
    let second = bar_at("TVC:DXY", tf, window + 2 * 60 * 60_000, 1);

    let normalized = canonicalize_provider_calendar_bars(vec![first, second.clone()]);

    assert_eq!(normalized.len(), 1);
    assert_eq!(normalized[0].ts, window);
    assert_eq!(normalized[0].close, second.close);
    assert_eq!(normalized[0].high, second.high);
    assert_eq!(normalized[0].volume, second.volume);
}

#[test]
fn chart_refresh_detects_a_missing_market_open_tail() {
    let symbol = "TVC:DXY";
    let duration = Timeframe::H1.duration_ms();
    let bars = vec![hourly_bar(symbol, 0, 0)];

    assert!(chart_history_needs_provider_refresh(&bars, 1, 2 * duration,));
}

#[test]
fn chart_refresh_does_not_fetch_during_a_normal_weekend_close() {
    let friday_last_bar = Bar {
        symbol: "OANDA:EURUSD".into(),
        tf: Timeframe::M30,
        ts: 1_787_949_000_000,
        open: px(1.0),
        high: px(1.0),
        low: px(1.0),
        close: px(1.0),
        volume: vol(1.0),
    };

    let saturday = friday_last_bar.ts + 24 * 60 * 60 * 1_000;
    assert!(!chart_history_needs_provider_refresh(
        &[friday_last_bar],
        1,
        saturday,
    ));
}

#[test]
fn normal_forex_weekend_does_not_need_gap_backfill() {
    let symbol = "OANDA:NZDUSD";
    let bars = vec![
        Bar {
            symbol: symbol.into(),
            tf: Timeframe::M30,
            ts: 1_787_949_000_000,
            open: px(0.595),
            high: px(0.596),
            low: px(0.594),
            close: px(0.595),
            volume: vol(1.0),
        },
        Bar {
            symbol: symbol.into(),
            tf: Timeframe::M30,
            ts: 1_788_123_600_000,
            open: px(0.595),
            high: px(0.596),
            low: px(0.594),
            close: px(0.595),
            volume: vol(1.0),
        },
    ];

    assert!(!bars_have_unexpected_intraday_gap(&bars));
}

#[test]
fn aggregate_repair_never_deletes_native_higher_tf_inside_an_m1_gap() {
    let store = Store::default();
    let symbol = "OANDA:USDCHF";
    let start = 1_783_296_000_000_i64;
    let second_start = start + 10 * 24 * 60 * 60_000;
    let mut m1: Vec<Bar> = (0..180)
        .map(|index| minute_bar(symbol, start + index as i64 * 60_000, index))
        .collect();
    m1.extend(
        (0..180)
            .map(|index| minute_bar(symbol, second_start + index as i64 * 60_000, index + 180)),
    );
    store.insert_bars(&m1).expect("insert split M1 history");

    let native_gap_ts = start + 5 * 24 * 60 * 60_000;
    let stale_repairable_ts = Timeframe::H1.boundary_align(second_start);
    store
        .insert_bars(&[
            Bar {
                symbol: symbol.into(),
                tf: Timeframe::H1,
                ts: native_gap_ts,
                open: px(7.0),
                high: px(7.1),
                low: px(6.9),
                close: px(7.0),
                volume: vol(1.0),
            },
            Bar {
                symbol: symbol.into(),
                tf: Timeframe::H1,
                ts: stale_repairable_ts,
                open: px(9.0),
                high: px(9.0),
                low: px(9.0),
                close: px(9.0),
                volume: vol(1.0),
            },
        ])
        .expect("insert native/stale H1 rows");

    repair_recent_aggregates(&store, symbol).expect("repair aggregates");
    let h1 = store
        .recent_bars(symbol, Timeframe::H1, 100)
        .expect("query repaired H1");
    let native = h1
        .iter()
        .find(|bar| bar.ts == native_gap_ts)
        .expect("native H1 inside M1 hole must survive");
    assert_eq!(native.close, px(7.0));
    let repaired = h1
        .iter()
        .find(|bar| bar.ts == stale_repairable_ts)
        .expect("covered H1 should be rebuilt");
    assert_ne!(repaired.close, px(9.0));

}

#[test]
fn reconnect_repair_fills_missing_0900_m30_without_overwriting_native_rows() {
    let store = Store::default();
    let symbol = "OANDA:GBPUSD";
    let start = 1_788_222_600_000_i64;
    let m1: Vec<Bar> = (0..60)
        .map(|index| minute_bar(symbol, start + index as i64 * 60_000, index))
        .collect();
    store.insert_bars(&m1).expect("insert complete M1 source");

    let native_0830 = Bar {
        symbol: symbol.into(),
        tf: Timeframe::M30,
        ts: start,
        open: px(7.0),
        high: px(7.1),
        low: px(6.9),
        close: px(7.0),
        volume: vol(1.0),
    };
    store
        .insert_bar(&native_0830)
        .expect("insert native 08:30 row");

    assert!(fixed_aggregate_rows_need_fill(
        std::slice::from_ref(&native_0830),
        symbol,
        Timeframe::M30,
        start + 64 * 60_000,
    ));

    let inserted =
        fill_missing_recent_aggregates(&store, symbol).expect("fill elapsed aggregate holes");
    assert!(inserted >= 1);

    let m30 = store
        .recent_bars(symbol, Timeframe::M30, 10)
        .expect("query repaired M30");
    let preserved = m30.iter().find(|bar| bar.ts == start).expect("08:30 row");
    assert_eq!(preserved.close, px(7.0), "native 08:30 must not be overwritten");
    let repaired = m30
        .iter()
        .find(|bar| bar.ts == start + Timeframe::M30.duration_ms())
        .expect("missing 09:00 row must be restored");
    assert_ne!(repaired.close, px(7.0));
    assert!(!fixed_aggregate_rows_need_fill(
        &m30,
        symbol,
        Timeframe::M30,
        start + 64 * 60_000,
    ));

}

#[test]
fn partial_engine_snapshot_merges_persisted_sessions_without_overwriting_live_rows() {
        let persisted = IctStructure::SessionRange(SessionRange {
        id: "dxy-asia".into(),
        symbol: "TVC:DXY".into(),
        tf: Timeframe::M1,
        session: SessionKind::Asia,
        label: "Asia".into(),
        ts_start: 1_000,
        ts_end: 2_000,
        high: px(100.0),
        low: px(99.0),
        high_ts: 1_200,
        low_ts: 1_400,
        finalized: false,
    });
    let stored = vec![persisted.clone()];

    let mut empty_snapshot = Vec::new();
    merge_persisted_session_structures(&mut empty_snapshot, &stored);
    assert_eq!(empty_snapshot.len(), 1);

    let mut live = match persisted.clone() {
        IctStructure::SessionRange(range) => range,
        _ => unreachable!(),
    };
    live.high = px(101.0);
    let mut live_snapshot = vec![IctStructure::SessionRange(live)];
    merge_persisted_session_structures(&mut live_snapshot, &stored);
    assert_eq!(live_snapshot.len(), 1, "same id must not be duplicated");
    assert!(matches!(
        &live_snapshot[0],
        IctStructure::SessionRange(range) if range.high == px(101.0)
    ));

}

#[test]
fn startup_h4_preflight_replaces_sparse_covered_slice_and_preserves_deep_history() {
    let store = Store::default();
    let symbol = "OANDA:USDCHF";
    let start = 1_783_296_000_000_i64;
    let h1: Vec<Bar> = (0..480)
        .map(|index| hourly_bar(symbol, start + index as i64 * 60 * 60_000, index))
        .collect();
    store.insert_bars(&h1).expect("insert H1 history");

    let deep_ts = Timeframe::H4.boundary_align(start) - 10 * 24 * 60 * 60_000;
    let sparse_ts = start + 1_234;
    store
        .insert_bars(&[
            Bar {
                symbol: symbol.into(),
                tf: Timeframe::H4,
                ts: deep_ts,
                open: px(0.8),
                high: px(0.9),
                low: px(0.7),
                close: px(0.85),
                volume: vol(1.0),
            },
            Bar {
                symbol: symbol.into(),
                tf: Timeframe::H4,
                ts: sparse_ts,
                open: px(9.0),
                high: px(9.0),
                low: px(9.0),
                close: px(9.0),
                volume: vol(1.0),
            },
        ])
        .expect("insert existing H4 rows");

    let rebuilt = canonicalize_forex_h4_from_h1(&store, symbol, start + 600 * 60 * 60_000)
        .expect("canonicalize H4")
        .expect("sufficient H1 coverage");
    assert!(rebuilt >= H4_REPLAY_MIN_BARS);

    let h4 = store
        .recent_bars(symbol, Timeframe::H4, 1_000)
        .expect("query canonical H4");
    assert!(h4.iter().any(|bar| bar.ts == deep_ts));
    assert!(!h4.iter().any(|bar| bar.ts == sparse_ts));
    assert!(
        h4_replay_coverage_issue(&store, &[symbol.to_string()], start + 600 * 60 * 60_000,)
            .is_none()
    );

}

#[test]
fn startup_h4_preflight_never_wipes_history_without_enough_h1_evidence() {
    let store = Store::default();
    let symbol = "OANDA:USDCAD";
    let start = 1_783_296_000_000_i64;
    let h1: Vec<Bar> = (0..16)
        .map(|index| hourly_bar(symbol, start + index as i64 * 60 * 60_000, index))
        .collect();
    store.insert_bars(&h1).expect("insert short H1 history");
    store
        .insert_bar(&Bar {
            symbol: symbol.into(),
            tf: Timeframe::H4,
            ts: Timeframe::H4.boundary_align(start),
            open: px(1.0),
            high: px(1.1),
            low: px(0.9),
            close: px(1.05),
            volume: vol(1.0),
        })
        .expect("insert retained H4");

    assert_eq!(
        canonicalize_forex_h4_from_h1(&store, symbol, start + 24 * 60 * 60_000)
            .expect("preflight result"),
        None
    );
    assert_eq!(store.count(symbol, Timeframe::H4.tag()).unwrap(), 1);
    assert!(
        h4_replay_coverage_issue(&store, &[symbol.to_string()], start + 24 * 60 * 60_000,)
            .is_some()
    );

}

#[test]
fn startup_h4_preflight_preserves_a_valid_native_fallback_for_an_h1_hole() {
    let store = Store::default();
    let symbol = "TVC:DXY";
    let start = 1_783_296_000_000_i64;
    let target_window = Timeframe::H4.boundary_align(start + 72 * 60 * 60_000);
    let mut h1: Vec<Bar> = (0..480)
        .map(|index| hourly_bar(symbol, start + index as i64 * 60 * 60_000, index))
        .collect();
    let target_children: Vec<Bar> = h1
        .iter()
        .filter(|bar| Timeframe::H4.boundary_align(bar.ts) == target_window)
        .cloned()
        .collect();
    assert_eq!(target_children.len(), 4);
    let missing_a = target_children[1].ts;
    let missing_b = target_children[2].ts;
    h1.retain(|bar| bar.ts != missing_a && bar.ts != missing_b);
    store.insert_bars(&h1).expect("insert H1 history with hole");

    let native = Bar {
        symbol: symbol.into(),
        tf: Timeframe::H4,
        ts: target_window,
        open: target_children[0].open,
        high: target_children
            .iter()
            .map(|bar| bar.high)
            .max()
            .unwrap(),
        low: target_children
            .iter()
            .map(|bar| bar.low)
            .min()
            .unwrap(),
        close: target_children[3].close,
        volume: vol(4.0),
    };
    store.insert_bar(&native).expect("stage native H4 fallback");

    let rebuilt = canonicalize_forex_h4_from_h1(&store, symbol, start + 600 * 60 * 60_000)
        .expect("canonicalize H4")
        .expect("sufficient H1 coverage");
    assert!(rebuilt >= H4_REPLAY_MIN_BARS);
    let h4 = store
        .recent_bars(symbol, Timeframe::H4, 1_000)
        .expect("query canonical H4");
    let recovered = h4
        .iter()
        .find(|bar| bar.ts == target_window)
        .expect("native fallback must survive canonical replacement");
    assert_eq!(recovered.open, native.open);
    assert_eq!(recovered.high, native.high);
    assert_eq!(recovered.low, native.low);
    assert_eq!(recovered.close, native.close);

}

#[test]
fn chart_h4_reaggregation_preserves_deeper_native_history() {
    let store = Store::default();
    let symbol = "TVC:DXY";
    let start = Timeframe::H4.boundary_align(1_783_296_000_000_i64);
    let deeper_ts = start - 20 * 4 * 60 * 60_000;
    let dirty_ts = start + 60 * 60_000;

    store
        .insert_bars(&[
            Bar {
                symbol: symbol.into(),
                tf: Timeframe::H4,
                ts: deeper_ts,
                open: px(98.0),
                high: px(98.5),
                low: px(97.5),
                close: px(98.2),
                volume: vol(1.0),
            },
            Bar {
                symbol: symbol.into(),
                tf: Timeframe::H4,
                ts: dirty_ts,
                open: px(99.0),
                high: px(99.5),
                low: px(98.5),
                close: px(99.2),
                volume: vol(1.0),
            },
        ])
        .expect("insert native and dirty H4");
    assert_eq!(
        persist_canonical_h4_slice(&store, symbol, &[])
            .expect("empty canonical slice is a no-op"),
        0
    );
    assert_eq!(store.count(symbol, Timeframe::H4.tag()).unwrap(), 2);

    let canonical = vec![
        Bar {
            symbol: symbol.into(),
            tf: Timeframe::H4,
            ts: start,
            open: px(100.0),
            high: px(101.0),
            low: px(99.0),
            close: px(100.5),
            volume: vol(4.0),
        },
        Bar {
            symbol: symbol.into(),
            tf: Timeframe::H4,
            ts: start + 4 * 60 * 60_000,
            open: px(100.5),
            high: px(101.5),
            low: px(100.0),
            close: px(101.0),
            volume: vol(4.0),
        },
    ];

    assert_eq!(
        persist_canonical_h4_slice(&store, symbol, &canonical)
            .expect("persist canonical H4 slice"),
        canonical.len()
    );
    let stored = store
        .recent_bars(symbol, Timeframe::H4, 20)
        .expect("query H4");
    assert!(stored.iter().any(|bar| bar.ts == deeper_ts));
    assert!(!stored.iter().any(|bar| bar.ts == dirty_ts));
    assert!(canonical
        .iter()
        .all(|expected| stored.iter().any(|bar| bar.ts == expected.ts)));

}

#[test]
fn replay_context_before_common_chart_start_is_non_emitting() {
    let bars: Vec<Bar> = (0..8)
        .map(|index| Bar {
            symbol: "TVC:DXY".into(),
            tf: Timeframe::H4,
            ts: index * Timeframe::H4.duration_ms(),
            open: px(1.0),
            high: px(2.0),
            low: px(0.5),
            close: px(1.5),
            volume: vol(1.0),
        })
        .collect();

    assert_eq!(
        replay_detection_start_index(&bars, Some(5 * Timeframe::H4.duration_ms()), 3),
        5,
        "bars before the common comparison-TF chart edge are context only"
    );
    assert_eq!(replay_detection_start_index(&bars, None, 3), 5);
}
