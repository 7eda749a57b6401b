use ict_monitor::calendar::next_window_boundary;
use ict_monitor::charts::{
    chart_request, chart_rows, chart_step, count_hours, depth_of, forex_h4_history,
    get_history_cutoff, persist_chart_provider_history, wants_hours, ChartStage, ChartStep,
    Storing,
};
use ict_monitor::history::{
    coverage_issue, h4_replay_coverage_issue, is_forex_symbol, is_pair_incomplete,
    recent_fixed_aggregate_history_needs_fill, tries_again, H4Reading, PairHistory,
};
use ict_monitor::types::{Bar, Timeframe};

const HOUR: i64 = 3_600_000;
/// A Monday, 2026-07-06 00:00 UTC.
const MONDAY: i64 = 1_783_296_000_000;

fn vol(x: f64) -> i128 {
    (x * 1e9).round() as i128
}

fn px(x: f64) -> i64 {
    (x * 1e9).round() as i64
}

fn bar(symbol: &str, tf: Timeframe, ts: i64) -> Bar {
    Bar {
        symbol: symbol.into(),
        tf,
        ts,
        open: px(1.0),
        high: px(1.2),
        low: px(0.9),
        close: px(1.1),
        volume: vol(1.0),
    }
}

fn hours(symbol: &str, from: i64, n: i64) -> Vec<Bar> {
    (0..n).map(|i| bar(symbol, Timeframe::H1, from + i * HOUR)).collect()
}

#[test]
fn chart_requests_are_read() {
    let r = chart_request("OANDA:EURUSD", "1h", 300, None).unwrap();
    assert_eq!((r.tf, r.want, r.force_fresh, r.rebuild), (Timeframe::H1, 300, false, false));
    let r = chart_request("OANDA:EURUSD", "4h", -5, Some(true)).unwrap();
    assert_eq!((r.tf, r.want, r.force_fresh, r.rebuild), (Timeframe::H4, 1, true, true));
    assert!(!chart_request("COINBASE:BTCUSD", "4h", 1, None).unwrap().rebuild);
    assert_eq!(
        chart_request("OANDA:EURUSD", "7h", 1, None).unwrap_err(),
        "unknown tf: 7h"
    );
    assert_eq!(depth_of(300), 300);
    assert_eq!(depth_of(9_000), 5_000);
    assert_eq!(count_hours(100), 408);
    assert_eq!(count_hours(5_000), 5_000);
}

#[test]
fn currency_pairs_are_known_in_any_case() {
    assert!(is_forex_symbol("oanda:eurusd"));
    assert!(is_forex_symbol("tvc:dxy"));
    assert!(is_forex_symbol("EURUSD"));
    assert!(!is_forex_symbol("COINBASE:BTCUSD"));
    assert!(!is_forex_symbol("OANDA:XAU1USD"));
}

#[test]
fn a_fresh_batch_is_fetched_first() {
    let r = chart_request("OANDA:EURUSD", "1h", 300, Some(true)).unwrap();
    let rows: Vec<Bar> = vec![];
    let step = |stage| chart_step(r, stage, "OANDA:EURUSD", &rows, MONDAY);
    assert_eq!(step(ChartStage::Opened), ChartStep::Fetch(300));
    assert_eq!(step(ChartStage::Read), ChartStep::Fill);
    assert_eq!(step(ChartStage::Filled), ChartStep::Show);
}

#[test]
fn holes_are_filled_before_the_provider_is_asked() {
    let r = chart_request("OANDA:EURUSD", "1h", 3, None).unwrap();
    let rows = vec![bar("OANDA:EURUSD", Timeframe::H1, MONDAY)];
    let now = MONDAY + 5 * HOUR;
    let step = |stage, rows: &Vec<Bar>| chart_step(r, stage, "OANDA:EURUSD", rows, now);
    assert_eq!(step(ChartStage::Opened, &rows), ChartStep::Read);
    assert_eq!(step(ChartStage::Read, &rows), ChartStep::Fill);
    assert_eq!(step(ChartStage::Filled, &rows), ChartStep::Fetch(3));
    assert_eq!(step(ChartStage::Refreshed, &rows), ChartStep::Show);
    let full = hours("OANDA:EURUSD", MONDAY, 5);
    assert_eq!(step(ChartStage::Read, &full), ChartStep::Show);
    // A calendar period has nothing to fill from.
    let daily = chart_request("OANDA:EURUSD", "1d", 3, None).unwrap();
    assert_eq!(
        chart_step(daily, ChartStage::Read, "OANDA:EURUSD", &vec![], now),
        ChartStep::Fetch(3)
    );
}

#[test]
fn the_open_candle_follows_the_closed_ones() {
    let rows = hours("OANDA:EURUSD", MONDAY, 3);
    let open = bar("OANDA:EURUSD", Timeframe::H1, MONDAY + 3 * HOUR);
    let drawn = chart_rows(&rows, 2, Some(&open));
    assert_eq!(drawn.len(), 3);
    assert_eq!(drawn[0].bar.ts, MONDAY + HOUR);
    assert!(drawn[1].closed && !drawn[2].closed);
    // The open candle is dropped once it has closed.
    assert_eq!(chart_rows(&rows, 9, Some(&rows[2])).len(), 3);
    assert_eq!(chart_rows(&rows, 9, None).len(), 3);
}

#[test]
fn snapshots_are_stored_by_period() {
    let day = Timeframe::D1;
    let first = day.boundary_align(MONDAY);
    let second = next_window_boundary(day, first);
    let third = next_window_boundary(day, second);
    let fetched = vec![
        bar("TVC:DXY", day, first + HOUR),
        bar("TVC:DXY", day, first + 2 * HOUR),
        bar("TVC:DXY", day, second),
        bar("TVC:DXY", day, third),
    ];
    // The last day is not over yet.
    match persist_chart_provider_history(day, &fetched, third + HOUR) {
        Storing::Replace(x) => {
            assert_eq!((x.from, x.to), (first, third - 1));
            assert_eq!(x.rows.len(), 2);
            assert_eq!(x.rows[0].volume, vol(1.0));
        }
        _ => panic!("a range is replaced"),
    }
    assert!(matches!(
        persist_chart_provider_history(day, &[], third),
        Storing::Nothing
    ));
    let minutes = vec![bar("TVC:DXY", Timeframe::M1, MONDAY)];
    match persist_chart_provider_history(Timeframe::M1, &minutes, MONDAY + 60_000) {
        Storing::Insert(rows) => assert_eq!(rows.len(), 1),
        _ => panic!("rows are added"),
    }
}

#[test]
fn provider_candles_are_wanted_for_holes_alone() {
    let symbol = "OANDA:EURUSD";
    let mut h1 = hours(symbol, MONDAY, 24);
    // The window of the last hour is still open.
    let now = MONDAY + 25 * HOUR;
    let whole = forex_h4_history(&h1, &vec![], symbol, now, true);
    assert!(!whole.fetch_native);
    let n = whole.rows.len();
    assert!(n >= 4);
    let window = whole.rows[2].ts;
    h1.retain(|b| b.ts != window + HOUR);
    let holed = forex_h4_history(&h1, &vec![], symbol, now, true);
    assert!(holed.fetch_native);
    assert_eq!(holed.rows.len(), n - 1);
    assert!(!forex_h4_history(&h1, &vec![], symbol, now, false).fetch_native);
    let native = vec![bar(symbol, Timeframe::H4, window)];
    let mended = forex_h4_history(&h1, &native, symbol, now, true);
    assert!(!mended.fetch_native);
    assert_eq!(mended.rows.len(), n);
    assert!(wants_hours(true, true, &h1, 6, now));
    assert!(wants_hours(true, false, &h1, 6, now));
    assert!(!wants_hours(false, true, &h1, 6, now));
}

#[test]
fn cutoffs_need_every_history() {
    assert_eq!(get_history_cutoff("1h", &vec![Some(5), Some(9)]), Ok(9));
    assert_eq!(get_history_cutoff("1h", &vec![Some(5), None]), Ok(0));
    assert_eq!(get_history_cutoff("1h", &vec![]), Ok(0));
    assert_eq!(get_history_cutoff("1h", &vec![Some(-5)]), Ok(0));
    assert_eq!(get_history_cutoff("x", &vec![]), Err("unknown tf: x".to_string()));
}

#[test]
fn coverage_complaints_name_the_instrument() {
    let symbol = "OANDA:EURUSD";
    let four = |n: i64| -> Vec<Bar> {
        (0..n).map(|i| bar(symbol, Timeframe::H4, MONDAY + i * 4 * HOUR)).collect()
    };
    let end = MONDAY + 64 * 4 * HOUR;
    assert_eq!(coverage_issue(symbol, &four(64), end), None);
    assert_eq!(
        coverage_issue(symbol, &four(3), end).unwrap(),
        "OANDA:EURUSD: 仅 3 根 4H，至少需要 64 根"
    );
    let mut torn = four(64);
    for b in torn.iter_mut().skip(40) {
        b.ts += 6 * 24 * HOUR;
    }
    assert_eq!(
        coverage_issue(symbol, &torn, end).unwrap(),
        "OANDA:EURUSD: 最近 4H 历史存在超过 5 天的断档"
    );
    assert_eq!(
        coverage_issue(symbol, &four(64), end + 8 * 24 * HOUR).unwrap(),
        "OANDA:EURUSD: 最近 4H 已超过 7 天未更新"
    );
    let failed = vec![H4Reading {
        symbol: symbol.into(),
        bars: Err("locked".into()),
    }];
    assert_eq!(
        h4_replay_coverage_issue(&failed, end).unwrap(),
        "OANDA:EURUSD: 4H 查询失败: locked"
    );
}

#[test]
fn audits_judge_each_period_by_its_use() {
    let symbol = "OANDA:EURUSD";
    let now = MONDAY + 5 * HOUR;
    let full = hours(symbol, MONDAY, 5);
    // Enough for a chart, not enough for divergences.
    assert!(is_pair_incomplete(symbol, Timeframe::H1, &full, now));
    let fives: Vec<Bar> = (0..60)
        .map(|i| bar(symbol, Timeframe::M5, MONDAY + i * 300_000))
        .collect();
    assert!(!is_pair_incomplete(symbol, Timeframe::M5, &fives, now));
    assert!(is_pair_incomplete(symbol, Timeframe::H4, &vec![], now));
    let pair = |bars: Vec<Bar>| PairHistory {
        symbol: symbol.into(),
        tf: Timeframe::H1,
        bars,
    };
    assert!(!recent_fixed_aggregate_history_needs_fill(&vec![pair(full)], now));
    assert!(recent_fixed_aggregate_history_needs_fill(&vec![pair(vec![])], now));
    assert!(tries_again(1, false));
    assert!(!tries_again(3, false));
    assert!(!tries_again(1, true));
}
