use chrono::{TimeZone, Utc};
use ict_monitor::aggregator::SymbolAggregator;
use ict_monitor::calendar::{
    expected_market_bar_opens, is_forex_like, is_on_clock, market_is_open, next_window_boundary,
    within_fx_hours,
};
use ict_monitor::h4::{
    aggregate_h4_from_h1, aggregate_h4_with_native_fallback, has_incomplete_h4_window, prices_match,
};
use ict_monitor::types::{Bar, BarEvent, Timeframe};

fn vol(x: f64) -> i128 {
    (x * 1e9).round() as i128
}

fn px(x: f64) -> i64 {
    (x * 1e9).round() as i64
}

fn bar(symbol: &str, tf: Timeframe, ts: i64, o: f64, h: f64, l: f64, c: f64, v: f64) -> Bar {
    Bar {
        symbol: symbol.to_string(),
        tf,
        ts,
        open: px(o),
        high: px(h),
        low: px(l),
        close: px(c),
        volume: vol(v),
    }
}

fn h1(symbol: &str, ts: i64, o: f64, h: f64, l: f64, c: f64, v: f64) -> Bar {
    bar(symbol, Timeframe::H1, ts, o, h, l, c, v)
}

#[test]
fn aggregates_four_hours_into_one_h4_on_grid() {
    let w = Timeframe::H4.boundary_align(1_700_000_000_000);
    let bars = vec![
        h1("DXY", w, 100.0, 100.5, 99.8, 100.2, 10.0),
        h1("DXY", w + 3_600_000, 100.2, 101.0, 100.1, 100.8, 12.0),
        h1("DXY", w + 7_200_000, 100.8, 101.2, 100.7, 101.0, 8.0),
        h1("DXY", w + 10_800_000, 101.0, 101.1, 100.9, 100.95, 9.0),
    ];
    let now = w + 4 * 3_600_000;
    let out = aggregate_h4_from_h1(&bars, "DXY", now);
    assert_eq!(out.len(), 1);
    let b = &out[0];
    assert_eq!(b.ts, w);
    assert_eq!(b.tf, Timeframe::H4);
    assert_eq!(b.open, px(100.0));
    assert_eq!(b.high, px(101.2));
    assert_eq!(b.low, px(99.8));
    assert_eq!(b.close, px(100.95));
    assert_eq!(b.volume, vol(39.0));
}

#[test]
fn open_window_is_dropped() {
    let w = Timeframe::H4.boundary_align(2_000_000_000_000);
    let bars = vec![h1("DXY", w, 100.0, 100.5, 99.8, 100.2, 10.0)];
    let out = aggregate_h4_from_h1(&bars, "DXY", w + 1_800_000);
    assert!(out.is_empty());
}

#[test]
fn sparse_window_is_dropped() {
    let w0 = Timeframe::H4.boundary_align(1_700_000_000_000);
    let w1 = w0 + 4 * 3_600_000;
    let now = w1 + 4 * 3_600_000;
    let bars = vec![
        h1("DXY", w0, 1.0, 2.0, 0.5, 1.5, 1.0),
        h1("DXY", w0 + 3_600_000, 1.5, 2.5, 1.4, 2.0, 1.0),
        h1("DXY", w0 + 7_200_000, 2.0, 2.2, 1.9, 2.1, 1.0),
        h1("DXY", w0 + 10_800_000, 2.1, 2.3, 2.0, 2.2, 1.0),
        h1("DXY", w1, 5.0, 5.5, 4.9, 5.2, 3.0),
    ];
    let out = aggregate_h4_from_h1(&bars, "DXY", now);
    assert_eq!(out.len(), 1);
    assert_eq!(out[0].ts, w0);
}

#[test]
fn native_h4_repairs_an_internal_h1_hole_on_the_canonical_grid() {
    let previous = Timeframe::H4.boundary_align(1_700_000_000_000);
    let w = next_window_boundary(Timeframe::H4, previous);
    let hours = vec![
        h1("TVC:DXY", previous, 99.60, 99.65, 99.55, 99.61, 1.0),
        h1("TVC:DXY", previous + 3_600_000, 99.61, 99.66, 99.56, 99.62, 1.0),
        h1("TVC:DXY", previous + 2 * 3_600_000, 99.62, 99.67, 99.57, 99.63, 1.0),
        h1("TVC:DXY", previous + 3 * 3_600_000, 99.63, 99.68, 99.58, 99.64, 1.0),
        h1("TVC:DXY", w + 2 * 3_600_000, 99.45, 99.50, 99.40, 99.43, 1.0),
        h1("TVC:DXY", w + 3 * 3_600_000, 99.43, 99.46, 99.35, 99.39, 1.0),
    ];
    let native = bar("TVC:DXY", Timeframe::H4, w, 99.49, 99.51, 99.35, 99.39, 4.0);
    let now = next_window_boundary(Timeframe::H4, w);

    assert!(has_incomplete_h4_window(&hours, "TVC:DXY", now));
    assert!(!aggregate_h4_from_h1(&hours, "TVC:DXY", now)
        .iter()
        .any(|bar| bar.ts == w));
    let repaired = aggregate_h4_with_native_fallback(&hours, &[native.clone()], "TVC:DXY", now);
    let recovered = repaired.last().expect("native H4 fallback");
    assert_eq!(recovered.ts, native.ts);
    assert_eq!(recovered.open, native.open);
    assert_eq!(recovered.high, native.high);
    assert_eq!(recovered.low, native.low);
    assert_eq!(recovered.close, native.close);
}

#[test]
fn native_h4_fallback_rejects_a_row_that_disagrees_with_available_h1() {
    let w = Timeframe::H4.boundary_align(1_700_000_000_000);
    let hours = vec![
        h1("TVC:DXY", w + 2 * 3_600_000, 99.45, 99.50, 99.40, 99.43, 1.0),
        h1("TVC:DXY", w + 3 * 3_600_000, 99.43, 99.46, 99.35, 99.39, 1.0),
    ];
    let bad_native = bar("TVC:DXY", Timeframe::H4, w, 99.49, 99.48, 99.35, 99.38, 4.0);
    let now = next_window_boundary(Timeframe::H4, w);
    assert!(aggregate_h4_with_native_fallback(&hours, &[bad_native], "TVC:DXY", now).is_empty());
}

#[test]
fn repeated_live_minute_replaces_volume_instead_of_accumulating_ticks() {
    let mut agg = SymbolAggregator::new("OANDA:EURUSD");
    let start = Timeframe::M5.boundary_align(1_700_000_000_000);
    let mut tick = bar("OANDA:EURUSD", Timeframe::M1, start, 1.0, 1.1, 0.9, 1.05, 10.0);
    let _ = agg.on_m1_event(&BarEvent::BarUpdate(tick.clone()));
    tick.close = px(1.08);
    tick.high = px(1.12);
    tick.volume = vol(12.0);
    let _ = agg.on_m1_event(&BarEvent::BarUpdate(tick.clone()));
    let _ = agg.on_m1_event(&BarEvent::BarClosed(tick));

    let rolling = agg.current(Timeframe::M5).expect("rolling 5m");
    assert_eq!(rolling.volume, vol(12.0));
    assert_eq!(rolling.close, px(1.08));
    assert_eq!(rolling.high, px(1.12));
}

#[test]
fn unsorted_input_is_sorted_defensively() {
    let w = Timeframe::H4.boundary_align(1_700_000_000_000);
    let bars = vec![
        h1("DXY", w + 7_200_000, 100.8, 101.2, 100.7, 101.0, 8.0),
        h1("DXY", w, 100.0, 100.5, 99.8, 100.2, 10.0),
        h1("DXY", w + 10_800_000, 101.0, 101.1, 100.9, 100.95, 9.0),
        h1("DXY", w + 3_600_000, 100.2, 101.0, 100.1, 100.8, 12.0),
    ];
    let now = w + 4 * 3_600_000;
    let out = aggregate_h4_from_h1(&bars, "DXY", now);
    assert_eq!(out.len(), 1);
    assert_eq!(out[0].open, px(100.0));
    assert_eq!(out[0].close, px(100.95));
}

#[test]
fn crypto_pair_is_not_classified_as_weekday_only_forex() {
    assert!(!is_forex_like("COINBASE:BTCUSD"));
    assert!(is_forex_like("OANDA:EURUSD"));
    assert!(is_forex_like("TVC:DXY"));
}

#[test]
fn fx_full_holidays_are_not_expected_but_adjacent_business_days_are() {
    let christmas = Utc
        .with_ymd_and_hms(2025, 12, 25, 17, 0, 0)
        .single()
        .unwrap()
        .timestamp_millis();
    let new_year = Utc
        .with_ymd_and_hms(2026, 1, 1, 17, 0, 0)
        .single()
        .unwrap()
        .timestamp_millis();
    let christmas_eve = Utc
        .with_ymd_and_hms(2025, 12, 24, 17, 0, 0)
        .single()
        .unwrap()
        .timestamp_millis();

    assert!(!market_is_open("OANDA:EURUSD", christmas));
    assert!(!market_is_open("TVC:DXY", new_year));
    assert!(market_is_open("OANDA:EURUSD", christmas_eve));
    assert!(market_is_open("COINBASE:BTCUSD", christmas));
}

#[test]
fn h4_windows_follow_new_york_time_across_clock_changes() {
    // 2025-07-15 16:30 UTC is 12:30 in New York, inside the 11:00 window.
    let summer = 1_752_597_000_000;
    assert_eq!(Timeframe::H4.boundary_align(summer), 1_752_591_600_000);
    // 2025-01-15 16:30 UTC is 11:30 in New York, inside the 11:00 window.
    let winter = 1_736_958_600_000;
    assert_eq!(Timeframe::H4.boundary_align(winter), 1_736_956_800_000);
    // Daily candles open at midnight in New York.
    assert_eq!(Timeframe::D1.boundary_align(winter), 1_736_917_200_000);
    assert_eq!(
        next_window_boundary(Timeframe::D1, 1_736_917_200_000),
        1_737_003_600_000
    );
}

#[test]
fn five_minutes_complete_one_candle_and_a_gap_publishes_none() {
    let start = Timeframe::M5.boundary_align(1_700_000_000_000);
    let mut agg = SymbolAggregator::new("OANDA:EURUSD");
    let mut closed = Vec::new();
    for i in 0..6 {
        let m = bar("OANDA:EURUSD", Timeframe::M1, start + i * 60_000, 1.0, 1.2, 0.8, 1.1, 2.0);
        for event in agg.warm_start_with_closed(&m) {
            if let BarEvent::BarClosed(b) = event {
                closed.push(b);
            }
        }
    }
    let m5: Vec<&Bar> = closed.iter().filter(|b| b.tf == Timeframe::M5).collect();
    assert_eq!(m5.len(), 1);
    assert_eq!(m5[0].ts, start);
    assert_eq!(m5[0].volume, vol(10.0));

    let mut sparse = SymbolAggregator::new("OANDA:EURUSD");
    let mut published = 0;
    for i in [0, 1, 3, 4, 5] {
        let m = bar("OANDA:EURUSD", Timeframe::M1, start + i * 60_000, 1.0, 1.2, 0.8, 1.1, 2.0);
        for event in sparse.warm_start_with_closed(&m) {
            if matches!(event, BarEvent::BarClosed(b) if b.tf == Timeframe::M5) {
                published += 1;
            }
        }
    }
    assert_eq!(published, 0);
}

#[test]
fn a_settled_minute_changes_nothing() {
    let start = Timeframe::M5.boundary_align(1_700_000_000_000);
    let mut agg = SymbolAggregator::new("OANDA:EURUSD");
    let m = bar("OANDA:EURUSD", Timeframe::M1, start, 1.0, 1.2, 0.8, 1.1, 2.0);
    agg.warm_start_with_closed(&m);
    let mut again = m.clone();
    again.close = px(9.0);
    assert!(agg.on_m1_event(&BarEvent::BarUpdate(again)).is_empty());
    assert_eq!(agg.current(Timeframe::M5).unwrap().close, px(1.1));
    assert!(agg.history(Timeframe::M5).is_empty());
    assert_eq!(agg.symbol(), "OANDA:EURUSD");
}

#[test]
fn tags_read_back_and_unknown_tags_do_not() {
    for tf in [
        Timeframe::M1,
        Timeframe::M5,
        Timeframe::M15,
        Timeframe::M30,
        Timeframe::H1,
        Timeframe::H4,
        Timeframe::D1,
        Timeframe::W1,
        Timeframe::MN1,
    ] {
        assert_eq!(Timeframe::from_tag(tf.tag()), Some(tf));
    }
    assert_eq!(Timeframe::from_tag("7m"), None);
    assert_eq!(Timeframe::H4.duration_ms(), 14_400_000);
    assert_eq!(Timeframe::higher_than_m1().len(), 8);
}

#[test]
fn friday_evening_and_holidays_are_closed() {
    // Months count from one, days of the week from Sunday.
    assert!(within_fx_hours(7, 15, 1, 12));
    assert!(!within_fx_hours(12, 25, 3, 12));
    assert!(!within_fx_hours(1, 1, 3, 12));
    // 2026-07-17 is a Friday: the market closes at 21:00 UTC.
    let friday = 1_784_307_600_000;
    assert!(market_is_open("OANDA:EURUSD", friday));
    assert!(market_is_open("OANDA:EURUSD", friday + 3 * 3_600_000));
    assert!(!market_is_open("OANDA:EURUSD", friday + 4 * 3_600_000));
    assert_eq!(
        expected_market_bar_opens(
            "OANDA:EURUSD",
            Timeframe::H1,
            friday,
            friday + 4 * 3_600_000
        )
        .len(),
        4
    );
    assert!(is_on_clock(friday));
    assert!(!is_on_clock(i64::MAX));
}

#[test]
fn prices_match_within_a_billionth() {
    assert!(prices_match(px(100.0), px(100.0) + 100));
    assert!(!prices_match(px(100.0), px(100.0) + 101));
    assert!(prices_match(1, 2));
    assert!(!prices_match(1, 3));
}

#[test]
fn large_volumes_add_up_exactly() {
    let large = 9_000_000_000_000_000_000_i128;
    let w = Timeframe::H4.boundary_align(1_700_000_000_000);
    let mut hours: Vec<Bar> = (0..4)
        .map(|i| h1("DXY", w + i * 3_600_000, 100.0, 100.5, 99.8, 100.2, 0.0))
        .collect();
    for hour in hours.iter_mut() {
        hour.volume = large;
    }
    let out = aggregate_h4_from_h1(&hours, "DXY", w + 4 * 3_600_000);
    assert_eq!(out[0].volume, 4 * large);

    let mut agg = SymbolAggregator::new("OANDA:EURUSD");
    let start = Timeframe::M5.boundary_align(1_700_000_000_000);
    for i in 0..3 {
        let mut minute = bar("OANDA:EURUSD", Timeframe::M1, start + i * 60_000, 1.0, 1.1, 0.9, 1.05, 0.0);
        minute.volume = large;
        let _ = agg.on_m1_event(&BarEvent::BarClosed(minute));
    }
    assert_eq!(agg.current(Timeframe::M5).unwrap().volume, 3 * large);
}
