//! Stored candle history: where it has holes, when it has to be fetched again,
//! and how it is repaired.
use vstd::prelude::*;
use crate::aggregator::{
    acceptable_minute, batch_closed, close_events, far_from_limits, fresh, AggregatorModel,
    SymbolAggregator,
};
use crate::calendar::{
    aligned, expected_market_bar_opens, expected_opens, is_pair_shaped, next_boundary,
    next_window_boundary, on_clock, on_utc_grid, pair_shaped, CLOCK_MARGIN_MS,
};
use crate::h4::{
    aggregate_h4_with_native_fallback, canonical_rows, complete, first_usable, native_usable,
    opens_at, rightly_there, summable, timed,
};
use crate::h4_laws::lemma_ascending_lists_are_equal;
use crate::sorting::{sorted_by, stable_sort};
use crate::text::{begins_with, chars_of, decimal, owned, push_decimal, starts_with, text_eq};
use crate::types::{
    clamped, duration, saturating_difference, saturating_sum, Bar, BarEvent, BarEventModel,
    BarModel, Timeframe,
};

verus! {

/// Longest pause that a market session can explain.
pub const MAX_HISTORY_GAP_MS: i64 = 432_000_000;

/// Oldest that the newest candle may be.
pub const MAX_HISTORY_STALENESS_MS: i64 = 604_800_000;

/// How many candles divergences are replayed from.
pub const SMT_SOURCE_HISTORY_LIMIT: i64 = 1_500;

/// Fewest candles that divergences can be replayed from.
pub const SMT_SOURCE_MIN_BARS: usize = 1_100;

/// Fewest four-hour candles that a replay needs.
pub const H4_REPLAY_MIN_BARS: usize = 64;

/// Pause after a successful audit of the history.
pub const RECONNECT_PREFLIGHT_SUCCESS_COOLDOWN_MS: i64 = 60_000;

/// Pause between two audits.
pub const RECONNECT_PREFLIGHT_RETRY_COOLDOWN_MS: i64 = 15_000;

/// How often an audit is tried.
pub const RECONNECT_PREFLIGHT_MAX_ATTEMPTS: usize = 3;

/// A timestamp within a hundred million years of the epoch.
pub open spec fn modest(ts: int) -> bool {
    -0x3fff_ffff_ffff_ffff <= ts <= 0x3fff_ffff_ffff_ffff
}

/// Every candle has such a timestamp.
pub open spec fn dated(bars: Seq<BarModel>) -> bool {
    forall|i: int| 0 <= i < bars.len() ==> modest((#[trigger] bars[i]).ts as int)
}

/// The candle's period is over.
pub open spec fn is_over(bar: BarModel, now: int) -> bool {
    next_boundary(bar.tf, aligned(bar.tf, bar.ts as int)) <= now
}

/// The candles whose period is over, in the given order.
pub open spec fn over(bars: Seq<BarModel>, now: int) -> Seq<BarModel>
    decreases bars.len(),
{
    if bars.len() == 0 {
        Seq::empty()
    } else if is_over(bars.last(), now) {
        over(bars.drop_last(), now).push(bars.last())
    } else {
        over(bars.drop_last(), now)
    }
}

/// Candles are sorted by time.
pub open spec fn by_time() -> spec_fn(BarModel, BarModel) -> bool {
    |a: BarModel, b: BarModel| a.ts < b.ts
}

/// The candles that are final, oldest first.
pub fn finalized_history_bars(bars: &[Bar], now_ms: i64) -> (r: Vec<Bar>)
    requires
        dated(bars.deep_view()),
    ensures
        r.deep_view() == sorted_by(over(bars.deep_view(), now_ms as int), by_time()),
{
    let mut out: Vec<Bar> = Vec::new();
    let mut i: usize = 0;
    assert(out.deep_view() =~= Seq::<BarModel>::empty());
    while i < bars.len()
        invariant
            i <= bars.len(),
            dated(bars.deep_view()),
            out.deep_view() == over(bars.deep_view().take(i as int), now_ms as int),
        decreases bars.len() - i,
    {
        let ghost before = out.deep_view();
        proof {
            let now = bars.deep_view().take(i + 1);
            assert(now.drop_last() =~= bars.deep_view().take(i as int));
            assert(now.last() == bars@[i as int]@);
            assert(modest(bars.deep_view()[i as int].ts as int));
        }
        let window: i64 = bars[i].tf.boundary_align(bars[i].ts);
        if next_window_boundary(bars[i].tf, window) <= now_ms {
            out.push(bars[i].clone());
            assert(out.deep_view() =~= before.push(bars@[i as int]@));
        }
        i += 1;
    }
    assert(bars.deep_view().take(i as int) =~= bars.deep_view());
    let comes_before = |a: &Bar, b: &Bar| -> (r: bool)
        ensures
            r == (a@.ts < b@.ts),
        { a.ts < b.ts };
    stable_sort(out, comes_before, Ghost(by_time()))
}

/// The pause behind a candle is too long for a market session.
pub open spec fn wide_gap_after(bars: Seq<BarModel>, i: int) -> bool {
    clamped(bars[i + 1].ts - bars[i].ts) > MAX_HISTORY_GAP_MS
}

/// Some pause is too long for a market session.
pub open spec fn has_wide_gap(bars: Seq<BarModel>) -> bool {
    exists|i: int| 0 <= i < bars.len() - 1 && #[trigger] wide_gap_after(bars, i)
}

/// Whether some pause is too long for a market session.
pub fn bars_have_large_gap(bars: &[Bar]) -> (r: bool)
    ensures
        r == has_wide_gap(bars.deep_view()),
{
    let mut i: usize = 1;
    while i < bars.len()
        invariant
            1 <= i,
            bars.len() > 0 ==> i <= bars.len(),
            forall|k: int| 0 <= k < i - 1 && k < bars.len() - 1 ==> !#[trigger] wide_gap_after(
                bars.deep_view(),
                k,
            ),
        decreases bars.len() - i,
    {
        assert(bars.deep_view()[i as int] == bars@[i as int]@);
        assert(bars.deep_view()[i - 1] == bars@[i - 1]@);
        if saturating_difference(bars[i].ts, bars[i - 1].ts) > MAX_HISTORY_GAP_MS {
            assert(wide_gap_after(bars.deep_view(), i - 1));
            return true;
        }
        assert(!wide_gap_after(bars.deep_view(), i - 1));
        i += 1;
    }
    false
}

/// A candle of a fixed period is missing between two neighbours.
pub open spec fn fixed_gap(a: BarModel, b: BarModel) -> bool {
    if a.symbol != b.symbol || a.tf != b.tf {
        true
    } else if clamped(b.ts - a.ts) <= duration(a.tf) {
        false
    } else {
        expected_opens(a.symbol, a.tf, clamped(a.ts + duration(a.tf)), b.ts as int).len() > 0
    }
}

/// A candle of a fixed period is missing behind a candle.
pub open spec fn fixed_gap_after(bars: Seq<BarModel>, i: int) -> bool {
    fixed_gap(bars[i], bars[i + 1])
}

/// A candle of a fixed period is missing.
pub open spec fn has_fixed_gap(bars: Seq<BarModel>) -> bool {
    exists|i: int| 0 <= i < bars.len() - 1 && #[trigger] fixed_gap_after(bars, i)
}

fn is_fixed_gap(a: &Bar, b: &Bar) -> (r: bool)
    requires
        modest(a.ts as int),
        modest(b.ts as int),
    ensures
        r == fixed_gap(a@, b@),
{
    if !text_eq(a.symbol.as_str(), b.symbol.as_str()) || a.tf != b.tf {
        return true;
    }
    let step: i64 = a.tf.duration_ms();
    if saturating_difference(b.ts, a.ts) <= step {
        return false;
    }
    let start: i64 = saturating_sum(a.ts, step);
    let opens = expected_market_bar_opens(a.symbol.as_str(), a.tf, start, b.ts);
    opens.len() > 0
}

/// Whether a candle is missing inside a history of a fixed period. Hours in
/// which the market is closed are no gap.
pub fn bars_have_unexpected_intraday_gap(bars: &[Bar]) -> (r: bool)
    requires
        dated(bars.deep_view()),
    ensures
        r == has_fixed_gap(bars.deep_view()),
{
    let mut i: usize = 1;
    while i < bars.len()
        invariant
            1 <= i,
            bars.len() > 0 ==> i <= bars.len(),
            dated(bars.deep_view()),
            forall|k: int| 0 <= k < i - 1 && k < bars.len() - 1 ==> !#[trigger] fixed_gap_after(
                bars.deep_view(),
                k,
            ),
        decreases bars.len() - i,
    {
        assert(bars.deep_view()[i as int] == bars@[i as int]@);
        assert(bars.deep_view()[i - 1] == bars@[i - 1]@);
        if is_fixed_gap(&bars[i - 1], &bars[i]) {
            assert(fixed_gap_after(bars.deep_view(), i - 1));
            return true;
        }
        assert(!fixed_gap_after(bars.deep_view(), i - 1));
        i += 1;
    }
    false
}

/// Whether a period is fixed and shorter than a day.
pub fn is_fixed_intraday(tf: Timeframe) -> (r: bool)
    ensures
        r == on_utc_grid(tf),
{
    matches!(
        tf,
        Timeframe::M1 | Timeframe::M5 | Timeframe::M15 | Timeframe::M30 | Timeframe::H1
    )
}

/// The market is open at some time of a calendar window, counted in hours
/// because clock changes make some windows shorter or longer.
pub open spec fn window_trades(symbol: Seq<char>, tf: Timeframe, window: int) -> bool {
    expected_opens(symbol, Timeframe::H1, window, next_boundary(tf, window)).len() > 0
}

/// Whether a calendar window holds any time at which the market is open.
pub fn calendar_window_expects_bar(symbol: &str, tf: Timeframe, window: i64) -> (r: bool)
    requires
        on_clock(window as int),
        on_clock(window + CLOCK_MARGIN_MS),
    ensures
        r == window_trades(symbol@, tf, window as int),
{
    let end: i64 = next_window_boundary(tf, window);
    expected_market_bar_opens(symbol, Timeframe::H1, window, end).len() > 0
}

/// A candle is expected in a window.
pub open spec fn expects_bar(symbol: Seq<char>, tf: Timeframe, window: int) -> bool {
    if on_utc_grid(tf) {
        expected_opens(symbol, tf, window, next_boundary(tf, window)).len() > 0
    } else {
        window_trades(symbol, tf, window)
    }
}

fn is_bar_expected(symbol: &str, tf: Timeframe, window: i64) -> (r: bool)
    requires
        on_clock(window as int),
        on_clock(window + CLOCK_MARGIN_MS),
    ensures
        r == expects_bar(symbol@, tf, window as int),
{
    if is_fixed_intraday(tf) {
        let end: i64 = next_window_boundary(tf, window);
        expected_market_bar_opens(symbol, tf, window, end).len() > 0
    } else {
        calendar_window_expects_bar(symbol, tf, window)
    }
}

/// A candle is expected in one of the windows from `window` up to `end`; a
/// window that is not followed by a later one counts as damage.
pub open spec fn missing_between(symbol: Seq<char>, tf: Timeframe, window: int, end: int) -> bool
    decreases
            if window < end {
                end - window
            } else {
                0
            },
{
    if window >= end {
        false
    } else if expects_bar(symbol, tf, window) {
        true
    } else if next_boundary(tf, window) <= window {
        true
    } else {
        missing_between(symbol, tf, next_boundary(tf, window), end)
    }
}

fn is_missing_between(symbol: &str, tf: Timeframe, from: i64, end: i64) -> (r: bool)
    requires
        far_from_limits(from as int),
        far_from_limits(end as int),
    ensures
        r == missing_between(symbol@, tf, from as int, end as int),
{
    let mut window: i64 = from;
    let ghost goal = missing_between(symbol@, tf, from as int, end as int);
    while window < end
        invariant
            from <= window,
            far_from_limits(from as int),
            far_from_limits(end as int),
            goal == missing_between(symbol@, tf, from as int, end as int),
            goal == missing_between(symbol@, tf, window as int, end as int),
        decreases
            if window < end {
                end - window
            } else {
                0
            },
    {
        if is_bar_expected(symbol, tf, window) {
            return true;
        }
        let following: i64 = next_window_boundary(tf, window);
        if following <= window {
            return true;
        }
        window = following;
    }
    false
}

/// A calendar candle is missing between two neighbours, or one of them is off
/// the grid.
pub open spec fn calendar_gap(a: BarModel, b: BarModel) -> bool {
    if a.symbol != b.symbol || a.tf != b.tf {
        true
    } else {
        let first = aligned(a.tf, a.ts as int);
        let second = aligned(b.tf, b.ts as int);
        if a.ts != first || b.ts != second || second <= first {
            true
        } else {
            missing_between(a.symbol, a.tf, next_boundary(a.tf, first), second)
        }
    }
}

/// A calendar candle is missing behind a candle.
pub open spec fn calendar_gap_after(bars: Seq<BarModel>, i: int) -> bool {
    calendar_gap(bars[i], bars[i + 1])
}

/// A candle is missing inside a history of any period.
pub open spec fn has_market_gap(bars: Seq<BarModel>) -> bool {
    if bars.len() == 0 {
        false
    } else if on_utc_grid(bars[0].tf) {
        has_fixed_gap(bars)
    } else {
        exists|i: int| 0 <= i < bars.len() - 1 && #[trigger] calendar_gap_after(bars, i)
    }
}

fn is_calendar_gap(a: &Bar, b: &Bar) -> (r: bool)
    requires
        modest(a.ts as int),
        modest(b.ts as int),
    ensures
        r == calendar_gap(a@, b@),
{
    if !text_eq(a.symbol.as_str(), b.symbol.as_str()) || a.tf != b.tf {
        return true;
    }
    let first: i64 = a.tf.boundary_align(a.ts);
    let second: i64 = b.tf.boundary_align(b.ts);
    if a.ts != first || b.ts != second || second <= first {
        return true;
    }
    let next: i64 = next_window_boundary(a.tf, first);
    is_missing_between(a.symbol.as_str(), a.tf, next, second)
}

/// Whether a candle is missing inside a history of any period. Calendar
/// periods follow New York time, so clock changes and closed weekends are no
/// gap, while rows off the grid are.
pub fn bars_have_unexpected_market_gap(bars: &[Bar]) -> (r: bool)
    requires
        dated(bars.deep_view()),
    ensures
        r == has_market_gap(bars.deep_view()),
{
    if bars.len() == 0 {
        return false;
    }
    assert(bars.deep_view()[0] == bars@[0]@);
    if is_fixed_intraday(bars[0].tf) {
        return bars_have_unexpected_intraday_gap(bars);
    }
    let mut i: usize = 1;
    while i < bars.len()
        invariant
            1 <= i,
            bars.len() > 0,
            i <= bars.len(),
            dated(bars.deep_view()),
            !on_utc_grid(bars.deep_view()[0].tf),
            forall|k: int| 0 <= k < i - 1 && k < bars.len() - 1 ==> !#[trigger] calendar_gap_after(
                bars.deep_view(),
                k,
            ),
        decreases bars.len() - i,
    {
        assert(bars.deep_view()[i as int] == bars@[i as int]@);
        assert(bars.deep_view()[i - 1] == bars@[i - 1]@);
        if is_calendar_gap(&bars[i - 1], &bars[i]) {
            assert(calendar_gap_after(bars.deep_view(), i - 1));
            return true;
        }
        assert(!calendar_gap_after(bars.deep_view(), i - 1));
        i += 1;
    }
    false
}

/// The source history of divergences has to be fetched again: it is short,
/// has a gap, or is too old.
pub open spec fn needs_backfill(bars: Seq<BarModel>, minimum: int, now: int) -> bool {
    ||| bars.len() < minimum
    ||| has_wide_gap(bars)
    ||| has_market_gap(bars)
    ||| bars.len() == 0
    ||| clamped(now - bars.last().ts) > MAX_HISTORY_STALENESS_MS
}

/// Whether the source history of divergences has to be fetched again.
pub fn history_needs_backfill(bars: &[Bar], minimum: usize, market_now_ms: i64) -> (r: bool)
    requires
        dated(bars.deep_view()),
    ensures
        r == needs_backfill(bars.deep_view(), minimum as int, market_now_ms as int),
{
    if bars.len() < minimum || bars_have_large_gap(bars) || bars_have_unexpected_market_gap(bars)
        || bars.len() == 0 {
        return true;
    }
    assert(bars.deep_view().last() == bars@[bars.len() - 1]@);
    saturating_difference(market_now_ms, bars[bars.len() - 1].ts) > MAX_HISTORY_STALENESS_MS
}

/// The history of a chart has to be fetched again: it is short, has a gap,
/// ends off the grid, or lacks a candle that is over by now.
pub open spec fn needs_refresh(bars: Seq<BarModel>, minimum: int, now: int) -> bool {
    if bars.len() < minimum || has_market_gap(bars) || bars.len() == 0 {
        true
    } else {
        let last = bars.last();
        let window = aligned(last.tf, last.ts as int);
        last.ts != window || missing_between(
            last.symbol,
            last.tf,
            next_boundary(last.tf, window),
            aligned(last.tf, now),
        )
    }
}

/// Whether the history of a chart has to be fetched again.
pub fn chart_history_needs_provider_refresh(
    bars: &[Bar],
    minimum: usize,
    market_now_ms: i64,
) -> (r: bool)
    requires
        dated(bars.deep_view()),
        modest(market_now_ms as int),
    ensures
        r == needs_refresh(bars.deep_view(), minimum as int, market_now_ms as int),
{
    if bars.len() < minimum || bars_have_unexpected_market_gap(bars) || bars.len() == 0 {
        return true;
    }
    let last = &bars[bars.len() - 1];
    assert(bars.deep_view().last() == last@);
    assert(modest(bars.deep_view()[bars.len() - 1].ts as int));
    let window: i64 = last.tf.boundary_align(last.ts);
    if last.ts != window {
        return true;
    }
    let current: i64 = last.tf.boundary_align(market_now_ms);
    let next: i64 = next_window_boundary(last.tf, window);
    is_missing_between(last.symbol.as_str(), last.tf, next, current)
}

/// Rows of a fixed period can be filled up: they have a gap, or lack the
/// newest candle that is over while the market was open.
pub open spec fn needs_fill(rows: Seq<BarModel>, symbol: Seq<char>, tf: Timeframe, now: int) -> bool {
    let current = aligned(tf, now);
    let latest = clamped(current - duration(tf));
    ||| has_fixed_gap(rows)
    ||| expected_opens(symbol, tf, latest, current).len() > 0 && (rows.len() == 0
        || rows.last().ts < latest)
}

/// Whether rows of a fixed period can be filled up.
pub fn fixed_aggregate_rows_need_fill(
    rows: &[Bar],
    symbol: &str,
    tf: Timeframe,
    market_now_ms: i64,
) -> (r: bool)
    requires
        dated(rows.deep_view()),
        modest(market_now_ms as int),
    ensures
        r == needs_fill(rows.deep_view(), symbol@, tf, market_now_ms as int),
{
    if bars_have_unexpected_intraday_gap(rows) {
        return true;
    }
    let current: i64 = tf.boundary_align(market_now_ms);
    let latest: i64 = saturating_difference(current, tf.duration_ms());
    if expected_market_bar_opens(symbol, tf, latest, current).len() == 0 {
        return false;
    }
    if rows.len() == 0 {
        return true;
    }
    assert(rows.deep_view().last() == rows@[rows.len() - 1]@);
    rows[rows.len() - 1].ts < latest
}

/// The candles that closed among events.
pub open spec fn closed_among(events: Seq<BarEventModel>) -> Seq<BarModel>
    decreases events.len(),
{
    if events.len() == 0 {
        Seq::empty()
    } else {
        match events.last() {
            BarEventModel::BarClosed(bar) => closed_among(events.drop_last()).push(bar),
            _ => closed_among(events.drop_last()),
        }
    }
}

/// Every higher candle that minutes complete in an aggregator, in order.
pub open spec fn closes_of(s: AggregatorModel, minutes: Seq<BarModel>) -> Seq<BarModel>
    decreases minutes.len(),
{
    if minutes.len() == 0 {
        Seq::empty()
    } else {
        closes_of(s, minutes.drop_last()) + closed_among(
            close_events(batch_closed(s, minutes.drop_last()), minutes.last()),
        )
    }
}

/// Every higher candle that a run of minutes completes, in order.
pub open spec fn rebuilt_from(symbol: Seq<char>, minutes: Seq<BarModel>) -> Seq<BarModel> {
    closes_of(fresh(symbol), minutes)
}

/// The minutes can be aggregated.
pub open spec fn usable_minutes(minutes: Seq<BarModel>) -> bool {
    forall|i: int| 0 <= i < minutes.len() ==> acceptable_minute(#[trigger] minutes[i])
}

fn take_closed(events: Vec<BarEvent>, out: &mut Vec<Bar>)
    ensures
        final(out).deep_view() == old(out).deep_view() + closed_among(events.deep_view()),
{
    let mut i: usize = 0;
    let ghost before = out.deep_view();
    assert(before + closed_among(events.deep_view().take(0)) =~= before);
    while i < events.len()
        invariant
            i <= events.len(),
            out.deep_view() == before + closed_among(events.deep_view().take(i as int)),
        decreases events.len() - i,
    {
        let ghost had = out.deep_view();
        proof {
            let now = events.deep_view().take(i + 1);
            assert(now.drop_last() =~= events.deep_view().take(i as int));
            assert(now.last() == events@[i as int]@);
        }
        match &events[i] {
            BarEvent::BarClosed(bar) => {
                out.push(bar.clone());
                assert(out.deep_view() =~= had.push(bar@));
                assert(out.deep_view() =~= before + closed_among(events.deep_view().take(i + 1)));
            },
            _ => {},
        }
        i += 1;
    }
    assert(events.deep_view().take(i as int) =~= events.deep_view());
}

/// Feeds minutes to an aggregator and collects the higher candles that they
/// complete.
pub fn collect_closes(
    aggregator: &mut SymbolAggregator,
    minutes: &Vec<Bar>,
    from: usize,
    to: usize,
) -> (r: Vec<Bar>)
    requires
        old(aggregator)@.wf(),
        usable_minutes(minutes.deep_view()),
        from <= to <= minutes.len(),
    ensures
        ({
            let span = minutes.deep_view().subrange(from as int, to as int);
            &&& final(aggregator)@ == batch_closed(old(aggregator)@, span)
            &&& r.deep_view() == closes_of(old(aggregator)@, span)
        }),
        final(aggregator)@.wf(),
{
    let mut out: Vec<Bar> = Vec::new();
    let mut i: usize = from;
    let ghost span = minutes.deep_view().subrange(from as int, to as int);
    let ghost s0 = aggregator@;
    assert(out.deep_view() =~= Seq::<BarModel>::empty());
    assert(span.take(0) =~= Seq::<BarModel>::empty());
    while i < to
        invariant
            from <= i <= to <= minutes.len(),
            usable_minutes(minutes.deep_view()),
            span == minutes.deep_view().subrange(from as int, to as int),
            aggregator@.wf(),
            s0 == old(aggregator)@,
            aggregator@ == batch_closed(s0, span.take(i - from)),
            out.deep_view() == closes_of(s0, span.take(i - from)),
        decreases to - i,
    {
        proof {
            let now = span.take(i - from + 1);
            assert(now.drop_last() =~= span.take(i - from));
            assert(now.last() == minutes@[i as int]@);
            assert(acceptable_minute(minutes.deep_view()[i as int]));
        }
        let events = aggregator.warm_start_with_closed(&minutes[i]);
        take_closed(events, &mut out);
        i += 1;
    }
    assert(span.take(to - from) =~= span);
    out
}

fn rebuild(symbol: &str, minutes: &Vec<Bar>, from: usize, to: usize) -> (r: Vec<Bar>)
    requires
        usable_minutes(minutes.deep_view()),
        from <= to <= minutes.len(),
    ensures
        r.deep_view() == rebuilt_from(
            symbol@,
            minutes.deep_view().subrange(from as int, to as int),
        ),
{
    let mut aggregator = SymbolAggregator::new(symbol);
    collect_closes(&mut aggregator, minutes, from, to)
}

/// The candles of one period.
pub open spec fn of_period(bars: Seq<BarModel>, tf: Timeframe) -> Seq<BarModel>
    decreases bars.len(),
{
    if bars.len() == 0 {
        Seq::empty()
    } else if bars.last().tf == tf {
        of_period(bars.drop_last(), tf).push(bars.last())
    } else {
        of_period(bars.drop_last(), tf)
    }
}

fn select_period(bars: &Vec<Bar>, tf: Timeframe) -> (r: Vec<Bar>)
    ensures
        r.deep_view() == of_period(bars.deep_view(), tf),
{
    let mut out: Vec<Bar> = Vec::new();
    let mut i: usize = 0;
    assert(out.deep_view() =~= Seq::<BarModel>::empty());
    while i < bars.len()
        invariant
            i <= bars.len(),
            out.deep_view() == of_period(bars.deep_view().take(i as int), tf),
        decreases bars.len() - i,
    {
        let ghost before = out.deep_view();
        proof {
            let now = bars.deep_view().take(i + 1);
            assert(now.drop_last() =~= bars.deep_view().take(i as int));
            assert(now.last() == bars@[i as int]@);
        }
        if bars[i].tf == tf {
            out.push(bars[i].clone());
            assert(out.deep_view() =~= before.push(bars@[i as int]@));
        }
        i += 1;
    }
    assert(bars.deep_view().take(i as int) =~= bars.deep_view());
    out
}

/// Stored candles of one period that are replaced, from one opening time to
/// another.
#[derive(Debug)]
pub struct Replacement {
    pub tf: Timeframe,
    pub from: i64,
    pub to: i64,
    pub rows: Vec<Bar>,
}

/// Mathematical content of a [`Replacement`].
pub struct ReplacementModel {
    pub tf: Timeframe,
    pub from: i64,
    pub to: i64,
    pub rows: Seq<BarModel>,
}

impl View for Replacement {
    type V = ReplacementModel;

    open spec fn view(&self) -> ReplacementModel {
        ReplacementModel { tf: self.tf, from: self.from, to: self.to, rows: self.rows.deep_view() }
    }
}

impl DeepView for Replacement {
    type V = ReplacementModel;

    open spec fn deep_view(&self) -> ReplacementModel {
        self@
    }
}

/// The replacement that rebuilt candles call for: it covers them and no more,
/// so that stored candles outside survive. Without candles there is none.
pub open spec fn replacing(tf: Timeframe, rows: Seq<BarModel>) -> Seq<ReplacementModel> {
    if rows.len() == 0 {
        Seq::empty()
    } else {
        seq![ReplacementModel { tf, from: rows[0].ts, to: rows.last().ts, rows }]
    }
}

/// The replacements for one run of minutes.
pub open spec fn replacements_for(symbol: Seq<char>, span: Seq<BarModel>) -> Seq<ReplacementModel> {
    let bars = rebuilt_from(symbol, span);
    replacing(Timeframe::M5, of_period(bars, Timeframe::M5)) + replacing(
        Timeframe::M15,
        of_period(bars, Timeframe::M15),
    ) + replacing(Timeframe::M30, of_period(bars, Timeframe::M30)) + replacing(
        Timeframe::H1,
        of_period(bars, Timeframe::H1),
    ) + replacing(Timeframe::H4, of_period(bars, Timeframe::H4))
}

/// Where the last unbroken run of minutes starts.
pub open spec fn span_start(minutes: Seq<BarModel>) -> int
    decreases minutes.len(),
{
    if minutes.len() <= 1 {
        0
    } else if wide_gap_after(minutes, minutes.len() - 2) {
        minutes.len() - 1
    } else {
        span_start(minutes.drop_last())
    }
}

/// The replacements for every unbroken run of minutes but the last.
pub open spec fn earlier_replacements(symbol: Seq<char>, minutes: Seq<BarModel>) -> Seq<
    ReplacementModel,
>
    decreases minutes.len(),
{
    if minutes.len() <= 1 {
        Seq::empty()
    } else {
        let rest = minutes.drop_last();
        if wide_gap_after(minutes, minutes.len() - 2) {
            earlier_replacements(symbol, rest) + replacements_for(
                symbol,
                rest.skip(span_start(rest)),
            )
        } else {
            earlier_replacements(symbol, rest)
        }
    }
}

/// The replacements that stored minutes call for: one set per unbroken run,
/// so that a hole in the minutes never deletes what a provider delivered for
/// it.
pub open spec fn repairs_of(symbol: Seq<char>, minutes: Seq<BarModel>) -> Seq<ReplacementModel> {
    if minutes.len() == 0 {
        Seq::empty()
    } else {
        earlier_replacements(symbol, minutes) + replacements_for(
            symbol,
            minutes.skip(span_start(minutes)),
        )
    }
}

fn push_replacement(out: &mut Vec<Replacement>, bars: &Vec<Bar>, tf: Timeframe)
    ensures
        final(out).deep_view() == old(out).deep_view() + replacing(
            tf,
            of_period(bars.deep_view(), tf),
        ),
{
    let rows = select_period(bars, tf);
    let ghost before = out.deep_view();
    if rows.len() > 0 {
        let from: i64 = rows[0].ts;
        let to: i64 = rows[rows.len() - 1].ts;
        let ghost list = rows.deep_view();
        assert(list[0] == rows@[0]@);
        assert(list.last() == rows@[rows.len() - 1]@);
        let x = Replacement { tf, from, to, rows };
        let ghost m = x@;
        out.push(x);
        assert(out.deep_view() =~= before.push(m));
        assert(out.deep_view() =~= before + replacing(tf, list));
    } else {
        assert(rows.deep_view().len() == 0);
        assert(out.deep_view() =~= before + replacing(tf, rows.deep_view()));
    }
}

fn push_replacements(
    out: &mut Vec<Replacement>,
    symbol: &str,
    minutes: &Vec<Bar>,
    from: usize,
    to: usize,
)
    requires
        usable_minutes(minutes.deep_view()),
        from <= to <= minutes.len(),
    ensures
        final(out).deep_view() == old(out).deep_view() + replacements_for(
            symbol@,
            minutes.deep_view().subrange(from as int, to as int),
        ),
{
    let ghost before = out.deep_view();
    let bars = rebuild(symbol, minutes, from, to);
    push_replacement(out, &bars, Timeframe::M5);
    push_replacement(out, &bars, Timeframe::M15);
    push_replacement(out, &bars, Timeframe::M30);
    push_replacement(out, &bars, Timeframe::H1);
    push_replacement(out, &bars, Timeframe::H4);
    assert(out.deep_view() =~= before + replacements_for(
        symbol@,
        minutes.deep_view().subrange(from as int, to as int),
    ));
}

/// Plans how stored higher candles are rebuilt from stored minutes.
pub fn repair_recent_aggregates(minutes: &Vec<Bar>, symbol: &str) -> (r: Vec<Replacement>)
    requires
        usable_minutes(minutes.deep_view()),
    ensures
        r.deep_view() == repairs_of(symbol@, minutes.deep_view()),
{
    let mut out: Vec<Replacement> = Vec::new();
    assert(out.deep_view() =~= Seq::<ReplacementModel>::empty());
    if minutes.len() == 0 {
        return out;
    }
    let ghost all = minutes.deep_view();
    let mut start: usize = 0;
    let mut i: usize = 1;
    assert(all.take(1).len() == 1);
    while i < minutes.len()
        invariant
            1 <= i <= minutes.len(),
            start < i,
            all == minutes.deep_view(),
            usable_minutes(all),
            start == span_start(all.take(i as int)),
            out.deep_view() == earlier_replacements(symbol@, all.take(i as int)),
        decreases minutes.len() - i,
    {
        let ghost now = all.take(i + 1);
        proof {
            assert(now.drop_last() =~= all.take(i as int));
            assert(now[i as int] == minutes@[i as int]@);
            assert(now[i - 1] == minutes@[i - 1]@);
        }
        if saturating_difference(minutes[i].ts, minutes[i - 1].ts) > MAX_HISTORY_GAP_MS {
            assert(wide_gap_after(now, now.len() - 2));
            assert(all.take(i as int).skip(start as int) =~= all.subrange(start as int, i as int));
            push_replacements(&mut out, symbol, minutes, start, i);
            start = i;
        } else {
            assert(!wide_gap_after(now, now.len() - 2));
        }
        i += 1;
    }
    assert(all.take(i as int) =~= all);
    assert(all.skip(start as int) =~= all.subrange(start as int, i as int));
    push_replacements(&mut out, symbol, minutes, start, minutes.len());
    out
}

/// The candles of the fixed periods above one minute.
pub open spec fn fixed_periods(bars: Seq<BarModel>) -> Seq<BarModel>
    decreases bars.len(),
{
    if bars.len() == 0 {
        Seq::empty()
    } else {
        let b = bars.last();
        if b.tf is M5 || b.tf is M15 || b.tf is M30 || b.tf is H1 {
            fixed_periods(bars.drop_last()).push(b)
        } else {
            fixed_periods(bars.drop_last())
        }
    }
}

/// The candles of fixed periods that stored minutes complete. They are added
/// where they are missing and replace nothing.
pub fn fill_missing_recent_aggregates(minutes: &Vec<Bar>, symbol: &str) -> (r: Vec<Bar>)
    requires
        usable_minutes(minutes.deep_view()),
    ensures
        r.deep_view() == fixed_periods(rebuilt_from(symbol@, minutes.deep_view())),
{
    let bars = rebuild(symbol, minutes, 0, minutes.len());
    assert(minutes.deep_view().subrange(0, minutes.len() as int) =~= minutes.deep_view());
    let mut out: Vec<Bar> = Vec::new();
    let mut i: usize = 0;
    assert(out.deep_view() =~= Seq::<BarModel>::empty());
    while i < bars.len()
        invariant
            i <= bars.len(),
            out.deep_view() == fixed_periods(bars.deep_view().take(i as int)),
        decreases bars.len() - i,
    {
        let ghost before = out.deep_view();
        proof {
            let now = bars.deep_view().take(i + 1);
            assert(now.drop_last() =~= bars.deep_view().take(i as int));
            assert(now.last() == bars@[i as int]@);
        }
        if matches!(bars[i].tf, Timeframe::M5 | Timeframe::M15 | Timeframe::M30 | Timeframe::H1) {
            out.push(bars[i].clone());
            assert(out.deep_view() =~= before.push(bars@[i as int]@));
        }
        i += 1;
    }
    assert(bars.deep_view().take(i as int) =~= bars.deep_view());
    out
}

/// The upper-case form of a text.
pub uninterp spec fn upper_of(text: Seq<char>) -> Seq<char>;

/// Changes a text to upper case with `str::to_uppercase`. Claimed of it: the
/// result is a function of the text.
#[verifier::external_body]
fn upper(text: &str) -> (r: String)
    ensures
        r@ == upper_of(text@),
{
    text.to_uppercase()
}

/// The text holds another.
pub open spec fn holds_text(s: Seq<char>, part: Seq<char>) -> bool {
    exists|i: int| 0 <= i && begins_with(#[trigger] s.skip(i), part) && i <= s.len()
}

/// An upper-case name is that of a currency pair or of the dollar index.
pub open spec fn forex_name(s: Seq<char>) -> bool {
    ||| holds_text(s, "DXY"@)
    ||| pair_shaped(
        if begins_with(s, "OANDA:"@) {
            s.skip("OANDA:"@.len() as int)
        } else {
            s
        },
    )
}

fn holds_index_name(chars: &Vec<char>) -> (r: bool)
    ensures
        r == holds_text(chars@, "DXY"@),
{
    proof {
        reveal_strlit("DXY");
    }
    let mut i: usize = 0;
    while chars.len() >= 3 && i <= chars.len() - 3
        invariant
            i <= chars.len(),
            "DXY"@ =~= seq!['D', 'X', 'Y'],
            forall|k: int| 0 <= k < i ==> !begins_with(#[trigger] chars@.skip(k), "DXY"@),
        decreases chars.len() - i,
    {
        let ghost rest = chars@.skip(i as int);
        assert(rest[0] == chars@[i as int]);
        assert(rest[1] == chars@[i + 1]);
        assert(rest[2] == chars@[i + 2]);
        if chars[i] == 'D' && chars[i + 1] == 'X' && chars[i + 2] == 'Y' {
            assert(rest.take(3) =~= "DXY"@);
            assert(begins_with(chars@.skip(i as int), "DXY"@));
            return true;
        }
        proof {
            if begins_with(rest, "DXY"@) {
                assert(rest.take(3)[0] == rest[0]);
                assert(rest.take(3)[1] == rest[1]);
                assert(rest.take(3)[2] == rest[2]);
            }
        }
        i += 1;
    }
    proof {
        assert forall|k: int| 0 <= k <= chars.len() implies !begins_with(
            #[trigger] chars@.skip(k),
            "DXY"@,
        ) by {
            if k >= i {
                assert(chars@.skip(k).len() < 3);
            }
        }
    }
    false
}

/// Whether an upper-case name is that of a currency pair or of the dollar
/// index.
pub fn is_forex_name(name: &str) -> (r: bool)
    ensures
        r == forex_name(name@),
{
    let chars = chars_of(name);
    if holds_index_name(&chars) {
        return true;
    }
    proof {
        reveal_strlit("OANDA:");
    }
    let from: usize = if starts_with(name, "OANDA:") {
        6
    } else {
        0
    };
    assert(chars@.skip(0) =~= chars@);
    is_pair_shaped(&chars, from)
}

/// Whether an instrument is a currency pair or the dollar index.
pub fn is_forex_symbol(symbol: &str) -> (r: bool)
    ensures
        r == forex_name(upper_of(symbol@)),
{
    is_forex_name(upper(symbol).as_str())
}

/// There are enough one-hour candles without a hole to rewrite four-hour
/// candles from them.
pub open spec fn enough_hours(h1: Seq<BarModel>) -> bool {
    h1.len() >= 4 * H4_REPLAY_MIN_BARS && !has_wide_gap(h1)
}

/// Plans how the four-hour candles of a currency pair are rewritten from its
/// one-hour candles: the covered range alone, and only with enough evidence.
/// `forex` says whether the instrument is a currency pair.
pub fn canonicalize_h4(
    forex: bool,
    symbol: &str,
    h1: &Vec<Bar>,
    native_h4: &Vec<Bar>,
    market_now_ms: i64,
) -> (r: Option<Replacement>)
    requires
        timed(h1.deep_view()),
        timed(native_h4.deep_view()),
        summable(h1.deep_view()),
    ensures
        match r {
            Some(x) => {
                &&& forex
                &&& enough_hours(h1.deep_view())
                &&& canonical_rows(
                    h1.deep_view(),
                    native_h4.deep_view(),
                    symbol@,
                    market_now_ms as int,
                    x@.rows,
                )
                &&& x@.rows.len() >= H4_REPLAY_MIN_BARS
                &&& x@.tf is H4
                &&& x@.from == aligned(Timeframe::H4, h1.deep_view()[0].ts as int)
                &&& x@.to == aligned(Timeframe::H4, h1.deep_view().last().ts as int)
            },
            None => !forex || !enough_hours(h1.deep_view()) || exists|rows: Seq<BarModel>|
                #[trigger] canonical_rows(
                    h1.deep_view(),
                    native_h4.deep_view(),
                    symbol@,
                    market_now_ms as int,
                    rows,
                ) && rows.len() < H4_REPLAY_MIN_BARS,
        },
{
    if !forex || h1.len() < 4 * H4_REPLAY_MIN_BARS || bars_have_large_gap(h1.as_slice()) {
        return None;
    }
    let rows = aggregate_h4_with_native_fallback(
        h1.as_slice(),
        native_h4.as_slice(),
        symbol,
        market_now_ms,
    );
    assert(canonical_rows(
        h1.deep_view(),
        native_h4.deep_view(),
        symbol@,
        market_now_ms as int,
        rows.deep_view(),
    ));
    if rows.len() < H4_REPLAY_MIN_BARS {
        return None;
    }
    assert(h1.deep_view()[0] == h1@[0]@);
    assert(h1.deep_view().last() == h1@[h1.len() - 1]@);
    assert(far_from_limits(h1.deep_view()[0].ts as int));
    assert(far_from_limits(h1.deep_view()[h1.len() - 1].ts as int));
    let from: i64 = Timeframe::H4.boundary_align(h1[0].ts);
    let to: i64 = Timeframe::H4.boundary_align(h1[h1.len() - 1].ts);
    Some(Replacement { tf: Timeframe::H4, from, to, rows })
}

/// Plans how the four-hour candles of an instrument are rewritten.
pub fn canonicalize_forex_h4_from_h1(
    symbol: &str,
    h1: &Vec<Bar>,
    native_h4: &Vec<Bar>,
    market_now_ms: i64,
) -> (r: Option<Replacement>)
    requires
        timed(h1.deep_view()),
        timed(native_h4.deep_view()),
        summable(h1.deep_view()),
    ensures
        !forex_name(upper_of(symbol@)) ==> r is None,
        !enough_hours(h1.deep_view()) ==> r is None,
        r matches Some(x) ==> canonical_rows(
            h1.deep_view(),
            native_h4.deep_view(),
            symbol@,
            market_now_ms as int,
            x@.rows,
        ) && x@.rows.len() >= H4_REPLAY_MIN_BARS && x@.tf is H4 && x@.from == aligned(
            Timeframe::H4,
            h1.deep_view()[0].ts as int,
        ) && x@.to == aligned(Timeframe::H4, h1.deep_view().last().ts as int),
        r is None && forex_name(upper_of(symbol@)) && enough_hours(h1.deep_view())
            ==> exists|rows: Seq<BarModel>|
            #[trigger] canonical_rows(
                h1.deep_view(),
                native_h4.deep_view(),
                symbol@,
                market_now_ms as int,
                rows,
            ) && rows.len() < H4_REPLAY_MIN_BARS,
{
    canonicalize_h4(is_forex_symbol(symbol), symbol, h1, native_h4, market_now_ms)
}

/// Why the four-hour candles of an instrument cannot support a replay.
pub open spec fn coverage_complaint(symbol: Seq<char>, bars: Seq<BarModel>, now: int) -> Option<
    Seq<char>,
> {
    if bars.len() < H4_REPLAY_MIN_BARS {
        Some(symbol + ": 仅 "@ + decimal(bars.len() as int) + " 根 4H，至少需要 64 根"@)
    } else if has_wide_gap(bars) {
        Some(symbol + ": 最近 4H 历史存在超过 5 天的断档"@)
    } else if clamped(now - bars.last().ts) > MAX_HISTORY_STALENESS_MS {
        Some(symbol + ": 最近 4H 已超过 7 天未更新"@)
    } else {
        None
    }
}

/// Says why the four-hour candles of an instrument cannot support a replay.
pub fn coverage_issue(symbol: &str, bars: &Vec<Bar>, market_now_ms: i64) -> (r: Option<
    String,
>)
    ensures
        r.deep_view() == coverage_complaint(symbol@, bars.deep_view(), market_now_ms as int),
{
    if bars.len() < H4_REPLAY_MIN_BARS {
        let mut out = owned(symbol);
        out.append(": 仅 ");
        push_decimal(&mut out, bars.len() as i64);
        out.append(" 根 4H，至少需要 64 根");
        return Some(out);
    }
    if bars_have_large_gap(bars.as_slice()) {
        let mut out = owned(symbol);
        out.append(": 最近 4H 历史存在超过 5 天的断档");
        return Some(out);
    }
    assert(bars.deep_view().last() == bars@[bars.len() - 1]@);
    if saturating_difference(market_now_ms, bars[bars.len() - 1].ts) > MAX_HISTORY_STALENESS_MS {
        let mut out = owned(symbol);
        out.append(": 最近 4H 已超过 7 天未更新");
        return Some(out);
    }
    None
}

/// What reading the four-hour candles of an instrument gave.
pub struct H4Reading {
    pub symbol: String,
    pub bars: Result<Vec<Bar>, String>,
}

/// Why a reading cannot support a replay.
pub open spec fn reading_complaint(reading: H4Reading, now: int) -> Option<Seq<char>> {
    match reading.bars {
        Ok(bars) => coverage_complaint(reading.symbol@, bars.deep_view(), now),
        Err(error) => Some(reading.symbol@ + ": 4H 查询失败: "@ + error@),
    }
}

/// The first complaint about readings.
pub open spec fn first_complaint(readings: Seq<H4Reading>, now: int) -> Option<Seq<char>>
    decreases readings.len(),
{
    if readings.len() == 0 {
        None
    } else {
        match reading_complaint(readings[0], now) {
            Some(text) => Some(text),
            None => first_complaint(readings.drop_first(), now),
        }
    }
}

/// Says why one of several instruments cannot support a replay from four-hour
/// to one-hour candles.
pub fn h4_replay_coverage_issue(readings: &Vec<H4Reading>, market_now_ms: i64) -> (r: Option<
    String,
>)
    ensures
        r.deep_view() == first_complaint(readings@, market_now_ms as int),
{
    let mut i: usize = 0;
    let ghost goal = first_complaint(readings@, market_now_ms as int);
    assert(readings@.skip(0) =~= readings@);
    while i < readings.len()
        invariant
            i <= readings.len(),
            goal == first_complaint(readings@, market_now_ms as int),
            goal == first_complaint(readings@.skip(i as int), market_now_ms as int),
        decreases readings.len() - i,
    {
        proof {
            let rest = readings@.skip(i as int);
            assert(rest[0] == readings@[i as int]);
            assert(rest.drop_first() =~= readings@.skip(i + 1));
        }
        let symbol = readings[i].symbol.as_str();
        match &readings[i].bars {
            Ok(bars) => {
                let issue = coverage_issue(symbol, bars, market_now_ms);
                if issue.is_some() {
                    return issue;
                }
            },
            Err(error) => {
                let mut out = owned(symbol);
                out.append(": 4H 查询失败: ");
                out.append(error.as_str());
                return Some(out);
            },
        }
        i += 1;
    }
    None
}

/// Stored candles of one instrument and period.
pub struct PairHistory {
    pub symbol: String,
    pub tf: Timeframe,
    pub bars: Vec<Bar>,
}

/// The stored candles of a pair do not suffice: four-hour candles have to
/// support a replay, half-hour and one-hour candles have to feed divergences,
/// and all others have to fill a chart.
pub open spec fn pair_incomplete(
    symbol: Seq<char>,
    tf: Timeframe,
    bars: Seq<BarModel>,
    now: int,
) -> bool {
    match tf {
        Timeframe::H4 => coverage_complaint(symbol, bars, now) is Some,
        Timeframe::M30 | Timeframe::H1 => needs_backfill(bars, SMT_SOURCE_MIN_BARS as int, now),
        _ => needs_refresh(bars, 2, now),
    }
}

/// Whether the stored candles of a pair do not suffice.
pub fn is_pair_incomplete(symbol: &str, tf: Timeframe, bars: &Vec<Bar>, market_now_ms: i64) -> (r:
    bool)
    requires
        dated(bars.deep_view()),
        modest(market_now_ms as int),
    ensures
        r == pair_incomplete(symbol@, tf, bars.deep_view(), market_now_ms as int),
{
    match tf {
        Timeframe::H4 => coverage_issue(symbol, bars, market_now_ms).is_some(),
        Timeframe::M30 | Timeframe::H1 => history_needs_backfill(
            bars.as_slice(),
            SMT_SOURCE_MIN_BARS,
            market_now_ms,
        ),
        _ => chart_history_needs_provider_refresh(bars.as_slice(), 2, market_now_ms),
    }
}

/// Some pair of a fixed period can be filled up.
pub open spec fn some_pair_fills(pairs: Seq<PairHistory>, now: int) -> bool {
    exists|i: int| 0 <= i < pairs.len() && #[trigger] pair_fills(pairs[i], now)
}

/// A pair of a fixed period can be filled up.
pub open spec fn pair_fills(pair: PairHistory, now: int) -> bool {
    needs_fill(pair.bars.deep_view(), pair.symbol@, pair.tf, now)
}

/// Whether some pair of a fixed period can be filled up.
pub fn recent_fixed_aggregate_history_needs_fill(
    pairs: &Vec<PairHistory>,
    market_now_ms: i64,
) -> (r: bool)
    requires
        forall|i: int| 0 <= i < pairs.len() ==> dated((#[trigger] pairs@[i]).bars.deep_view()),
        modest(market_now_ms as int),
    ensures
        r == some_pair_fills(pairs@, market_now_ms as int),
{
    let mut i: usize = 0;
    while i < pairs.len()
        invariant
            i <= pairs.len(),
            forall|i: int| 0 <= i < pairs.len() ==> dated((#[trigger] pairs@[i]).bars.deep_view()),
            modest(market_now_ms as int),
            forall|k: int|
                0 <= k < i ==> !#[trigger] pair_fills(pairs@[k], market_now_ms as int),
        decreases pairs.len() - i,
    {
        let pair = &pairs[i];
        if fixed_aggregate_rows_need_fill(
            pair.bars.as_slice(),
            pair.symbol.as_str(),
            pair.tf,
            market_now_ms,
        ) {
            assert(pair_fills(pairs@[i as int], market_now_ms as int));
            return true;
        }
        i += 1;
    }
    false
}

/// Whether an audit is tried once more.
pub fn tries_again(attempt: usize, complete: bool) -> (r: bool)
    ensures
        r == (!complete && attempt != RECONNECT_PREFLIGHT_MAX_ATTEMPTS),
{
    !complete && attempt != RECONNECT_PREFLIGHT_MAX_ATTEMPTS
}

/// Lets one audit of the history run at a time. A reconnect announces every
/// instrument, but stands for one audit.
pub struct ReconnectHistoryPreflightGate {
    running: bool,
    last_attempt_ms: Option<i64>,
    last_success_ms: Option<i64>,
}

/// Mathematical content of a [`ReconnectHistoryPreflightGate`].
pub struct GateModel {
    pub running: bool,
    pub last_attempt: Option<i64>,
    pub last_success: Option<i64>,
}

impl View for ReconnectHistoryPreflightGate {
    type V = GateModel;

    closed spec fn view(&self) -> GateModel {
        GateModel {
            running: self.running,
            last_attempt: self.last_attempt_ms,
            last_success: self.last_success_ms,
        }
    }
}

/// Less than a pause has gone by since a time.
pub open spec fn within(last: Option<i64>, now: int, pause: int) -> bool {
    last matches Some(t) && clamped(now - t) < pause
}

/// An audit may begin: none is running, the last success is long enough ago,
/// and so is the last try.
pub open spec fn may_begin(g: GateModel, now: int) -> bool {
    &&& !g.running
    &&& !within(g.last_success, now, RECONNECT_PREFLIGHT_SUCCESS_COOLDOWN_MS as int)
    &&& !within(g.last_attempt, now, RECONNECT_PREFLIGHT_RETRY_COOLDOWN_MS as int)
}

fn is_within(last: Option<i64>, now: i64, pause: i64) -> (r: bool)
    ensures
        r == within(last, now as int, pause as int),
{
    match last {
        Some(t) => saturating_difference(now, t) < pause,
        None => false,
    }
}

impl Default for ReconnectHistoryPreflightGate {
    fn default() -> (r: Self)
        ensures
            r@ == (GateModel { running: false, last_attempt: None, last_success: None }),
    {
        ReconnectHistoryPreflightGate {
            running: false,
            last_attempt_ms: None,
            last_success_ms: None,
        }
    }
}

impl ReconnectHistoryPreflightGate {
    /// Begins an audit if it may begin.
    pub fn try_begin(&mut self, market_now_ms: i64) -> (r: bool)
        ensures
            r == may_begin(old(self)@, market_now_ms as int),
            final(self)@ == if r {
                GateModel {
                    running: true,
                    last_attempt: Some(market_now_ms),
                    last_success: old(self)@.last_success,
                }
            } else {
                old(self)@
            },
    {
        if self.running || is_within(
            self.last_success_ms,
            market_now_ms,
            RECONNECT_PREFLIGHT_SUCCESS_COOLDOWN_MS,
        ) || is_within(
            self.last_attempt_ms,
            market_now_ms,
            RECONNECT_PREFLIGHT_RETRY_COOLDOWN_MS,
        ) {
            return false;
        }
        self.running = true;
        self.last_attempt_ms = Some(market_now_ms);
        true
    }

    /// Ends an audit.
    pub fn finish(&mut self, market_now_ms: i64, complete: bool)
        ensures
            final(self)@ == (GateModel {
                running: false,
                last_attempt: old(self)@.last_attempt,
                last_success: if complete {
                    Some(market_now_ms)
                } else {
                    old(self)@.last_success
                },
            }),
    {
        self.running = false;
        if complete {
            self.last_success_ms = Some(market_now_ms);
        }
    }
}

/// While an audit runs no other begins, and after a success none begins for a
/// minute.
pub proof fn law_one_audit_per_reconnect(g: GateModel, ended: i64, later: int)
    requires
        0 <= later - ended < RECONNECT_PREFLIGHT_SUCCESS_COOLDOWN_MS,
    ensures
        g.running ==> !may_begin(g, later),
        !may_begin(
            GateModel { running: false, last_attempt: g.last_attempt, last_success: Some(ended) },
            later,
        ),
{
}

proof fn lemma_of_period(bars: Seq<BarModel>, tf: Timeframe, k: int)
    requires
        0 <= k < of_period(bars, tf).len(),
    ensures
        of_period(bars, tf)[k].tf == tf,
    decreases bars.len(),
{
    let rest = of_period(bars.drop_last(), tf);
    if k < rest.len() {
        lemma_of_period(bars.drop_last(), tf, k);
    }
}

/// A replacement starts and ends with a rebuilt candle of its own period, so
/// that nothing outside the rebuilt range is touched.
pub proof fn law_replacements_cover_rebuilt_candles(symbol: Seq<char>, span: Seq<BarModel>, tf: Timeframe)
    ensures
        ({
            let rows = of_period(rebuilt_from(symbol, span), tf);
            let x = replacing(tf, rows);
            &&& x.len() == if rows.len() == 0 { 0nat } else { 1nat }
            &&& x.len() > 0 ==> x[0].from == rows[0].ts && x[0].to == rows.last().ts && x[0].rows
                == rows && x[0].tf == tf
            &&& forall|k: int| 0 <= k < rows.len() ==> (#[trigger] rows[k]).tf == tf
        }),
{
    let rows = of_period(rebuilt_from(symbol, span), tf);
    assert forall|k: int| 0 <= k < rows.len() implies (#[trigger] rows[k]).tf == tf by {
        lemma_of_period(rebuilt_from(symbol, span), tf, k);
    }
}

/// An unbroken run of minutes is repaired as one.
pub proof fn law_unbroken_minutes_are_one_run(symbol: Seq<char>, minutes: Seq<BarModel>)
    requires
        minutes.len() > 0,
        !has_wide_gap(minutes),
    ensures
        repairs_of(symbol, minutes) == replacements_for(symbol, minutes),
{
    lemma_unbroken(symbol, minutes);
    assert(minutes.skip(0) =~= minutes);
    assert(Seq::<ReplacementModel>::empty() + replacements_for(symbol, minutes)
        =~= replacements_for(symbol, minutes));
}

proof fn lemma_unbroken(symbol: Seq<char>, minutes: Seq<BarModel>)
    requires
        !has_wide_gap(minutes),
    ensures
        span_start(minutes) == 0,
        earlier_replacements(symbol, minutes) == Seq::<ReplacementModel>::empty(),
    decreases minutes.len(),
{
    if minutes.len() > 1 {
        let rest = minutes.drop_last();
        assert(!wide_gap_after(minutes, minutes.len() - 2));
        assert forall|i: int| 0 <= i < rest.len() - 1 implies !#[trigger] wide_gap_after(rest, i) by {
            assert(!wide_gap_after(minutes, i));
            assert(rest[i] == minutes[i] && rest[i + 1] == minutes[i + 1]);
        }
        lemma_unbroken(symbol, rest);
    }
}

proof fn lemma_rows_are_shared(
    h1: Seq<BarModel>,
    natives: Seq<BarModel>,
    symbol: Seq<char>,
    now: int,
    a: Seq<BarModel>,
    b: Seq<BarModel>,
)
    requires
        canonical_rows(h1, natives, symbol, now, a),
        canonical_rows(h1, natives, symbol, now, b),
    ensures
        forall|i: int| 0 <= i < a.len() ==> b.contains(#[trigger] a[i]),
{
    let n = natives.len() as int;
    assert forall|i: int| 0 <= i < a.len() implies b.contains(#[trigger] a[i]) by {
        let window = a[i].ts as int;
        assert(rightly_there(h1, symbol, now, natives, n, a[i]));
        if complete(h1, symbol, now, window) {
            assert(opens_at(b, window));
        } else {
            let k = choose|k: int|
                0 <= k < n && #[trigger] first_usable(h1, symbol, now, natives, k) && a[i]
                    == natives[k];
            assert(opens_at(b, natives[k].ts as int));
        }
        let j = choose|j: int| 0 <= j < b.len() && (#[trigger] b[j]).ts == window;
        assert(rightly_there(h1, symbol, now, natives, n, b[j]));
        if !complete(h1, symbol, now, window) {
            let k = choose|k: int|
                0 <= k < n && #[trigger] first_usable(h1, symbol, now, natives, k) && a[i]
                    == natives[k];
            let t = choose|t: int|
                0 <= t < n && #[trigger] first_usable(h1, symbol, now, natives, t) && b[j]
                    == natives[t];
            assert(natives[k].ts == natives[t].ts);
            assert(k == t) by {
                if k < t {
                    assert(!native_usable(h1, symbol, now, natives[k]));
                }
                if t < k {
                    assert(!native_usable(h1, symbol, now, natives[t]));
                }
            }
        }
        assert(b[j] == a[i]);
    }
}

/// One-hour candles and provider candles determine the four-hour grid: there
/// is only one list that follows from them.
pub proof fn law_canonical_rows_are_determined(
    h1: Seq<BarModel>,
    natives: Seq<BarModel>,
    symbol: Seq<char>,
    now: int,
    a: Seq<BarModel>,
    b: Seq<BarModel>,
)
    requires
        canonical_rows(h1, natives, symbol, now, a),
        canonical_rows(h1, natives, symbol, now, b),
    ensures
        a == b,
{
    lemma_rows_are_shared(h1, natives, symbol, now, a, b);
    lemma_rows_are_shared(h1, natives, symbol, now, b, a);
    lemma_ascending_lists_are_equal(a, b);
}

} // verus!
