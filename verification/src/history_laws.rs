//! What is promised of stored history: when it has to be fetched again, and how it
//! is repaired.
use vstd::prelude::*;
use crate::aggregator::{batch_closed, close_events, AggregatorModel};
use crate::calendar::{aligned, expected_opens, market_open, next_boundary, on_utc_grid};
use crate::calendar_laws::law_expected_candles_open_in_market_hours;
use crate::history::{
    calendar_gap, calendar_gap_after, closed_among, closes_of, coverage_complaint,
    earlier_replacements, enough_hours, fixed_gap_after, fixed_periods, has_fixed_gap,
    has_market_gap, has_wide_gap, may_begin, missing_between, needs_backfill, needs_fill,
    needs_refresh, of_period, over, pair_incomplete, repairs_of, replacements_for, replacing,
    span_start, wide_gap_after, window_trades, GateModel,
};
use crate::text::lemma_push_contains;
use crate::types::{duration, BarEventModel, BarModel, Timeframe};

verus! {

/// How much later the next candle opens.
pub open spec fn pause(bars: Seq<BarModel>, i: int) -> int {
    bars[i + 1].ts - bars[i].ts
}

/// The next candle follows at once, for the same instrument and period.
pub open spec fn follows(bars: Seq<BarModel>, i: int) -> bool {
    bars[i].symbol == bars[i + 1].symbol && bars[i].tf == bars[i + 1].tf && pause(bars, i)
        == duration(bars[i].tf)
}

/// A history of one instrument and period in which every candle follows the one
/// before at once.
pub open spec fn unbroken(bars: Seq<BarModel>) -> bool {
    forall|i: int| 0 <= i < bars.len() - 1 ==> #[trigger] follows(bars, i)
}

proof fn lemma_grid(tf: Timeframe, x: int)
    requires
        on_utc_grid(tf),
    ensures
        aligned(tf, x) == x - x % duration(tf),
        0 <= x % duration(tf) < duration(tf),
        next_boundary(tf, x) == x + duration(tf),
{
    reveal(aligned);
    reveal(next_boundary);
    vstd::arithmetic::div_mod::lemma_mod_bound(x, duration(tf));
    assert(x - 0 == x);
}

proof fn lemma_unbroken(bars: Seq<BarModel>)
    requires
        unbroken(bars),
        bars.len() > 0,
        on_utc_grid(bars[0].tf),
    ensures
        !has_wide_gap(bars),
        !has_market_gap(bars),
        !has_fixed_gap(bars),
{
    assert forall|i: int| 0 <= i < bars.len() - 1 implies !(#[trigger] fixed_gap_after(bars, i)) by {
        assert(follows(bars, i));
    }
    assert forall|i: int| 0 <= i < bars.len() - 1 implies !(#[trigger] wide_gap_after(bars, i)) by {
        assert(follows(bars, i));
        lemma_one_period(bars, i);
    }
}

proof fn lemma_one_period(bars: Seq<BarModel>, i: int)
    requires
        unbroken(bars),
        0 <= i < bars.len(),
    ensures
        bars[i].tf == bars[0].tf,
    decreases i,
{
    if i > 0 {
        lemma_one_period(bars, i - 1);
        assert(follows(bars, i - 1));
    }
}

/// The source of divergences is fetched again where it is short, where it pauses
/// for more than five days, and where it is more than seven days old; an unbroken
/// fresh history of enough candles is left alone.
pub proof fn law_source_history_is_kept_fresh(bars: Seq<BarModel>, minimum: int, now: i64, i: int)
    ensures
        bars.len() < minimum ==> needs_backfill(bars, minimum, now as int),
        bars.len() == 0 ==> needs_backfill(bars, minimum, now as int),
        bars.len() > 0 && now - bars.last().ts > 7 * 24 * 3_600_000 ==> needs_backfill(
            bars,
            minimum,
            now as int,
        ),
        0 <= i < bars.len() - 1 && bars[i + 1].ts - bars[i].ts > 5 * 24 * 3_600_000
            ==> needs_backfill(bars, minimum, now as int),
        0 <= i < bars.len() - 1 && on_utc_grid(bars[0].tf) && (bars[i].symbol != bars[i + 1].symbol
            || bars[i].tf != bars[i + 1].tf) ==> needs_backfill(bars, minimum, now as int),
        unbroken(bars) && bars.len() > 0 && bars.len() >= minimum && on_utc_grid(bars[0].tf) && now
            - bars.last().ts <= 7 * 24 * 3_600_000 ==> !needs_backfill(bars, minimum, now as int),
{
    if 0 <= i < bars.len() - 1 {
        if bars[i + 1].ts - bars[i].ts > 5 * 24 * 3_600_000 {
            assert(wide_gap_after(bars, i));
        }
        if bars[i].symbol != bars[i + 1].symbol || bars[i].tf != bars[i + 1].tf {
            assert(fixed_gap_after(bars, i));
        }
    }
    if unbroken(bars) && bars.len() > 0 && on_utc_grid(bars[0].tf) {
        lemma_unbroken(bars);
    }
}

proof fn lemma_opens(symbol: Seq<char>, tf: Timeframe, start: i64, end: i64, ts: i64)
    requires
        start <= ts < end,
        (end - start) % duration(tf) == 0,
        (ts - start) % duration(tf) == 0,
        market_open(symbol, ts as int),
    ensures
        expected_opens(symbol, tf, start as int, end as int).len() > 0,
{
    law_expected_candles_open_in_market_hours(symbol, tf, start, end, ts);
    let list = expected_opens(symbol, tf, start as int, end as int);
    assert(list.contains(ts));
}

proof fn lemma_no_opens(symbol: Seq<char>, tf: Timeframe, start: i64, end: i64)
    requires
        forall|ts: i64| start <= ts < end ==> !(#[trigger] market_open(symbol, ts as int)),
    ensures
        expected_opens(symbol, tf, start as int, end as int).len() == 0,
{
    let list = expected_opens(symbol, tf, start as int, end as int);
    if list.len() > 0 {
        law_expected_candles_open_in_market_hours(symbol, tf, start, end, list[0]);
        assert(list.contains(list[0]));
        assert(market_open(symbol, list[0] as int));
    }
}

/// Between two neighbours of a fixed period a candle is missing where the market
/// was open at one of the times that they leave out, and none is missing where it
/// was closed throughout: a weekend is no gap.
pub proof fn law_only_trading_time_can_be_missing(bars: Seq<BarModel>, i: int, ts: i64)
    requires
        0 <= i < bars.len() - 1,
        on_utc_grid(bars[0].tf),
        bars[i].symbol == bars[i + 1].symbol,
        bars[i].tf == bars[i + 1].tf,
        bars[i + 1].ts - bars[i].ts <= i64::MAX,
        bars[i].ts + duration(bars[i].tf) <= i64::MAX,
    ensures
        ({
            let step = duration(bars[i].tf);
            let from = bars[i].ts + step;
            let to = bars[i + 1].ts;
            &&& from <= ts < to && (to - from) % step == 0 && (ts - from) % step == 0
                && market_open(bars[i].symbol, ts as int) ==> has_market_gap(bars)
            &&& bars.len() == 2 && (forall|t: i64|
                from <= t < to ==> !(#[trigger] market_open(bars[i].symbol, t as int)))
                ==> !has_market_gap(bars)
        }),
{
    let step = duration(bars[i].tf);
    let from = bars[i].ts + step;
    let to = bars[i + 1].ts;
    if from <= ts < to && (to - from) % step == 0 && (ts - from) % step == 0 && market_open(
        bars[i].symbol,
        ts as int,
    ) {
        lemma_opens(bars[i].symbol, bars[i].tf, from as i64, to, ts);
        assert(fixed_gap_after(bars, i));
    }
    if bars.len() == 2 && forall|t: i64|
        from <= t < to ==> !(#[trigger] market_open(bars[i].symbol, t as int)) {
        lemma_no_opens(bars[i].symbol, bars[i].tf, from as i64, to);
        assert forall|k: int| 0 <= k < bars.len() - 1 implies !(#[trigger] fixed_gap_after(
            bars,
            k,
        )) by {
            assert(k == i);
        }
    }
}

/// A chart is refreshed where it is short, where its last candle is off the grid,
/// and where a candle that trades is over and not there; an unbroken one up to
/// the candle that is open now is left alone.
pub proof fn law_charts_are_refreshed_in_time(bars: Seq<BarModel>, minimum: int, now: i64)
    ensures
        bars.len() < minimum ==> needs_refresh(bars, minimum, now as int),
        bars.len() == 0 ==> needs_refresh(bars, minimum, now as int),
        bars.len() > 0 && aligned(bars.last().tf, bars.last().ts as int) != bars.last().ts
            ==> needs_refresh(bars, minimum, now as int),
        bars.len() > 0 && bars.len() >= minimum && unbroken(bars) && on_utc_grid(bars[0].tf)
            && aligned(bars[0].tf, bars.last().ts as int) == bars.last().ts && now < bars.last().ts
            + 2 * duration(bars[0].tf) && now >= bars.last().ts ==> !needs_refresh(
            bars,
            minimum,
            now as int,
        ),
        bars.len() > 0 && on_utc_grid(bars.last().tf) && aligned(
            bars.last().tf,
            bars.last().ts as int,
        ) == bars.last().ts && bars.last().ts + 2 * duration(bars.last().tf) <= now && market_open(
            bars.last().symbol,
            bars.last().ts + duration(bars.last().tf),
        ) ==> needs_refresh(bars, minimum, now as int),
{
    if bars.len() > 0 {
        let last = bars.last();
        let step = duration(last.tf);
        if on_utc_grid(last.tf) && aligned(last.tf, last.ts as int) == last.ts {
            lemma_grid(last.tf, last.ts as int);
            let next = last.ts + step;
            lemma_grid(last.tf, next);
            if last.ts + 2 * step <= now {
                lemma_grid(last.tf, now as int);
                if market_open(last.symbol, next) {
                    lemma_opens(last.symbol, last.tf, next as i64, (next + step) as i64, next as i64);
                    assert(missing_between(
                        last.symbol,
                        last.tf,
                        next,
                        aligned(last.tf, now as int),
                    ));
                }
            }
        }
        if unbroken(bars) && on_utc_grid(bars[0].tf) {
            lemma_unbroken(bars);
            lemma_one_period(bars, bars.len() - 1);
            if aligned(last.tf, last.ts as int) == last.ts && last.ts <= now < last.ts + 2 * step {
                lemma_aligned_within(last.tf, last.ts as int, now as int);
            }
        }
    }
}

proof fn lemma_aligned_within(tf: Timeframe, ts: int, now: int)
    requires
        on_utc_grid(tf),
        aligned(tf, ts) == ts,
        ts <= now < ts + 2 * duration(tf),
    ensures
        aligned(tf, now) <= ts + duration(tf),
{
    let step = duration(tf);
    lemma_grid(tf, ts);
    lemma_grid(tf, now);
    assert(ts % step == 0);
    if now < ts + step {
        assert(aligned(tf, now) <= now);
    } else {
        let rest = now - (ts + step);
        vstd::arithmetic::div_mod::lemma_mod_adds(ts + step, rest, step);
        vstd::arithmetic::div_mod::lemma_small_mod(rest as nat, step as nat);
        vstd::arithmetic::div_mod::lemma_mod_add_multiples_vanish(ts, step);
        assert((ts + step) % step == 0);
        vstd::arithmetic::div_mod::lemma_add_mod_noop(ts + step, rest, step);
        assert(now % step == rest);
    }
}

/// Rows can be filled from stored minutes where the newest candle that is over is
/// not there although the market was open, and need no filling where it is.
pub proof fn law_missing_rows_can_be_filled(
    rows: Seq<BarModel>,
    symbol: Seq<char>,
    tf: Timeframe,
    now: i64,
)
    requires
        on_utc_grid(tf),
        now > 2 * duration(tf),
    ensures
        ({
            let latest = aligned(tf, now as int) - duration(tf);
            &&& market_open(symbol, latest) && (rows.len() == 0 || rows.last().ts < latest)
                ==> needs_fill(rows, symbol, tf, now as int)
            &&& rows.len() > 0 && rows.last().ts >= latest && unbroken(rows) && on_utc_grid(
                rows[0].tf,
            ) ==> !needs_fill(rows, symbol, tf, now as int)
        }),
{
    let step = duration(tf);
    let latest = aligned(tf, now as int) - step;
    lemma_grid(tf, now as int);
    if market_open(symbol, latest) {
        lemma_opens(symbol, tf, latest as i64, (latest + step) as i64, latest as i64);
    }
    if rows.len() > 0 && unbroken(rows) && on_utc_grid(rows[0].tf) {
        lemma_unbroken(rows);
    }
}

/// Four-hour candles support a replay where there are at least sixty-four, none
/// of them more than five days after the one before, and the last not more than
/// seven days old.
pub proof fn law_four_hour_history_is_covered(symbol: Seq<char>, bars: Seq<BarModel>, now: i64)
    ensures
        coverage_complaint(symbol, bars, now as int) is None <==> (bars.len() >= 64 && now
            - bars.last().ts <= 7 * 24 * 3_600_000 && forall|i: int|
            0 <= i < bars.len() - 1 ==> #[trigger] pause(bars, i) <= 5 * 24 * 3_600_000),
        pair_incomplete(symbol, Timeframe::H4, bars, now as int) <==> coverage_complaint(
            symbol,
            bars,
            now as int,
        ) is Some,
        bars.len() < 1_100 ==> pair_incomplete(symbol, Timeframe::M30, bars, now as int)
            && pair_incomplete(symbol, Timeframe::H1, bars, now as int),
        bars.len() < 2 ==> pair_incomplete(symbol, Timeframe::M1, bars, now as int)
            && pair_incomplete(symbol, Timeframe::M5, bars, now as int) && pair_incomplete(
            symbol,
            Timeframe::D1,
            bars,
            now as int,
        ),
{
    if has_wide_gap(bars) {
        let i = choose|i: int| 0 <= i < bars.len() - 1 && #[trigger] wide_gap_after(bars, i);
        assert(pause(bars, i) > 5 * 24 * 3_600_000);
    } else {
        assert forall|i: int| 0 <= i < bars.len() - 1 implies #[trigger] pause(bars, i) <= 5 * 24
            * 3_600_000 by {
            assert(!wide_gap_after(bars, i));
        }
    }
}

/// A candle is final where the next one may have opened: it is kept where its
/// period has gone by, and no other is.
pub proof fn law_only_finished_candles_are_final(bars: Seq<BarModel>, now: int, x: BarModel)
    ensures
        over(bars, now).contains(x) <==> bars.contains(x) && next_boundary(
            x.tf,
            aligned(x.tf, x.ts as int),
        ) <= now,
        over(bars, now).contains(x) && on_utc_grid(x.tf) ==> now >= x.ts - x.ts as int % duration(
            x.tf,
        ) + duration(x.tf),
    decreases bars.len(),
{
    if bars.len() > 0 {
        let rest = bars.drop_last();
        law_only_finished_candles_are_final(rest, now, x);
        if on_utc_grid(x.tf) {
            lemma_grid(x.tf, x.ts as int);
            lemma_grid(x.tf, aligned(x.tf, x.ts as int));
        }
        lemma_push_contains(rest, bars.last(), x);
        lemma_push_contains(over(rest, now), bars.last(), x);
        assert(rest.push(bars.last()) =~= bars);
    }
}

/// The rebuilt candles of a period are those of that period among all.
pub proof fn law_periods_are_told_apart(bars: Seq<BarModel>, tf: Timeframe, x: BarModel)
    ensures
        of_period(bars, tf).contains(x) <==> bars.contains(x) && x.tf == tf,
        fixed_periods(bars).contains(x) <==> bars.contains(x) && (x.tf is M5 || x.tf is M15
            || x.tf is M30 || x.tf is H1),
    decreases bars.len(),
{
    if bars.len() > 0 {
        let rest = bars.drop_last();
        law_periods_are_told_apart(rest, tf, x);
        lemma_push_contains(rest, bars.last(), x);
        lemma_push_contains(of_period(rest, tf), bars.last(), x);
        lemma_push_contains(fixed_periods(rest), bars.last(), x);
        assert(rest.push(bars.last()) =~= bars);
    }
}

/// The last run of minutes reaches back to the last pause of more than five days,
/// and over no such pause.
pub proof fn law_runs_end_at_long_pauses(minutes: Seq<BarModel>)
    ensures
        0 <= span_start(minutes) <= minutes.len(),
        minutes.len() > 0 ==> span_start(minutes) < minutes.len(),
        span_start(minutes) > 0 ==> pause(minutes, span_start(minutes) - 1) > 5 * 24 * 3_600_000,
        forall|i: int|
            span_start(minutes) <= i < minutes.len() - 1 ==> #[trigger] pause(minutes, i) <= 5 * 24
                * 3_600_000,
    decreases minutes.len(),
{
    if minutes.len() > 1 {
        let n = minutes.len() as int;
        if !wide_gap_after(minutes, n - 2) {
            let rest = minutes.drop_last();
            law_runs_end_at_long_pauses(rest);
            let s = span_start(rest);
            if s > 0 {
                assert(pause(rest, s - 1) == pause(minutes, s - 1));
            }
            assert forall|i: int| s <= i < n - 1 implies #[trigger] pause(minutes, i) <= 5 * 24
                * 3_600_000 by {
                if i < n - 2 {
                    assert(pause(rest, i) == pause(minutes, i));
                }
            }
        }
    }
}

/// One audit runs at a time; the next begins a minute after a success at the
/// earliest, and fifteen seconds after a failed try.
pub proof fn law_audits_keep_their_distance(g: GateModel, now: i64)
    ensures
        g.running ==> !may_begin(g, now as int),
        g.last_success matches Some(t) && now - t < 60 * 1000 ==> !may_begin(g, now as int),
        g.last_attempt matches Some(t) && now - t < 15 * 1000 ==> !may_begin(g, now as int),
        !g.running && (g.last_success matches Some(t) ==> now - t >= 60 * 1000) && (
        g.last_attempt matches Some(t) ==> now - t >= 15 * 1000) ==> may_begin(g, now as int),
{
}

/// A calendar candle off the opening of its window counts as damage; neighbouring
/// windows leave nothing out; a window between them that trades is a gap.
pub proof fn law_calendar_windows_can_be_missing(bars: Seq<BarModel>, i: int)
    requires
        0 <= i < bars.len() - 1,
        !on_utc_grid(bars[0].tf),
    ensures
        ({
            let a = bars[i];
            let b = bars[i + 1];
            let next = next_boundary(a.tf, a.ts as int);
            let grid = aligned(a.tf, a.ts as int) == a.ts && aligned(b.tf, b.ts as int) == b.ts;
            &&& a.symbol != b.symbol || a.tf != b.tf ==> has_market_gap(bars)
            &&& aligned(a.tf, a.ts as int) != a.ts ==> has_market_gap(bars)
            &&& b.ts <= a.ts ==> has_market_gap(bars)
            &&& a.symbol == b.symbol && a.tf == b.tf && grid && a.ts < b.ts && next < b.ts
                && window_trades(a.symbol, a.tf, next) && !on_utc_grid(a.tf) ==> has_market_gap(
                bars,
            )
            &&& bars.len() == 2 && a.symbol == b.symbol && a.tf == b.tf && grid && a.ts < b.ts
                && b.ts <= next ==> !has_market_gap(bars)
        }),
{
    let a = bars[i];
    let b = bars[i + 1];
    let next = next_boundary(a.tf, a.ts as int);
    assert(calendar_gap_after(bars, i) == calendar_gap(a, b));
    if bars.len() == 2 {
        assert forall|k: int| 0 <= k < bars.len() - 1 && calendar_gap_after(bars, k) implies k == i by {
        }
    }
}

/// A window of the calendar trades where the market is open at one of its hours.
pub proof fn law_windows_trade_by_the_hour(symbol: Seq<char>, tf: Timeframe, window: i64, end: i64, ts: i64)
    requires
        next_boundary(tf, window as int) == end,
        (end - window) % duration(Timeframe::H1) == 0,
    ensures
        window <= ts < end && (ts - window) % duration(Timeframe::H1) == 0 && market_open(
            symbol,
            ts as int,
        ) ==> window_trades(symbol, tf, window as int),
        (forall|t: i64| window <= t < end ==> !(#[trigger] market_open(symbol, t as int)))
            ==> !window_trades(symbol, tf, window as int),
{
    if window <= ts < end && (ts - window) % duration(Timeframe::H1) == 0 && market_open(
        symbol,
        ts as int,
    ) {
        lemma_opens(symbol, Timeframe::H1, window, end, ts);
    }
    if forall|t: i64| window <= t < end ==> !(#[trigger] market_open(symbol, t as int)) {
        lemma_no_opens(symbol, Timeframe::H1, window, end);
    }
}

/// Minutes are repaired run by run: what earlier minutes call for stays, and the last
/// run is rebuilt on its own.
pub proof fn law_every_run_is_repaired(symbol: Seq<char>, minutes: Seq<BarModel>, bar: BarModel)
    requires
        minutes.len() > 0,
    ensures
        repairs_of(symbol, minutes).len() >= replacements_for(
            symbol,
            minutes.skip(span_start(minutes)),
        ).len(),
        bar.ts - minutes.last().ts > 5 * 24 * 3_600_000 ==> repairs_of(symbol, minutes.push(bar))
            == repairs_of(symbol, minutes) + replacements_for(symbol, seq![bar]),
        repairs_of(symbol, Seq::empty()).len() == 0,
{
    let all = minutes.push(bar);
    let n = minutes.len() as int;
    assert(all.drop_last() =~= minutes);
    if bar.ts - minutes.last().ts > 5 * 24 * 3_600_000 {
        assert(all[n - 1] == minutes.last());
        assert(wide_gap_after(all, n - 1));
        assert(all.skip(n) =~= seq![bar]);
        assert(span_start(all) == n);
        let run = replacements_for(symbol, minutes.skip(span_start(minutes)));
        assert(earlier_replacements(symbol, all)
            == earlier_replacements(symbol, minutes) + run);
    }
}

/// A replacement covers its candles from the first to the last.
pub proof fn law_replacements_cover_their_candles(tf: Timeframe, rows: Seq<BarModel>)
    ensures
        rows.len() == 0 <==> replacing(tf, rows).len() == 0,
        rows.len() > 0 ==> replacing(tf, rows).len() == 1 && replacing(tf, rows)[0].tf == tf
            && replacing(tf, rows)[0].rows == rows && replacing(tf, rows)[0].from == rows[0].ts
            && replacing(tf, rows)[0].to == rows[rows.len() - 1].ts,
{
}

/// Rebuilt candles come minute by minute: one more minute adds what it closes.
pub proof fn law_minutes_are_rebuilt_in_order(
    s: AggregatorModel,
    minutes: Seq<BarModel>,
    m1: BarModel,
    x: BarModel,
)
    ensures
        closes_of(s, Seq::empty()).len() == 0,
        closes_of(s, minutes.push(m1)).take(closes_of(s, minutes).len() as int) == closes_of(
            s,
            minutes,
        ),
        closes_of(s, minutes.push(m1)).skip(closes_of(s, minutes).len() as int).contains(x) <==> (
        exists|i: int|
            0 <= i < close_events(batch_closed(s, minutes), m1).len() && #[trigger] close_events(
                batch_closed(s, minutes),
                m1,
            )[i] == BarEventModel::BarClosed(x)),
{
    let all = minutes.push(m1);
    assert(all.drop_last() =~= minutes);
    let before = closes_of(s, minutes);
    let events = close_events(batch_closed(s, minutes), m1);
    let own = closed_among(events);
    assert(closes_of(s, all) == before + own);
    assert((before + own).take(before.len() as int) =~= before);
    assert((before + own).skip(before.len() as int) =~= own);
    lemma_closed_among(events, x);
}

proof fn lemma_closed_among(events: Seq<BarEventModel>, x: BarModel)
    ensures
        closed_among(events).contains(x) <==> exists|i: int|
            0 <= i < events.len() && #[trigger] events[i] == BarEventModel::BarClosed(x),
    decreases events.len(),
{
    if events.len() > 0 {
        let rest = events.drop_last();
        lemma_closed_among(rest, x);
        if let BarEventModel::BarClosed(bar) = events.last() {
            lemma_push_contains(closed_among(rest), bar, x);
        }
        if exists|i: int| 0 <= i < rest.len() && #[trigger] rest[i] == BarEventModel::BarClosed(x) {
            let i = choose|i: int|
                0 <= i < rest.len() && #[trigger] rest[i] == BarEventModel::BarClosed(x);
            assert(events[i] == BarEventModel::BarClosed(x));
        }
        if events.last() == BarEventModel::BarClosed(x) {
            assert(events[events.len() - 1] == BarEventModel::BarClosed(x));
        }
        if exists|i: int|
            0 <= i < events.len() && #[trigger] events[i] == BarEventModel::BarClosed(x) {
            let i = choose|i: int|
                0 <= i < events.len() && #[trigger] events[i] == BarEventModel::BarClosed(x);
            if i < rest.len() {
                assert(rest[i] == BarEventModel::BarClosed(x));
            }
        }
    }
}

/// Enough hours for four-hour candles are two hundred and fifty-six without a long
/// pause.
pub proof fn law_rewrites_need_enough_hours(h1: Seq<BarModel>)
    ensures
        enough_hours(h1) <==> h1.len() >= 256 && forall|i: int|
            0 <= i < h1.len() - 1 ==> #[trigger] pause(h1, i) <= 5 * 24 * 3_600_000,
{
    if has_wide_gap(h1) {
        let i = choose|i: int| 0 <= i < h1.len() - 1 && #[trigger] wide_gap_after(h1, i);
        assert(pause(h1, i) > 5 * 24 * 3_600_000);
    } else {
        assert forall|i: int| 0 <= i < h1.len() - 1 implies #[trigger] pause(h1, i) <= 5 * 24
            * 3_600_000 by {
            assert(!wide_gap_after(h1, i));
        }
    }
}

} // verus!
