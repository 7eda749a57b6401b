//! Four-hour candles rebuilt from one-hour candles on the canonical grid.
use vstd::prelude::*;
use crate::aggregator::far_from_limits;
use crate::calendar::{
    aligned, expected_market_bar_opens, expected_opens, next_boundary, next_window_boundary,
    on_clock, open_points, searched, surveyed, CLOCK_MARGIN_MS, DAY_MS,
};
use crate::text::owned;
use crate::types::{within, Bar, BarModel, Timeframe, PRICE_SCALE, VOLUME_LIMIT};

verus! {

/// Every candle has a timestamp on which boundary arithmetic is defined.
pub open spec fn timed(bars: Seq<BarModel>) -> bool {
    forall|i: int| 0 <= i < bars.len() ==> far_from_limits((#[trigger] bars[i]).ts as int)
}

/// Every candle has a volume that can be added up.
pub open spec fn summable(bars: Seq<BarModel>) -> bool {
    forall|i: int|
        0 <= i < bars.len() ==> within((#[trigger] bars[i]).volume as int, VOLUME_LIMIT as int)
}

/// Whether a candle belongs to the four-hour window.
pub open spec fn in_window(bar: BarModel, window: int) -> bool {
    aligned(Timeframe::H4, bar.ts as int) == window
}

/// How many candles belong to the window.
pub open spec fn children(h1: Seq<BarModel>, window: int) -> nat
    decreases h1.len(),
{
    if h1.len() == 0 {
        0
    } else {
        children(h1.drop_last(), window) + if in_window(h1.last(), window) {
            1nat
        } else {
            0nat
        }
    }
}

/// The hour opens that a window should hold.
pub open spec fn expected_hours(symbol: Seq<char>, window: int) -> Seq<i64> {
    expected_opens(symbol, Timeframe::H1, window, next_boundary(Timeframe::H4, window))
}

/// A candle of the window opens at the given time.
pub open spec fn has_hour(h1: Seq<BarModel>, window: int, ts: i64) -> bool {
    exists|j: int| 0 <= j < h1.len() && in_window(h1[j], window) && (#[trigger] h1[j]).ts == ts
}

/// The window is over and its candles are exactly the expected hours, each
/// once.
pub open spec fn complete(h1: Seq<BarModel>, symbol: Seq<char>, now: int, window: int) -> bool {
    let hours = expected_hours(symbol, window);
    &&& next_boundary(Timeframe::H4, window) <= now
    &&& hours.len() > 0
    &&& children(h1, window) == hours.len()
    &&& forall|i: int| 0 <= i < hours.len() ==> has_hour(h1, window, #[trigger] hours[i])
}

/// First candle of the window that opens at the given time.
pub open spec fn hour_at(h1: Seq<BarModel>, window: int, ts: i64) -> BarModel {
    h1[first_hour(h1, window, ts)]
}

/// Its position; the length where there is none.
pub open spec fn first_hour(h1: Seq<BarModel>, window: int, ts: i64) -> int
    decreases h1.len(),
{
    if h1.len() == 0 || (in_window(h1[0], window) && h1[0].ts == ts) {
        0
    } else {
        1 + first_hour(h1.drop_first(), window, ts)
    }
}

/// Highest high in the window.
pub open spec fn window_high(h1: Seq<BarModel>, window: int) -> int
    decreases h1.len(),
{
    if h1.len() == 0 {
        i64::MIN as int
    } else {
        let before = window_high(h1.drop_last(), window);
        if in_window(h1.last(), window) && h1.last().high > before {
            h1.last().high as int
        } else {
            before
        }
    }
}

/// Lowest low in the window.
pub open spec fn window_low(h1: Seq<BarModel>, window: int) -> int
    decreases h1.len(),
{
    if h1.len() == 0 {
        i64::MAX as int
    } else {
        let before = window_low(h1.drop_last(), window);
        if in_window(h1.last(), window) && h1.last().low < before {
            h1.last().low as int
        } else {
            before
        }
    }
}

/// Total volume in the window.
pub open spec fn window_volume(h1: Seq<BarModel>, window: int) -> int
    decreases h1.len(),
{
    if h1.len() == 0 {
        0
    } else {
        window_volume(h1.drop_last(), window) + if in_window(h1.last(), window) {
            h1.last().volume as int
        } else {
            0
        }
    }
}

/// The four-hour candle of a complete window.
pub open spec fn h4_bar(h1: Seq<BarModel>, symbol: Seq<char>, window: int) -> BarModel {
    let hours = expected_hours(symbol, window);
    BarModel {
        symbol,
        tf: Timeframe::H4,
        ts: window as i64,
        open: hour_at(h1, window, hours.first()).open,
        high: window_high(h1, window) as i64,
        low: window_low(h1, window) as i64,
        close: hour_at(h1, window, hours.last()).close,
        volume: window_volume(h1, window) as i128,
    }
}

/// Candles in strictly ascending time order.
pub open spec fn ascending(bars: Seq<BarModel>) -> bool {
    forall|i: int, j: int|
        0 <= i < j < bars.len() ==> (#[trigger] bars[i]).ts < (#[trigger] bars[j]).ts
}

/// Some candle of the list opens at the window.
pub open spec fn opens_at(bars: Seq<BarModel>, window: int) -> bool {
    exists|i: int| 0 <= i < bars.len() && (#[trigger] bars[i]).ts == window
}

proof fn lemma_first_hour(h1: Seq<BarModel>, window: int, ts: i64, n: int)
    requires
        0 <= n <= h1.len(),
        forall|k: int|
            0 <= k < n ==> !(in_window(#[trigger] h1[k], window) && h1[k].ts == ts),
        n < h1.len() ==> in_window(h1[n], window) && h1[n].ts == ts,
    ensures
        first_hour(h1, window, ts) == n,
    decreases h1.len(),
{
    if n > 0 {
        assert(!(in_window(h1[0], window) && h1[0].ts == ts));
        assert forall|k: int| 0 <= k < n - 1 implies !(in_window(
            #[trigger] h1.drop_first()[k],
            window,
        ) && h1.drop_first()[k].ts == ts) by {
            assert(h1.drop_first()[k] == h1[k + 1]);
        }
        lemma_first_hour(h1.drop_first(), window, ts, n - 1);
    }
}

/// Times in strictly ascending order.
spec fn rising(list: Seq<i64>) -> bool {
    forall|i: int, j: int| 0 <= i < j < list.len() ==> list[i] < list[j]
}

fn insert_time(list: &mut Vec<i64>, t: i64)
    requires
        rising(old(list)@),
    ensures
        rising(final(list)@),
        final(list)@.contains(t),
        forall|x: i64| old(list)@.contains(x) ==> final(list)@.contains(x),
        forall|i: int|
            0 <= i < final(list).len() ==> final(list)@[i] == t || old(list)@.contains(
                #[trigger] final(list)@[i],
            ),
{
    let ghost before = list@;
    let mut i: usize = list.len();
    while i > 0 && list[i - 1] > t
        invariant
            i <= list.len(),
            list@ == before,
            rising(before),
            forall|k: int| i <= k < list.len() ==> list@[k] > t,
        decreases i,
    {
        i -= 1;
    }
    if i > 0 && list[i - 1] == t {
        assert(list@.contains(t)) by {
            assert(list@[i - 1] == t);
        }
        return;
    }
    list.insert(i, t);
    proof {
        assert(list@[i as int] == t);
        assert forall|x: i64| before.contains(x) implies list@.contains(x) by {
            let k = choose|k: int| 0 <= k < before.len() && before[k] == x;
            if k < i {
                assert(list@[k] == x);
            } else {
                assert(list@[k + 1] == x);
            }
        }
        assert forall|k: int| 0 <= k < list.len() implies list@[k] == t || before.contains(
            #[trigger] list@[k],
        ) by {
            if k < i {
                assert(list@[k] == before[k]);
            } else if k > i {
                assert(list@[k] == before[k - 1]);
            }
        }
    }
}

/// The window of each candle.
fn windows_of(h1: &[Bar]) -> (r: Vec<i64>)
    requires
        timed(h1.deep_view()),
    ensures
        r.len() == h1.len(),
        forall|i: int|
            0 <= i < h1.len() ==> #[trigger] r@[i] == aligned(Timeframe::H4, h1@[i].ts as int),
        forall|i: int|
            0 <= i < h1.len() ==> h1@[i].ts - 33 * DAY_MS <= #[trigger] r@[i] <= h1@[i].ts,
{
    let mut out: Vec<i64> = Vec::new();
    let mut i: usize = 0;
    while i < h1.len()
        invariant
            i <= h1.len(),
            timed(h1.deep_view()),
            out.len() == i,
            forall|k: int|
                0 <= k < i ==> #[trigger] out@[k] == aligned(Timeframe::H4, h1@[k].ts as int),
            forall|k: int|
                0 <= k < i ==> h1@[k].ts - 33 * DAY_MS <= #[trigger] out@[k] <= h1@[k].ts,
        decreases h1.len() - i,
    {
        assert(far_from_limits(h1.deep_view()[i as int].ts as int));
        out.push(Timeframe::H4.boundary_align(h1[i].ts));
        i += 1;
    }
    out
}

/// The windows without repetition, in ascending order.
fn distinct_windows(windows: &Vec<i64>) -> (r: Vec<i64>)
    ensures
        rising(r@),
        forall|i: int| 0 <= i < windows.len() ==> r@.contains(#[trigger] windows@[i]),
        forall|i: int| 0 <= i < r.len() ==> windows@.contains(#[trigger] r@[i]),
{
    let mut out: Vec<i64> = Vec::new();
    let mut i: usize = 0;
    while i < windows.len()
        invariant
            i <= windows.len(),
            rising(out@),
            forall|k: int| 0 <= k < i ==> out@.contains(#[trigger] windows@[k]),
            forall|k: int| 0 <= k < out.len() ==> windows@.contains(#[trigger] out@[k]),
        decreases windows.len() - i,
    {
        insert_time(&mut out, windows[i]);
        i += 1;
    }
    out
}

/// What a scan of one window finds.
struct WindowScan {
    count: usize,
    high: i64,
    low: i64,
    volume: i128,
}

fn scan_window(h1: &[Bar], windows: &Vec<i64>, window: i64) -> (r: WindowScan)
    requires
        summable(h1.deep_view()),
        windows.len() == h1.len(),
        forall|i: int|
            0 <= i < h1.len() ==> #[trigger] windows@[i] == aligned(
                Timeframe::H4,
                h1@[i].ts as int,
            ),
    ensures
        r.count == children(h1.deep_view(), window as int),
        r.high == window_high(h1.deep_view(), window as int),
        r.low == window_low(h1.deep_view(), window as int),
        r.count <= 1_000 ==> r.volume == window_volume(h1.deep_view(), window as int),
{
    let mut count: usize = 0;
    let mut high: i64 = i64::MIN;
    let mut low: i64 = i64::MAX;
    let mut volume: i128 = 0;
    let mut i: usize = 0;
    assert(h1.deep_view().take(0) =~= Seq::<BarModel>::empty());
    while i < h1.len()
        invariant
            summable(h1.deep_view()),
            i <= h1.len(),
            count <= i,
            windows.len() == h1.len(),
            forall|k: int|
                0 <= k < h1.len() ==> #[trigger] windows@[k] == aligned(
                    Timeframe::H4,
                    h1@[k].ts as int,
                ),
            count == children(h1.deep_view().take(i as int), window as int),
            high == window_high(h1.deep_view().take(i as int), window as int),
            low == window_low(h1.deep_view().take(i as int), window as int),
            count <= 1_000 ==> volume == window_volume(h1.deep_view().take(i as int), window as int)
                && within(volume as int, count * VOLUME_LIMIT),
        decreases h1.len() - i,
    {
        proof {
            let now = h1.deep_view().take(i + 1);
            assert(now.drop_last() =~= h1.deep_view().take(i as int));
            assert(now.last() == h1@[i as int]@);
            assert(windows@[i as int] == aligned(Timeframe::H4, h1@[i as int].ts as int));
        }
        if windows[i] == window {
            if h1[i].high > high {
                high = h1[i].high;
            }
            if h1[i].low < low {
                low = h1[i].low;
            }
            if count < 1_000 {
                volume = volume + h1[i].volume;
            }
            count += 1;
        }
        i += 1;
    }
    assert(h1.deep_view().take(h1.len() as int) =~= h1.deep_view());
    WindowScan { count, high, low, volume }
}

fn find_hour(h1: &[Bar], windows: &Vec<i64>, window: i64, ts: i64) -> (r: Option<usize>)
    requires
        windows.len() == h1.len(),
        forall|i: int|
            0 <= i < h1.len() ==> #[trigger] windows@[i] == aligned(
                Timeframe::H4,
                h1@[i].ts as int,
            ),
    ensures
        r is Some <==> has_hour(h1.deep_view(), window as int, ts),
        r matches Some(i) ==> i < h1.len() && h1@[i as int]@ == hour_at(
            h1.deep_view(),
            window as int,
            ts,
        ) && in_window(h1@[i as int]@, window as int) && h1@[i as int].ts == ts,
{
    let mut i: usize = 0;
    while i < h1.len()
        invariant
            i <= h1.len(),
            windows.len() == h1.len(),
            forall|k: int|
                0 <= k < h1.len() ==> #[trigger] windows@[k] == aligned(
                    Timeframe::H4,
                    h1@[k].ts as int,
                ),
            forall|k: int|
                0 <= k < i ==> !(in_window(#[trigger] h1.deep_view()[k], window as int)
                    && h1.deep_view()[k].ts == ts),
        decreases h1.len() - i,
    {
        assert(windows@[i as int] == aligned(Timeframe::H4, h1@[i as int].ts as int));
        assert(h1.deep_view()[i as int] == h1@[i as int]@);
        if windows[i] == window && h1[i].ts == ts {
            proof {
                lemma_first_hour(h1.deep_view(), window as int, ts, i as int);
            }
            return Some(i);
        }
        i += 1;
    }
    None
}

/// There are at most as many expected hours as hours between the boundaries.
proof fn lemma_open_points_len(symbol: Seq<char>, start: int, step: int, n: nat)
    ensures
        open_points(symbol, start, step, n).len() <= n,
    decreases n,
{
    if n > 0 {
        lemma_open_points_len(symbol, start, step, (n - 1) as nat);
    }
}

fn has_every_hour(h1: &[Bar], windows: &Vec<i64>, window: i64, hours: &Vec<i64>) -> (r: bool)
    requires
        windows.len() == h1.len(),
        forall|i: int|
            0 <= i < h1.len() ==> #[trigger] windows@[i] == aligned(
                Timeframe::H4,
                h1@[i].ts as int,
            ),
    ensures
        r == forall|i: int|
            0 <= i < hours.len() ==> has_hour(h1.deep_view(), window as int, #[trigger] hours@[i]),
{
    let mut i: usize = 0;
    while i < hours.len()
        invariant
            i <= hours.len(),
            windows.len() == h1.len(),
            forall|k: int|
                0 <= k < h1.len() ==> #[trigger] windows@[k] == aligned(
                    Timeframe::H4,
                    h1@[k].ts as int,
                ),
            forall|k: int|
                0 <= k < i ==> has_hour(h1.deep_view(), window as int, #[trigger] hours@[k]),
        decreases hours.len() - i,
    {
        if find_hour(h1, windows, window, hours[i]).is_none() {
            return false;
        }
        i += 1;
    }
    true
}

/// Builds the candle of one window where the window is complete.
fn build_window(
    h1: &[Bar],
    windows: &Vec<i64>,
    symbol: &str,
    now_ms: i64,
    window: i64,
) -> (r: Option<Bar>)
    requires
        summable(h1.deep_view()),
        windows.len() == h1.len(),
        forall|i: int|
            0 <= i < h1.len() ==> #[trigger] windows@[i] == aligned(
                Timeframe::H4,
                h1@[i].ts as int,
            ),
        on_clock(window as int),
        on_clock(window + CLOCK_MARGIN_MS),
    ensures
        r is Some <==> complete(h1.deep_view(), symbol@, now_ms as int, window as int),
        r matches Some(b) ==> b@ == h4_bar(h1.deep_view(), symbol@, window as int),
{
    let next: i64 = next_window_boundary(Timeframe::H4, window);
    if next > now_ms {
        return None;
    }
    let hours = expected_market_bar_opens(symbol, Timeframe::H1, window, next);
    if hours.len() == 0 {
        return None;
    }
    let scan = scan_window(h1, windows, window);
    if scan.count != hours.len() {
        return None;
    }
    if !has_every_hour(h1, windows, window, &hours) {
        return None;
    }
    proof {
        reveal(expected_opens);
        lemma_open_points_len(
            symbol@,
            window as int,
            3_600_000,
            ((next - window) / 3_600_000) as nat,
        );
        assert(hours@[0] == hours@.first());
        assert(hours@[hours.len() - 1] == hours@.last());
        assert(has_hour(h1.deep_view(), window as int, hours@[0]));
        assert(has_hour(h1.deep_view(), window as int, hours@[hours.len() - 1]));
    }
    let first = find_hour(h1, windows, window, hours[0]);
    let last = find_hour(h1, windows, window, hours[hours.len() - 1]);
    match (first, last) {
        (Some(f), Some(l)) => Some(
            Bar {
                symbol: owned(symbol),
                tf: Timeframe::H4,
                ts: window,
                open: h1[f].open,
                high: scan.high,
                low: scan.low,
                close: h1[l].close,
                volume: scan.volume,
            },
        ),
        _ => None,
    }
}

/// A complete window is the window of some candle.
proof fn lemma_complete_is_known(h1: Seq<BarModel>, symbol: Seq<char>, now: int, window: int)
    requires
        complete(h1, symbol, now, window),
    ensures
        exists|i: int| 0 <= i < h1.len() && in_window(#[trigger] h1[i], window),
{
    let hours = expected_hours(symbol, window);
    assert(has_hour(h1, window, hours[0]));
}

/// The list holds the candles of the complete windows, oldest first.
pub open spec fn rebuilt(h1: Seq<BarModel>, symbol: Seq<char>, now: int, r: Seq<BarModel>) -> bool {
    &&& ascending(r)
    &&& forall|i: int|
        0 <= i < r.len() ==> complete(h1, symbol, now, (#[trigger] r[i]).ts as int) && r[i]
            == h4_bar(h1, symbol, r[i].ts as int)
    &&& forall|window: int|
        complete(h1, symbol, now, window) ==> #[trigger] opens_at(r, window)
}

/// Rebuilds four-hour candles from one-hour candles in any order. Only
/// windows that are over and hold exactly the expected hours are in the
/// result, oldest first; the open window is left to the live aggregator.
pub fn aggregate_h4_from_h1(h1: &[Bar], symbol: &str, now_ms: i64) -> (r: Vec<Bar>)
    requires
        summable(h1.deep_view()),
        timed(h1.deep_view()),
    ensures
        rebuilt(h1.deep_view(), symbol@, now_ms as int, r.deep_view()),
{
    let windows = windows_of(h1);
    let distinct = distinct_windows(&windows);
    let mut out: Vec<Bar> = Vec::new();
    let mut i: usize = 0;
    while i < distinct.len()
        invariant
            summable(h1.deep_view()),
            i <= distinct.len(),
            timed(h1.deep_view()),
            windows.len() == h1.len(),
            forall|k: int|
                0 <= k < h1.len() ==> #[trigger] windows@[k] == aligned(
                    Timeframe::H4,
                    h1@[k].ts as int,
                ),
            forall|k: int|
                0 <= k < h1.len() ==> h1@[k].ts - 33 * DAY_MS <= #[trigger] windows@[k]
                    <= h1@[k].ts,
            rising(distinct@),
            forall|k: int| 0 <= k < distinct.len() ==> windows@.contains(#[trigger] distinct@[k]),
            ascending(out.deep_view()),
            i < distinct.len() ==> forall|k: int|
                0 <= k < out.len() ==> (#[trigger] out@[k]).ts < distinct@[i as int],
            forall|k: int|
                0 <= k < out.len() ==> complete(
                    h1.deep_view(),
                    symbol@,
                    now_ms as int,
                    (#[trigger] out@[k]).ts as int,
                ) && out@[k]@ == h4_bar(h1.deep_view(), symbol@, out@[k].ts as int),
            forall|k: int|
                0 <= k < i && complete(
                    h1.deep_view(),
                    symbol@,
                    now_ms as int,
                    #[trigger] distinct@[k] as int,
                ) ==> opens_at(out.deep_view(), distinct@[k] as int),
        decreases distinct.len() - i,
    {
        let window: i64 = distinct[i];
        proof {
            assert(windows@.contains(distinct@[i as int]));
            let k = choose|k: int| 0 <= k < windows.len() && windows@[k] == window;
            assert(far_from_limits(h1.deep_view()[k].ts as int));
        }
        let ghost before = out.deep_view();
        match build_window(h1, &windows, symbol, now_ms, window) {
            Some(bar) => {
                out.push(bar);
                proof {
                    assert(out.deep_view() =~= before.push(bar@));
                    assert(out.deep_view()[out.len() - 1].ts == window);
                    assert forall|k: int|
                        0 <= k < i && complete(
                            h1.deep_view(),
                            symbol@,
                            now_ms as int,
                            #[trigger] distinct@[k] as int,
                        ) implies opens_at(out.deep_view(), distinct@[k] as int) by {
                        let j = choose|j: int|
                            0 <= j < before.len() && (#[trigger] before[j]).ts == distinct@[k];
                        assert(out.deep_view()[j] == before[j]);
                    }
                }
            },
            None => {},
        }
        i += 1;
    }
    proof {
        assert forall|window: int|
            complete(h1.deep_view(), symbol@, now_ms as int, window) implies #[trigger] opens_at(
            out.deep_view(),
            window,
        ) by {
            lemma_complete_is_known(h1.deep_view(), symbol@, now_ms as int, window);
            let k = choose|k: int|
                0 <= k < h1.deep_view().len() && in_window(#[trigger] h1.deep_view()[k], window);
            assert(windows@[k] == window);
            assert(distinct@.contains(windows@[k]));
        }
        assert forall|i: int| 0 <= i < out.deep_view().len() implies complete(
            h1.deep_view(),
            symbol@,
            now_ms as int,
            (#[trigger] out.deep_view()[i]).ts as int,
        ) && out.deep_view()[i] == h4_bar(
            h1.deep_view(),
            symbol@,
            out.deep_view()[i].ts as int,
        ) by {
            assert(out.deep_view()[i] == out@[i]@);
        }
    }
    out
}

/// The window should hold hours, and the candles that it holds do not open at
/// exactly those times.
pub open spec fn hole_at(h1: Seq<BarModel>, symbol: Seq<char>, window: int) -> bool {
    let hours = expected_hours(symbol, window);
    hours.len() > 0 && !((forall|j: int|
        0 <= j < h1.len() && in_window(#[trigger] h1[j], window) ==> hours.contains(h1[j].ts))
        && (forall|i: int| 0 <= i < hours.len() ==> has_hour(h1, window, #[trigger] hours[i])))
}

/// A bounded query commonly starts inside its first window; that window counts
/// only where its first expected hour is the oldest candle.
pub open spec fn auditable(symbol: Seq<char>, oldest: int, window: int) -> bool {
    let hours = expected_hours(symbol, window);
    window != aligned(Timeframe::H4, oldest) || (hours.len() > 0 && hours.first() == oldest)
}

/// Some auditable window from `window` up to `last` that is over has a hole.
pub open spec fn hole_between(
    h1: Seq<BarModel>,
    symbol: Seq<char>,
    now: int,
    oldest: int,
    window: int,
    last: int,
) -> bool
    decreases last - window + 1,
{
    let next = next_boundary(Timeframe::H4, window);
    if window > last || next > now {
        false
    } else if auditable(symbol, oldest, window) && hole_at(h1, symbol, window) {
        true
    } else if next <= window || next > last {
        false
    } else {
        hole_between(h1, symbol, now, oldest, next, last)
    }
}

/// Earliest open time.
pub open spec fn oldest_ts(bars: Seq<BarModel>) -> int
    decreases bars.len(),
{
    if bars.len() == 0 {
        i64::MAX as int
    } else {
        let before = oldest_ts(bars.drop_last());
        if bars.last().ts < before {
            bars.last().ts as int
        } else {
            before
        }
    }
}

/// Latest open time.
pub open spec fn newest_ts(bars: Seq<BarModel>) -> int
    decreases bars.len(),
{
    if bars.len() == 0 {
        i64::MIN as int
    } else {
        let before = newest_ts(bars.drop_last());
        if bars.last().ts > before {
            bars.last().ts as int
        } else {
            before
        }
    }
}

fn time_span(bars: &[Bar]) -> (r: (i64, i64))
    requires
        bars.len() > 0,
        timed(bars.deep_view()),
    ensures
        r.0 == oldest_ts(bars.deep_view()),
        r.1 == newest_ts(bars.deep_view()),
        far_from_limits(r.0 as int),
        far_from_limits(r.1 as int),
        forall|k: int| 0 <= k < bars.len() ==> r.0 <= (#[trigger] bars@[k]).ts <= r.1,
{
    let mut oldest: i64 = i64::MAX;
    let mut newest: i64 = i64::MIN;
    let mut i: usize = 0;
    assert(bars.deep_view().take(0) =~= Seq::<BarModel>::empty());
    while i < bars.len()
        invariant
            i <= bars.len(),
            timed(bars.deep_view()),
            oldest == oldest_ts(bars.deep_view().take(i as int)),
            newest == newest_ts(bars.deep_view().take(i as int)),
            i > 0 ==> far_from_limits(oldest as int) && far_from_limits(newest as int),
            forall|k: int| 0 <= k < i ==> oldest <= (#[trigger] bars@[k]).ts <= newest,
        decreases bars.len() - i,
    {
        proof {
            let now = bars.deep_view().take(i + 1);
            assert(now.drop_last() =~= bars.deep_view().take(i as int));
            assert(now.last() == bars@[i as int]@);
            assert(far_from_limits(bars.deep_view()[i as int].ts as int));
        }
        if bars[i].ts < oldest {
            oldest = bars[i].ts;
        }
        if bars[i].ts > newest {
            newest = bars[i].ts;
        }
        i += 1;
    }
    assert(bars.deep_view().take(bars.len() as int) =~= bars.deep_view());
    (oldest, newest)
}

fn times_have(list: &Vec<i64>, t: i64) -> (r: bool)
    ensures
        r == list@.contains(t),
{
    let mut i: usize = 0;
    while i < list.len()
        invariant
            i <= list.len(),
            forall|k: int| 0 <= k < i ==> list@[k] != t,
        decreases list.len() - i,
    {
        if list[i] == t {
            return true;
        }
        i += 1;
    }
    false
}

/// Whether every candle of the window opens at one of the hours.
fn only_expected(h1: &[Bar], windows: &Vec<i64>, window: i64, hours: &Vec<i64>) -> (r: bool)
    requires
        windows.len() == h1.len(),
        forall|i: int|
            0 <= i < h1.len() ==> #[trigger] windows@[i] == aligned(
                Timeframe::H4,
                h1@[i].ts as int,
            ),
    ensures
        r == forall|j: int|
            0 <= j < h1.len() && in_window(#[trigger] h1.deep_view()[j], window as int)
                ==> hours@.contains(h1.deep_view()[j].ts),
{
    let mut i: usize = 0;
    while i < h1.len()
        invariant
            i <= h1.len(),
            windows.len() == h1.len(),
            forall|k: int|
                0 <= k < h1.len() ==> #[trigger] windows@[k] == aligned(
                    Timeframe::H4,
                    h1@[k].ts as int,
                ),
            forall|j: int|
                0 <= j < i && in_window(#[trigger] h1.deep_view()[j], window as int)
                    ==> hours@.contains(h1.deep_view()[j].ts),
        decreases h1.len() - i,
    {
        assert(windows@[i as int] == aligned(Timeframe::H4, h1@[i as int].ts as int));
        assert(h1.deep_view()[i as int] == h1@[i as int]@);
        if windows[i] == window && !times_have(hours, h1[i].ts) {
            return false;
        }
        i += 1;
    }
    true
}

/// Whether an auditable window has a hole.
fn window_has_hole(
    h1: &[Bar],
    windows: &Vec<i64>,
    symbol: &str,
    oldest: i64,
    first_window: i64,
    window: i64,
    next: i64,
) -> (r: bool)
    requires
        windows.len() == h1.len(),
        forall|i: int|
            0 <= i < h1.len() ==> #[trigger] windows@[i] == aligned(
                Timeframe::H4,
                h1@[i].ts as int,
            ),
        first_window == aligned(Timeframe::H4, oldest as int),
        next == next_boundary(Timeframe::H4, window as int),
        next - window <= i64::MAX,
    ensures
        r == (auditable(symbol@, oldest as int, window as int) && hole_at(
            h1.deep_view(),
            symbol@,
            window as int,
        )),
{
    let hours = expected_market_bar_opens(symbol, Timeframe::H1, window, next);
    if hours.len() == 0 {
        return false;
    }
    assert(hours@[0] == hours@.first());
    if window == first_window && hours[0] != oldest {
        return false;
    }
    !(only_expected(h1, windows, window, &hours) && has_every_hour(h1, windows, window, &hours))
}

/// An auditable window between the oldest and the newest candle that is over has a
/// hole.
pub open spec fn incomplete(h1: Seq<BarModel>, symbol: Seq<char>, now: int) -> bool {
    h1.len() >= 2 && hole_between(
        h1,
        symbol,
        now,
        oldest_ts(h1),
        aligned(Timeframe::H4, oldest_ts(h1)),
        aligned(Timeframe::H4, newest_ts(h1)),
    )
}

/// The clock reads as it is trusted to wherever a search for holes from `window` on
/// looks.
pub open spec fn looked_through(
    h1: Seq<BarModel>,
    symbol: Seq<char>,
    now: int,
    oldest: int,
    window: int,
    last: int,
) -> bool
    decreases last - window + 1,
{
    let next = next_boundary(Timeframe::H4, window);
    window > last || (searched(Timeframe::H4, window) && (next > now || (auditable(
        symbol,
        oldest,
        window,
    ) && hole_at(h1, symbol, window)) || next <= window || next > last || looked_through(
        h1,
        symbol,
        now,
        oldest,
        next,
        last,
    )))
}

/// The clock reads as it is trusted to wherever the answer of [`incomplete`] rests on
/// it.
pub open spec fn audited(h1: Seq<BarModel>, symbol: Seq<char>, now: int) -> bool {
    &&& surveyed(Timeframe::H4, oldest_ts(h1))
    &&& surveyed(Timeframe::H4, newest_ts(h1))
    &&& looked_through(
        h1,
        symbol,
        now,
        oldest_ts(h1),
        aligned(Timeframe::H4, oldest_ts(h1)),
        aligned(Timeframe::H4, newest_ts(h1)),
    )
}

/// Whether the one-hour candles skip an hour of a window that is over. The
/// partial left edge of a bounded query is no evidence of a hole.
pub fn has_incomplete_h4_window(h1: &[Bar], symbol: &str, now_ms: i64) -> (r: bool)
    requires
        timed(h1.deep_view()),
    ensures
        r == incomplete(h1.deep_view(), symbol@, now_ms as int),
        h1.len() >= 2 ==> audited(h1.deep_view(), symbol@, now_ms as int),
{
    if h1.len() < 2 {
        return false;
    }
    let windows = windows_of(h1);
    let span = time_span(h1);
    let oldest: i64 = span.0;
    let first_window: i64 = Timeframe::H4.boundary_align(oldest);
    let last_window: i64 = Timeframe::H4.boundary_align(span.1);
    let ghost goal = hole_between(
        h1.deep_view(),
        symbol@,
        now_ms as int,
        oldest as int,
        first_window as int,
        last_window as int,
    );
    let ghost read = looked_through(
        h1.deep_view(),
        symbol@,
        now_ms as int,
        oldest as int,
        first_window as int,
        last_window as int,
    );
    let mut window: i64 = first_window;
    while window <= last_window
        invariant
            first_window == aligned(Timeframe::H4, oldest as int),
            on_clock(first_window as int),
            on_clock(last_window + CLOCK_MARGIN_MS),
            first_window <= window,
            windows.len() == h1.len(),
            forall|k: int|
                0 <= k < h1.len() ==> #[trigger] windows@[k] == aligned(
                    Timeframe::H4,
                    h1@[k].ts as int,
                ),
            h1.len() >= 2,
            oldest == oldest_ts(h1.deep_view()),
            last_window == aligned(Timeframe::H4, newest_ts(h1.deep_view())),
            goal == hole_between(
                h1.deep_view(),
                symbol@,
                now_ms as int,
                oldest as int,
                first_window as int,
                last_window as int,
            ),
            goal == hole_between(
                h1.deep_view(),
                symbol@,
                now_ms as int,
                oldest as int,
                window as int,
                last_window as int,
            ),
            read == looked_through(
                h1.deep_view(),
                symbol@,
                now_ms as int,
                oldest as int,
                first_window as int,
                last_window as int,
            ),
            looked_through(
                h1.deep_view(),
                symbol@,
                now_ms as int,
                oldest as int,
                window as int,
                last_window as int,
            ) ==> read,
            surveyed(Timeframe::H4, oldest as int),
            surveyed(Timeframe::H4, newest_ts(h1.deep_view())),
        decreases last_window - window + 1,
    {
        let next: i64 = next_window_boundary(Timeframe::H4, window);
        if next > now_ms {
            return false;
        }
        if window_has_hole(h1, &windows, symbol, oldest, first_window, window, next) {
            return true;
        }
        if next <= window || next > last_window {
            return false;
        }
        window = next;
    }
    false
}

/// Distance between two prices.
pub open spec fn price_gap(a: int, b: int) -> int {
    if a < b {
        b - a
    } else {
        a - b
    }
}

/// Size of a price without its sign.
pub open spec fn magnitude(a: int) -> int {
    if a < 0 {
        -a
    } else {
        a
    }
}

/// Prices that agree to one part in a billion of the larger one, or of one
/// whole unit where both are smaller.
pub open spec fn same_price(a: int, b: int) -> bool {
    let largest = if magnitude(a) < magnitude(b) {
        magnitude(b)
    } else {
        magnitude(a)
    };
    let scale = if largest < PRICE_SCALE {
        PRICE_SCALE as int
    } else {
        largest
    };
    price_gap(a, b) * PRICE_SCALE <= scale
}

/// Whether two prices agree up to rounding.
pub fn prices_match(a: i64, b: i64) -> (r: bool)
    ensures
        r == same_price(a as int, b as int),
{
    let x: i128 = a as i128;
    let y: i128 = b as i128;
    let gap: i128 = if x < y { y - x } else { x - y };
    let ax: i128 = if x < 0 { -x } else { x };
    let ay: i128 = if y < 0 { -y } else { y };
    let largest: i128 = if ax < ay { ay } else { ax };
    let scale: i128 = if largest < 1_000_000_000 { 1_000_000_000 } else { largest };
    gap * 1_000_000_000 <= scale
}

/// A provider candle agrees with the one-hour candles of its window: they are
/// all expected, their range is inside its range, and where the first or the
/// last hour is there its open or close is the same.
pub open spec fn native_agrees(
    native: BarModel,
    h1: Seq<BarModel>,
    window: int,
    hours: Seq<i64>,
) -> bool {
    &&& children(h1, window) > 0
    &&& hours.len() > 0
    &&& forall|j: int|
        0 <= j < h1.len() && in_window(#[trigger] h1[j], window) ==> hours.contains(h1[j].ts)
    &&& native.high + 1 >= window_high(h1, window)
    &&& native.low - 1 <= window_low(h1, window)
    &&& has_hour(h1, window, hours.first()) ==> same_price(
        native.open as int,
        hour_at(h1, window, hours.first()).open as int,
    )
    &&& has_hour(h1, window, hours.last()) ==> same_price(
        native.close as int,
        hour_at(h1, window, hours.last()).close as int,
    )
}

/// A provider candle that may stand in for its window: on the canonical grid,
/// over, with hours missing, and in agreement with the hours that are there.
pub open spec fn native_usable(
    h1: Seq<BarModel>,
    symbol: Seq<char>,
    now: int,
    native: BarModel,
) -> bool {
    let window = native.ts as int;
    &&& native.tf is H4
    &&& aligned(Timeframe::H4, window) == window
    &&& next_boundary(Timeframe::H4, window) <= now
    &&& children(h1, window) < expected_hours(symbol, window).len()
    &&& native_agrees(native, h1, window, expected_hours(symbol, window))
}

/// Position `k` holds the first usable provider candle of its window.
pub open spec fn first_usable(
    h1: Seq<BarModel>,
    symbol: Seq<char>,
    now: int,
    natives: Seq<BarModel>,
    k: int,
) -> bool {
    &&& 0 <= k < natives.len()
    &&& native_usable(h1, symbol, now, natives[k])
    &&& forall|j: int|
        0 <= j < k && (#[trigger] natives[j]).ts == natives[k].ts ==> !native_usable(
            h1,
            symbol,
            now,
            natives[j],
        )
}

fn native_h4_matches_available_h1(
    native: &Bar,
    h1: &[Bar],
    windows: &Vec<i64>,
    hours: &Vec<i64>,
) -> (r: bool)
    requires
        summable(h1.deep_view()),
        windows.len() == h1.len(),
        forall|i: int|
            0 <= i < h1.len() ==> #[trigger] windows@[i] == aligned(
                Timeframe::H4,
                h1@[i].ts as int,
            ),
    ensures
        r == native_agrees(native@, h1.deep_view(), native.ts as int, hours@),
{
    let window: i64 = native.ts;
    let scan = scan_window(h1, windows, window);
    if scan.count == 0 || hours.len() == 0 {
        return false;
    }
    if !only_expected(h1, windows, window, hours) {
        return false;
    }
    if native.high as i128 + 1 < scan.high as i128 || native.low as i128 - 1 > scan.low as i128 {
        return false;
    }
    assert(hours@[0] == hours@.first());
    assert(hours@[hours.len() - 1] == hours@.last());
    match find_hour(h1, windows, window, hours[0]) {
        Some(i) => {
            if !prices_match(native.open, h1[i].open) {
                return false;
            }
        },
        None => {},
    }
    match find_hour(h1, windows, window, hours[hours.len() - 1]) {
        Some(i) => {
            if !prices_match(native.close, h1[i].close) {
                return false;
            }
        },
        None => {},
    }
    true
}

fn is_native_usable(
    h1: &[Bar],
    windows: &Vec<i64>,
    symbol: &str,
    now_ms: i64,
    native: &Bar,
) -> (r: bool)
    requires
        summable(h1.deep_view()),
        windows.len() == h1.len(),
        forall|i: int|
            0 <= i < h1.len() ==> #[trigger] windows@[i] == aligned(
                Timeframe::H4,
                h1@[i].ts as int,
            ),
        far_from_limits(native.ts as int),
    ensures
        r == native_usable(h1.deep_view(), symbol@, now_ms as int, native@),
{
    let window: i64 = native.ts;
    if native.tf != Timeframe::H4 || Timeframe::H4.boundary_align(window) != window {
        return false;
    }
    let next: i64 = next_window_boundary(Timeframe::H4, window);
    if next > now_ms {
        return false;
    }
    let hours = expected_market_bar_opens(symbol, Timeframe::H1, window, next);
    let scan = scan_window(h1, windows, window);
    if scan.count >= hours.len() {
        return false;
    }
    native_h4_matches_available_h1(native, h1, windows, &hours)
}

/// A complete window has no missing hour, so no provider candle is usable in
/// it.
pub proof fn law_native_never_overrides_hours(
    h1: Seq<BarModel>,
    symbol: Seq<char>,
    now: int,
    native: BarModel,
)
    ensures
        complete(h1, symbol, now, native.ts as int) ==> !native_usable(h1, symbol, now, native),
{
}

fn insert_bar(bars: &mut Vec<Bar>, bar: Bar)
    requires
        ascending(old(bars).deep_view()),
        !opens_at(old(bars).deep_view(), bar.ts as int),
    ensures
        ascending(final(bars).deep_view()),
        exists|p: int|
            0 <= p <= old(bars).len() && final(bars).deep_view() == #[trigger] old(
                bars,
            ).deep_view().insert(p, bar@),
{
    let ghost before = bars.deep_view();
    let mut i: usize = bars.len();
    while i > 0 && bars[i - 1].ts > bar.ts
        invariant
            i <= bars.len(),
            bars.deep_view() == before,
            ascending(before),
            forall|k: int| i <= k < bars.len() ==> before[k].ts > bar.ts,
        decreases i,
    {
        assert(before[i - 1] == bars@[i - 1]@);
        i -= 1;
    }
    proof {
        if i > 0 {
            assert(before[i - 1] == bars@[i - 1]@);
            assert(before[i - 1].ts != bar.ts);
            assert(before[i - 1].ts < bar.ts);
        }
    }
    bars.insert(i, bar);
    assert(bars.deep_view() =~= before.insert(i as int, bar@));
}

fn has_open(bars: &Vec<Bar>, window: i64) -> (r: bool)
    ensures
        r == opens_at(bars.deep_view(), window as int),
{
    let mut i: usize = 0;
    while i < bars.len()
        invariant
            i <= bars.len(),
            forall|k: int| 0 <= k < i ==> (#[trigger] bars.deep_view()[k]).ts != window,
        decreases bars.len() - i,
    {
        assert(bars.deep_view()[i as int] == bars@[i as int]@);
        if bars[i].ts == window {
            return true;
        }
        i += 1;
    }
    false
}

/// What the result holds for a candle: a rebuilt window, or the first usable
/// provider candle among the first `n` for a window that cannot be rebuilt.
pub open spec fn rightly_there(
    h1: Seq<BarModel>,
    symbol: Seq<char>,
    now: int,
    natives: Seq<BarModel>,
    n: int,
    bar: BarModel,
) -> bool {
    if complete(h1, symbol, now, bar.ts as int) {
        bar == h4_bar(h1, symbol, bar.ts as int)
    } else {
        exists|k: int|
            0 <= k < n && #[trigger] first_usable(h1, symbol, now, natives, k) && bar == natives[k]
    }
}

/// The list holds, oldest first, the candles of the complete windows and the first
/// usable provider candle of every other window that has one.
pub open spec fn canonical_rows(
    h1: Seq<BarModel>,
    natives: Seq<BarModel>,
    symbol: Seq<char>,
    now: int,
    r: Seq<BarModel>,
) -> bool {
    &&& ascending(r)
    &&& forall|i: int|
        0 <= i < r.len() ==> rightly_there(
            h1,
            symbol,
            now,
            natives,
            natives.len() as int,
            #[trigger] r[i],
        )
    &&& forall|window: int|
        complete(h1, symbol, now, window) ==> #[trigger] opens_at(r, window)
    &&& forall|k: int|
        0 <= k < natives.len() && native_usable(h1, symbol, now, #[trigger] natives[k])
            ==> opens_at(r, natives[k].ts as int)
}

/// Rebuilds four-hour candles and lets provider candles stand in for windows
/// whose hours are incomplete. A provider candle must sit on the canonical
/// grid and agree with every hour that is there.
pub fn aggregate_h4_with_native_fallback(
    h1: &[Bar],
    native_h4: &[Bar],
    symbol: &str,
    now_ms: i64,
) -> (r: Vec<Bar>)
    requires
        summable(h1.deep_view()),
        timed(h1.deep_view()),
        timed(native_h4.deep_view()),
    ensures
        canonical_rows(
            h1.deep_view(),
            native_h4.deep_view(),
            symbol@,
            now_ms as int,
            r.deep_view(),
        ),
{
    let mut out = aggregate_h4_from_h1(h1, symbol, now_ms);
    let windows = windows_of(h1);
    let ghost hs = h1.deep_view();
    let ghost ns = native_h4.deep_view();
    let ghost now = now_ms as int;
    proof {
        assert forall|i: int| 0 <= i < out.len() implies rightly_there(
            hs,
            symbol@,
            now,
            ns,
            0,
            #[trigger] out.deep_view()[i],
        ) by {
            assert(out.deep_view()[i] == out@[i]@);
        }
    }
    let mut n: usize = 0;
    while n < native_h4.len()
        invariant
            summable(h1.deep_view()),
            n <= native_h4.len(),
            hs == h1.deep_view(),
            ns == native_h4.deep_view(),
            now == now_ms,
            timed(ns),
            windows.len() == h1.len(),
            forall|k: int|
                0 <= k < h1.len() ==> #[trigger] windows@[k] == aligned(
                    Timeframe::H4,
                    h1@[k].ts as int,
                ),
            ascending(out.deep_view()),
            forall|i: int|
                0 <= i < out.len() ==> rightly_there(
                    hs,
                    symbol@,
                    now,
                    ns,
                    n as int,
                    #[trigger] out.deep_view()[i],
                ),
            forall|window: int|
                complete(hs, symbol@, now, window) ==> #[trigger] opens_at(out.deep_view(), window),
            forall|k: int|
                0 <= k < n && native_usable(hs, symbol@, now, #[trigger] ns[k]) ==> opens_at(
                    out.deep_view(),
                    ns[k].ts as int,
                ),
        decreases native_h4.len() - n,
    {
        let ghost before = out.deep_view();
        assert(ns[n as int] == native_h4@[n as int]@);
        assert(far_from_limits(ns[n as int].ts as int));
        let native = &native_h4[n];
        if !has_open(&out, native.ts) && is_native_usable(h1, &windows, symbol, now_ms, native) {
            insert_bar(&mut out, native.clone());
            proof {
                let after = out.deep_view();
                let p = choose|p: int|
                    0 <= p <= before.len() && after == #[trigger] before.insert(p, native@);
                assert(!complete(hs, symbol@, now, native.ts as int));
                assert(first_usable(hs, symbol@, now, ns, n as int));
                assert(after[p] == native@);
                assert forall|i: int| 0 <= i < after.len() implies rightly_there(
                    hs,
                    symbol@,
                    now,
                    ns,
                    n + 1,
                    #[trigger] after[i],
                ) by {
                    if i < p {
                        assert(after[i] == before[i]);
                    } else if i > p {
                        assert(after[i] == before[i - 1]);
                    }
                }
                assert forall|window: int| opens_at(before, window) implies #[trigger] opens_at(
                    after,
                    window,
                ) by {
                    let j = choose|j: int| 0 <= j < before.len() && (#[trigger] before[j]).ts == window;
                    if j < p {
                        assert(after[j] == before[j]);
                    } else {
                        assert(after[j + 1] == before[j]);
                    }
                }
            }
        } else {
            assert forall|i: int| 0 <= i < out.len() implies rightly_there(
                hs,
                symbol@,
                now,
                ns,
                n + 1,
                #[trigger] out.deep_view()[i],
            ) by {
                assert(rightly_there(hs, symbol@, now, ns, n as int, before[i]));
            }
        }
        n += 1;
    }
    out
}

} // verus!
