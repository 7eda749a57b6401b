//! What holds of rebuilt four-hour candles.
use vstd::prelude::*;
use crate::boundaries::{
    bracketed, law_candles_are_in_order, law_candles_leave_no_hole, lemma_openings_fit,
    lemma_surveyed, modern,
};
use crate::calendar::{
    aligned, expected_opens, next_boundary, open_points, searched, surveyed, CALENDAR_END_MS,
    DAY_MS,
};
use crate::h4::{
    ascending, auditable, audited, canonical_rows, children, complete, expected_hours, first_hour,
    first_usable, h4_bar, has_hour, hole_at, hole_between, hour_at, in_window, incomplete,
    looked_through, native_usable, newest_ts, oldest_ts, opens_at, rebuilt, rightly_there, same_price,
    window_high, window_low, window_volume,
};
use crate::types::{BarModel, Timeframe};

verus! {

/// Ascending lists of the same candles are equal.
pub proof fn lemma_ascending_lists_are_equal(a: Seq<BarModel>, b: Seq<BarModel>)
    requires
        ascending(a),
        ascending(b),
        forall|i: int| 0 <= i < a.len() ==> b.contains(#[trigger] a[i]),
        forall|i: int| 0 <= i < b.len() ==> a.contains(#[trigger] b[i]),
    ensures
        a == b,
    decreases a.len(),
{
    if a.len() == 0 {
        if b.len() > 0 {
            assert(a.contains(b[0]));
        }
        assert(a =~= b);
    } else {
        let m = a.len() - 1;
        assert(b.contains(a[m]));
        let n = b.len() - 1;
        assert(a.contains(b[n]));
        let j = choose|j: int| 0 <= j < b.len() && b[j] == a[m];
        let i = choose|i: int| 0 <= i < a.len() && a[i] == b[n];
        assert(i == m && j == n) by {
            if i < m {
                assert(a[i].ts < a[m].ts);
                if j < n {
                    assert(b[j].ts < b[n].ts);
                }
            }
            if j < n {
                assert(b[j].ts < b[n].ts);
            }
        }
        let x = a.drop_last();
        let y = b.drop_last();
        assert forall|k: int| 0 <= k < x.len() implies y.contains(#[trigger] x[k]) by {
            assert(b.contains(a[k]));
            let t = choose|t: int| 0 <= t < b.len() && b[t] == a[k];
            assert(a[k].ts < a[m].ts);
            assert(t < n);
            assert(y[t] == x[k]);
        }
        assert forall|k: int| 0 <= k < y.len() implies x.contains(#[trigger] y[k]) by {
            assert(a.contains(b[k]));
            let t = choose|t: int| 0 <= t < a.len() && a[t] == b[k];
            assert(b[k].ts < b[n].ts);
            assert(t < m);
            assert(x[t] == y[k]);
        }
        lemma_ascending_lists_are_equal(x, y);
        assert(x.push(a[m]) =~= a);
        assert(y.push(b[n]) =~= b);
    }
}

/// Taking one candle out of a list takes it out of its window.
proof fn lemma_taken_out(h1: Seq<BarModel>, window: int, k: int)
    requires
        0 <= k < h1.len(),
    ensures
        ({
            let rest = h1.remove(k);
            let inside = in_window(h1[k], window);
            &&& children(h1, window) == children(rest, window) + if inside {
                1nat
            } else {
                0nat
            }
            &&& window_volume(h1, window) == window_volume(rest, window) + if inside {
                h1[k].volume as int
            } else {
                0
            }
            &&& window_high(h1, window) == if inside && h1[k].high > window_high(rest, window) {
                h1[k].high as int
            } else {
                window_high(rest, window)
            }
            &&& window_low(h1, window) == if inside && h1[k].low < window_low(rest, window) {
                h1[k].low as int
            } else {
                window_low(rest, window)
            }
        }),
    decreases h1.len(),
{
    let rest = h1.remove(k);
    if k == h1.len() - 1 {
        assert(rest =~= h1.drop_last());
    } else {
        lemma_taken_out(h1.drop_last(), window, k);
        assert(rest.drop_last() =~= h1.drop_last().remove(k));
        assert(rest.last() == h1.last());
        assert(h1.drop_last()[k] == h1[k]);
    }
}

/// The order of a list does not matter to what its windows hold.
proof fn lemma_windows_in_any_order(a: Seq<BarModel>, b: Seq<BarModel>, window: int)
    requires
        a.to_multiset() == b.to_multiset(),
    ensures
        children(a, window) == children(b, window),
        window_volume(a, window) == window_volume(b, window),
        window_high(a, window) == window_high(b, window),
        window_low(a, window) == window_low(b, window),
    decreases a.len(),
{
    broadcast use vstd::seq_lib::group_to_multiset_ensures;

    assert(a.len() == a.to_multiset().len());
    assert(b.len() == b.to_multiset().len());
    if a.len() > 0 {
        let m = a.len() - 1;
        assert(a.contains(a[m]));
        assert(b.to_multiset().count(a[m]) > 0);
        assert(b.contains(a[m]));
        let k = choose|k: int| 0 <= k < b.len() && b[k] == a[m];
        assert(a.remove(m).to_multiset() == a.to_multiset().remove(a[m]));
        assert(b.remove(k).to_multiset() == b.to_multiset().remove(b[k]));
        lemma_taken_out(a, window, m);
        lemma_taken_out(b, window, k);
        lemma_windows_in_any_order(a.remove(m), b.remove(k), window);
    }
}

proof fn lemma_same_members(a: Seq<BarModel>, b: Seq<BarModel>)
    requires
        a.to_multiset() == b.to_multiset(),
    ensures
        forall|i: int| 0 <= i < a.len() ==> b.contains(#[trigger] a[i]),
{
    broadcast use vstd::seq_lib::group_to_multiset_ensures;

    assert forall|i: int| 0 <= i < a.len() implies b.contains(#[trigger] a[i]) by {
        assert(a.contains(a[i]));
        assert(b.to_multiset().count(a[i]) > 0);
    }
}

proof fn lemma_has_hour_moves(a: Seq<BarModel>, b: Seq<BarModel>, window: int, ts: i64)
    requires
        a.to_multiset() == b.to_multiset(),
        has_hour(a, window, ts),
    ensures
        has_hour(b, window, ts),
{
    lemma_same_members(a, b);
    let j = choose|j: int|
        0 <= j < a.len() && in_window(a[j], window) && (#[trigger] a[j]).ts == ts;
    assert(b.contains(a[j]));
    let k = choose|k: int| 0 <= k < b.len() && b[k] == a[j];
    assert(in_window(b[k], window) && b[k].ts == ts);
}

proof fn lemma_complete_moves(
    a: Seq<BarModel>,
    b: Seq<BarModel>,
    symbol: Seq<char>,
    now: int,
    window: int,
)
    requires
        a.to_multiset() == b.to_multiset(),
        complete(a, symbol, now, window),
    ensures
        complete(b, symbol, now, window),
{
    lemma_windows_in_any_order(a, b, window);
    let hours = expected_hours(symbol, window);
    assert forall|i: int| 0 <= i < hours.len() implies has_hour(
        b,
        window,
        #[trigger] hours[i],
    ) by {
        assert(has_hour(a, window, hours[i]));
        lemma_has_hour_moves(a, b, window, hours[i]);
    }
}

/// Times in strictly ascending order.
spec fn rising_times(list: Seq<i64>) -> bool {
    forall|i: int, j: int| 0 <= i < j < list.len() ==> list[i] < list[j]
}

proof fn lemma_points_rise(symbol: Seq<char>, start: int, step: int, n: nat)
    requires
        0 < step,
        i64::MIN <= start,
        start + n * step <= i64::MAX,
    ensures
        rising_times(open_points(symbol, start, step, n)),
        forall|i: int|
            0 <= i < open_points(symbol, start, step, n).len() ==> start <= #[trigger] open_points(
                symbol,
                start,
                step,
                n,
            )[i] < start + n * step,
    decreases n,
{
    if n > 0 {
        let m = (n - 1) as nat;
        assert(n * step == m * step + step) by (nonlinear_arith)
            requires
                n == m + 1,
        ;
        assert(0 <= m * step) by (nonlinear_arith)
            requires
                0 <= m,
                0 < step,
        ;
        lemma_points_rise(symbol, start, step, m);
    }
}

/// The expected hours of a window that is over come in order, each once.
proof fn lemma_hours_rise(symbol: Seq<char>, window: int, now: i64)
    requires
        i64::MIN <= window,
        next_boundary(Timeframe::H4, window) <= now,
    ensures
        rising_times(expected_hours(symbol, window)),
{
    reveal(expected_opens);
    let end = next_boundary(Timeframe::H4, window);
    let step = crate::types::duration(Timeframe::H1);
    if end > window && (end - window) % step == 0 {
        let n = (end - window) / step;
        vstd::arithmetic::div_mod::lemma_fundamental_div_mod(end - window, step);
        assert(n * step == end - window) by (nonlinear_arith)
            requires
                end - window == step * n,
        ;
        lemma_points_rise(symbol, window, step, n as nat);
    }
}

/// A window that holds every one of some different hours holds at least as many
/// candles.
proof fn lemma_enough_children(h1: Seq<BarModel>, window: int, hours: Seq<i64>)
    requires
        rising_times(hours),
        forall|i: int| 0 <= i < hours.len() ==> has_hour(h1, window, #[trigger] hours[i]),
    ensures
        children(h1, window) >= hours.len(),
    decreases hours.len(),
{
    if hours.len() > 0 {
        let m = hours.len() - 1;
        assert(has_hour(h1, window, hours[m]));
        let k = choose|k: int|
            0 <= k < h1.len() && in_window(h1[k], window) && (#[trigger] h1[k]).ts == hours[m];
        let rest = h1.remove(k);
        let fewer = hours.drop_last();
        lemma_taken_out(h1, window, k);
        assert forall|i: int| 0 <= i < fewer.len() implies has_hour(
            rest,
            window,
            #[trigger] fewer[i],
        ) by {
            assert(has_hour(h1, window, hours[i]));
            assert(hours[i] < hours[m]);
            lemma_hour_stays(h1, window, hours[i], k);
        }
        lemma_enough_children(rest, window, fewer);
    }
}

/// An hour stays when a candle of another time is taken out.
proof fn lemma_hour_stays(h1: Seq<BarModel>, window: int, ts: i64, k: int)
    requires
        0 <= k < h1.len(),
        exists|j: int|
            0 <= j < h1.len() && j != k && in_window(h1[j], window) && (#[trigger] h1[j]).ts == ts,
    ensures
        has_hour(h1.remove(k), window, ts),
{
    let j = choose|j: int|
        0 <= j < h1.len() && j != k && in_window(h1[j], window) && (#[trigger] h1[j]).ts == ts;
    let rest = h1.remove(k);
    let t = if j < k {
        j
    } else {
        j - 1
    };
    assert(rest[t] == h1[j]);
}

/// In a complete window every hour is there once.
proof fn lemma_one_of_each(
    h1: Seq<BarModel>,
    symbol: Seq<char>,
    now: i64,
    window: int,
    i: int,
    j: int,
)
    requires
        i64::MIN <= window,
        complete(h1, symbol, now as int, window),
        0 <= i < h1.len(),
        0 <= j < h1.len(),
        in_window(h1[i], window),
        in_window(h1[j], window),
        h1[i].ts == h1[j].ts,
    ensures
        i == j,
{
    let hours = expected_hours(symbol, window);
    lemma_hours_rise(symbol, window, now);
    if i != j {
        let rest = h1.remove(j);
        lemma_taken_out(h1, window, j);
        assert forall|k: int| 0 <= k < hours.len() implies has_hour(
            rest,
            window,
            #[trigger] hours[k],
        ) by {
            assert(has_hour(h1, window, hours[k]));
            let t = choose|t: int|
                0 <= t < h1.len() && in_window(h1[t], window) && (#[trigger] h1[t]).ts == hours[k];
            if t == j {
                assert(h1[i].ts == hours[k]);
            }
            lemma_hour_stays(h1, window, hours[k], j);
        }
        lemma_enough_children(rest, window, hours);
    }
}

proof fn lemma_first_hour_found(h1: Seq<BarModel>, window: int, ts: i64)
    requires
        has_hour(h1, window, ts),
    ensures
        0 <= first_hour(h1, window, ts) < h1.len(),
        in_window(hour_at(h1, window, ts), window),
        hour_at(h1, window, ts).ts == ts,
    decreases h1.len(),
{
    if !(in_window(h1[0], window) && h1[0].ts == ts) {
        let rest = h1.drop_first();
        let j = choose|j: int|
            0 <= j < h1.len() && in_window(h1[j], window) && (#[trigger] h1[j]).ts == ts;
        assert(rest[j - 1] == h1[j]);
        lemma_first_hour_found(rest, window, ts);
    }
}

proof fn lemma_hour_moves(
    a: Seq<BarModel>,
    b: Seq<BarModel>,
    symbol: Seq<char>,
    now: i64,
    window: int,
    ts: i64,
)
    requires
        a.to_multiset() == b.to_multiset(),
        i64::MIN <= window,
        complete(a, symbol, now as int, window),
        has_hour(a, window, ts),
    ensures
        hour_at(a, window, ts) == hour_at(b, window, ts),
{
    lemma_complete_moves(a, b, symbol, now as int, window);
    lemma_has_hour_moves(a, b, window, ts);
    lemma_first_hour_found(a, window, ts);
    lemma_first_hour_found(b, window, ts);
    lemma_same_members(a, b);
    let i = first_hour(a, window, ts);
    assert(b.contains(a[i]));
    let k = choose|k: int| 0 <= k < b.len() && b[k] == a[i];
    lemma_one_of_each(b, symbol, now, window, k, first_hour(b, window, ts));
}

proof fn lemma_bar_moves(
    a: Seq<BarModel>,
    b: Seq<BarModel>,
    symbol: Seq<char>,
    now: i64,
    window: int,
)
    requires
        a.to_multiset() == b.to_multiset(),
        i64::MIN <= window,
        complete(a, symbol, now as int, window),
    ensures
        h4_bar(a, symbol, window) == h4_bar(b, symbol, window),
{
    let hours = expected_hours(symbol, window);
    lemma_windows_in_any_order(a, b, window);
    assert(has_hour(a, window, hours[0]));
    assert(has_hour(a, window, hours[hours.len() - 1]));
    lemma_hour_moves(a, b, symbol, now, window, hours.first());
    lemma_hour_moves(a, b, symbol, now, window, hours.last());
}

proof fn lemma_rebuilt_is_shared(
    a: Seq<BarModel>,
    b: Seq<BarModel>,
    symbol: Seq<char>,
    now: i64,
    x: Seq<BarModel>,
    y: Seq<BarModel>,
)
    requires
        a.to_multiset() == b.to_multiset(),
        rebuilt(a, symbol, now as int, x),
        rebuilt(b, symbol, now as int, y),
    ensures
        forall|i: int| 0 <= i < x.len() ==> y.contains(#[trigger] x[i]),
{
    assert forall|i: int| 0 <= i < x.len() implies y.contains(#[trigger] x[i]) by {
        let window = x[i].ts as int;
        lemma_complete_moves(a, b, symbol, now as int, window);
        lemma_bar_moves(a, b, symbol, now, window);
        assert(opens_at(y, window));
        let j = choose|j: int| 0 <= j < y.len() && (#[trigger] y[j]).ts == window;
        assert(y[j] == x[i]);
    }
}

/// Rebuilding does not depend on the order of the one-hour candles.
pub proof fn law_hours_may_come_in_any_order(
    a: Seq<BarModel>,
    b: Seq<BarModel>,
    symbol: Seq<char>,
    now: i64,
    x: Seq<BarModel>,
    y: Seq<BarModel>,
)
    requires
        a.to_multiset() == b.to_multiset(),
        rebuilt(a, symbol, now as int, x),
        rebuilt(b, symbol, now as int, y),
    ensures
        x == y,
{
    lemma_rebuilt_is_shared(a, b, symbol, now, x, y);
    lemma_rebuilt_is_shared(b, a, symbol, now, y, x);
    lemma_ascending_lists_are_equal(x, y);
}

/// A provider candle that stands in for a window: one of those handed in, of the
/// four-hour period, on the grid and over, with some hours of the window there and
/// some missing.
pub open spec fn stands_in(
    h1: Seq<BarModel>,
    natives: Seq<BarModel>,
    symbol: Seq<char>,
    now: int,
    bar: BarModel,
) -> bool {
    &&& natives.contains(bar)
    &&& bar.tf is H4
    &&& aligned(Timeframe::H4, bar.ts as int) == bar.ts
    &&& next_boundary(Timeframe::H4, bar.ts as int) <= now
    &&& 1 <= children(h1, bar.ts as int) < expected_hours(symbol, bar.ts as int).len()
}

/// With provider candles at hand the rebuilt candles are all there as they were, in
/// the order of time, and every other one is a provider candle that stands in for a
/// window with missing hours. Without any, the rebuilt candles are all there is.
pub proof fn law_natives_only_add(
    h1: Seq<BarModel>,
    natives: Seq<BarModel>,
    symbol: Seq<char>,
    now: int,
    strict: Seq<BarModel>,
    rows: Seq<BarModel>,
)
    requires
        rebuilt(h1, symbol, now, strict),
        canonical_rows(h1, natives, symbol, now, rows),
    ensures
        ascending(rows),
        forall|i: int| 0 <= i < strict.len() ==> rows.contains(#[trigger] strict[i]),
        forall|i: int|
            0 <= i < rows.len() ==> strict.contains(#[trigger] rows[i]) || stands_in(
                h1,
                natives,
                symbol,
                now,
                rows[i],
            ),
        natives.len() == 0 ==> rows == strict,
{
    let n = natives.len() as int;
    assert forall|i: int| 0 <= i < strict.len() implies rows.contains(#[trigger] strict[i]) by {
        let window = strict[i].ts as int;
        assert(opens_at(rows, window));
        let j = choose|j: int| 0 <= j < rows.len() && (#[trigger] rows[j]).ts == window;
        assert(rightly_there(h1, symbol, now, natives, n, rows[j]));
        assert(rows[j] == strict[i]);
    }
    assert forall|i: int| 0 <= i < rows.len() implies strict.contains(#[trigger] rows[i])
        || stands_in(h1, natives, symbol, now, rows[i]) by {
        let window = rows[i].ts as int;
        assert(rightly_there(h1, symbol, now, natives, n, rows[i]));
        if complete(h1, symbol, now, window) {
            assert(opens_at(strict, window));
            let j = choose|j: int| 0 <= j < strict.len() && (#[trigger] strict[j]).ts == window;
            assert(strict[j] == rows[i]);
        } else {
            let k = choose|k: int|
                0 <= k < n && #[trigger] first_usable(h1, symbol, now, natives, k) && rows[i]
                    == natives[k];
            assert(native_usable(h1, symbol, now, natives[k]));
            assert(natives[k] == rows[i]);
        }
    }
    if natives.len() == 0 {
        assert forall|i: int| 0 <= i < rows.len() implies strict.contains(#[trigger] rows[i]) by {
            assert(!natives.contains(rows[i]));
        }
        lemma_ascending_lists_are_equal(rows, strict);
    }
}

/// No two candles open at the same time.
pub open spec fn distinct_times(h1: Seq<BarModel>) -> bool {
    forall|i: int, j: int|
        0 <= i < j < h1.len() ==> (#[trigger] h1[i]).ts != (#[trigger] h1[j]).ts
}

/// Candles of the standard-time era.
pub open spec fn well_timed(h1: Seq<BarModel>) -> bool {
    forall|i: int| 0 <= i < h1.len() ==> modern((#[trigger] h1[i]).ts as int)
}

/// The clock was read wherever a window and the boundary behind it rest on it.
pub open spec fn inspected(window: int) -> bool {
    surveyed(Timeframe::H4, window) && searched(Timeframe::H4, window)
}

/// A four-hour window that is over and should hold hours.
pub open spec fn due(symbol: Seq<char>, now: int, window: int) -> bool {
    &&& aligned(Timeframe::H4, window) == window
    &&& next_boundary(Timeframe::H4, window) <= now
    &&& expected_hours(symbol, window).len() > 0
}

proof fn lemma_few_children(h1: Seq<BarModel>, window: int, hours: Seq<i64>)
    requires
        distinct_times(h1),
        forall|j: int|
            0 <= j < h1.len() && in_window(#[trigger] h1[j], window) ==> hours.contains(h1[j].ts),
    ensures
        children(h1, window) <= hours.len(),
    decreases h1.len(),
{
    if h1.len() > 0 {
        let rest = h1.drop_last();
        let last = h1[h1.len() - 1];
        assert(distinct_times(rest)) by {
            assert forall|i: int, j: int| 0 <= i < j < rest.len() implies (#[trigger] rest[i]).ts
                != (#[trigger] rest[j]).ts by {
                assert(rest[i] == h1[i] && rest[j] == h1[j]);
            }
        }
        let left = if in_window(last, window) {
            hours.remove(choose|p: int| 0 <= p < hours.len() && hours[p] == last.ts)
        } else {
            hours
        };
        if in_window(last, window) {
            assert(hours.contains(last.ts));
        }
        assert forall|j: int|
            0 <= j < rest.len() && in_window(#[trigger] rest[j], window) implies left.contains(
            rest[j].ts,
        ) by {
            assert(rest[j] == h1[j]);
            assert(hours.contains(h1[j].ts));
            if in_window(last, window) {
                assert(h1[j].ts != h1[h1.len() - 1].ts);
                let p = choose|p: int| 0 <= p < hours.len() && hours[p] == last.ts;
                let q = choose|q: int| 0 <= q < hours.len() && hours[q] == h1[j].ts;
                if q < p {
                    assert(left[q] == hours[q]);
                } else {
                    assert(left[q - 1] == hours[q]);
                }
            }
        }
        lemma_few_children(rest, window, left);
    }
}

/// Of a window that is over and should hold hours, a hole is the same as not being
/// complete.
proof fn lemma_holes(h1: Seq<BarModel>, symbol: Seq<char>, now: i64, window: int)
    requires
        i64::MIN <= window,
        next_boundary(Timeframe::H4, window) <= now,
        expected_hours(symbol, window).len() > 0,
        distinct_times(h1),
    ensures
        hole_at(h1, symbol, window) == !complete(h1, symbol, now as int, window),
{
    let hours = expected_hours(symbol, window);
    lemma_hours_rise(symbol, window, now);
    let every = forall|i: int| 0 <= i < hours.len() ==> has_hour(h1, window, #[trigger] hours[i]);
    if every {
        lemma_enough_children(h1, window, hours);
        if forall|j: int|
            0 <= j < h1.len() && in_window(#[trigger] h1[j], window) ==> hours.contains(h1[j].ts) {
            lemma_few_children(h1, window, hours);
        } else {
            let j = choose|j: int|
                0 <= j < h1.len() && in_window(#[trigger] h1[j], window) && !hours.contains(
                    h1[j].ts,
                );
            let rest = h1.remove(j);
            lemma_taken_out(h1, window, j);
            assert forall|k: int| 0 <= k < hours.len() implies has_hour(
                rest,
                window,
                #[trigger] hours[k],
            ) by {
                assert(has_hour(h1, window, hours[k]));
                assert(hours.contains(hours[k]));
                lemma_hour_stays(h1, window, hours[k], j);
            }
            lemma_enough_children(rest, window, hours);
        }
    }
}

proof fn lemma_span(h1: Seq<BarModel>)
    requires
        h1.len() > 0,
        well_timed(h1),
    ensures
        modern(oldest_ts(h1)),
        modern(newest_ts(h1)),
        oldest_ts(h1) <= newest_ts(h1),
    decreases h1.len(),
{
    let rest = h1.drop_last();
    assert(modern(h1[h1.len() - 1].ts as int));
    if rest.len() > 0 {
        assert forall|i: int| 0 <= i < rest.len() implies modern(
            (#[trigger] rest[i]).ts as int,
        ) by {
            assert(rest[i] == h1[i]);
        }
        lemma_span(rest);
    } else {
        assert(oldest_ts(rest) == i64::MAX);
        assert(newest_ts(rest) == i64::MIN);
    }
}

/// A window with its next boundary, and no other boundary in between.
spec fn fenced(window: int) -> bool {
    let n = next_boundary(Timeframe::H4, window);
    &&& window < n
    &&& aligned(Timeframe::H4, window) == window
    &&& aligned(Timeframe::H4, n) == n
    &&& surveyed(Timeframe::H4, n)
    &&& forall|u: int|
        window <= u < n && surveyed(Timeframe::H4, u) ==> #[trigger] aligned(Timeframe::H4, u)
            == window
}

/// A search without success has passed every window that is over.
proof fn lemma_search(
    h1: Seq<BarModel>,
    symbol: Seq<char>,
    now: int,
    oldest: int,
    window: int,
    last: int,
    w: int,
)
    requires
        modern(oldest),
        last <= CALENDAR_END_MS - 200 * DAY_MS,
        fenced(window),
        oldest < next_boundary(Timeframe::H4, window),
        !hole_between(h1, symbol, now, oldest, window, last),
        looked_through(h1, symbol, now, oldest, window, last),
        window <= w <= last,
        due(symbol, now, w),
        inspected(w),
        auditable(symbol, oldest, w),
    ensures
        !hole_at(h1, symbol, w),
    decreases last - window + 1,
{
    let next = next_boundary(Timeframe::H4, window);
    if w != window {
        assert(w >= next) by {
            if w < next {
                assert(aligned(Timeframe::H4, w) == window);
            }
        }
        law_candles_leave_no_hole(Timeframe::H4, w);
        assert(bracketed(Timeframe::H4, w));
        assert(searched(Timeframe::H4, next)) by {
            assert(looked_through(h1, symbol, now, oldest, next, last));
        }
        law_candles_leave_no_hole(Timeframe::H4, next);
        assert(bracketed(Timeframe::H4, next));
        lemma_search(h1, symbol, now, oldest, next, last, w);
    }
}

/// A search with success has met a window that is over and has a hole.
proof fn lemma_find(
    h1: Seq<BarModel>,
    symbol: Seq<char>,
    now: int,
    oldest: int,
    window: int,
    last: int,
) -> (w: int)
    requires
        modern(oldest),
        last <= CALENDAR_END_MS - 200 * DAY_MS,
        fenced(window),
        oldest < next_boundary(Timeframe::H4, window),
        hole_between(h1, symbol, now, oldest, window, last),
        looked_through(h1, symbol, now, oldest, window, last),
    ensures
        window <= w <= last,
        due(symbol, now, w),
        hole_at(h1, symbol, w),
    decreases last - window + 1,
{
    if auditable(symbol, oldest, window) && hole_at(h1, symbol, window) {
        window
    } else {
        let next = next_boundary(Timeframe::H4, window);
        assert(searched(Timeframe::H4, next)) by {
            assert(looked_through(h1, symbol, now, oldest, next, last));
        }
        law_candles_leave_no_hole(Timeframe::H4, next);
        assert(bracketed(Timeframe::H4, next));
        lemma_find(h1, symbol, now, oldest, next, last)
    }
}

/// A window between those of the oldest and of the newest candle, the first left out.
pub open spec fn behind_the_edge(h1: Seq<BarModel>, window: int) -> bool {
    aligned(Timeframe::H4, oldest_ts(h1)) < window <= aligned(Timeframe::H4, newest_ts(h1))
}

/// The window of the oldest candle or one behind it, which is over and should hold
/// hours, has no rebuilt candle.
pub open spec fn left_out(
    h1: Seq<BarModel>,
    symbol: Seq<char>,
    now: int,
    strict: Seq<BarModel>,
    window: int,
) -> bool {
    &&& window == aligned(Timeframe::H4, oldest_ts(h1)) || behind_the_edge(h1, window)
    &&& due(symbol, now, window)
    &&& !opens_at(strict, window)
}

/// How the search for holes relates to rebuilding. Where it finds none, every window
/// behind the first one that is over and should hold hours has its rebuilt candle; where
/// it finds one, some window that is over has none. The clock readings that this rests on
/// are those of the search itself, and those by which a window is known to be one and to
/// be over.
pub proof fn law_holes_are_windows_left_out(
    h1: Seq<BarModel>,
    symbol: Seq<char>,
    now: i64,
    strict: Seq<BarModel>,
)
    requires
        h1.len() >= 2,
        distinct_times(h1),
        well_timed(h1),
        rebuilt(h1, symbol, now as int, strict),
    ensures
        audited(h1, symbol, now as int) && !incomplete(h1, symbol, now as int) ==> forall|w: int|
            behind_the_edge(h1, w) && #[trigger] due(symbol, now as int, w) && inspected(w)
                ==> opens_at(strict, w),
        audited(h1, symbol, now as int) && incomplete(h1, symbol, now as int) ==> exists|w: int|
            #[trigger] left_out(h1, symbol, now as int, strict, w),
{
    if audited(h1, symbol, now as int) {
        lemma_span(h1);
        let oldest = oldest_ts(h1);
        let newest = newest_ts(h1);
        let first = aligned(Timeframe::H4, oldest);
        let last = aligned(Timeframe::H4, newest);
        lemma_surveyed(Timeframe::H4, oldest);
        lemma_surveyed(Timeframe::H4, newest);
        law_candles_are_in_order(Timeframe::H4, oldest, newest);
        law_candles_leave_no_hole(Timeframe::H4, oldest);
        assert(bracketed(Timeframe::H4, oldest));
        assert(fenced(first));
        lemma_openings_fit(Timeframe::H4, oldest);
        if !incomplete(h1, symbol, now as int) {
            assert forall|w: int|
                behind_the_edge(h1, w) && #[trigger] due(symbol, now as int, w) && inspected(
                    w,
                ) implies opens_at(strict, w) by {
                lemma_search(h1, symbol, now as int, oldest, first, last, w);
                lemma_holes(h1, symbol, now, w);
            }
        } else {
            let w = lemma_find(h1, symbol, now as int, oldest, first, last);
            lemma_holes(h1, symbol, now, w);
            assert(!opens_at(strict, w)) by {
                if opens_at(strict, w) {
                    let i = choose|i: int| 0 <= i < strict.len() && (#[trigger] strict[i]).ts == w;
                    assert(complete(h1, symbol, now as int, strict[i].ts as int));
                }
            }
            assert(left_out(h1, symbol, now as int, strict, w));
        }
    }
}

proof fn lemma_window_extremes(h1: Seq<BarModel>, window: int)
    ensures
        forall|j: int|
            0 <= j < h1.len() && in_window(#[trigger] h1[j], window) ==> h1[j].high
                <= window_high(h1, window) && h1[j].low >= window_low(h1, window),
        (exists|j: int| 0 <= j < h1.len() && in_window(#[trigger] h1[j], window)) ==> (exists|j: int|
            0 <= j < h1.len() && in_window(#[trigger] h1[j], window) && h1[j].high == window_high(
                h1,
                window,
            )) && (exists|j: int|
            0 <= j < h1.len() && in_window(#[trigger] h1[j], window) && h1[j].low == window_low(
                h1,
                window,
            )),
        (forall|j: int| 0 <= j < h1.len() ==> !in_window(#[trigger] h1[j], window)) ==> window_high(
            h1,
            window,
        ) == i64::MIN && window_low(h1, window) == i64::MAX && window_volume(h1, window) == 0,
    decreases h1.len(),
{
    if h1.len() > 0 {
        let rest = h1.drop_last();
        let n = rest.len() as int;
        lemma_window_extremes(rest, window);
        assert forall|j: int| 0 <= j < rest.len() implies rest[j] == #[trigger] h1[j] by {}
        assert(h1[n] == h1.last());
        assert forall|j: int| 0 <= j < h1.len() && in_window(#[trigger] h1[j], window) implies
            h1[j].high <= window_high(h1, window) && h1[j].low >= window_low(h1, window) by {
            if j < n {
                assert(rest[j] == h1[j]);
            }
        }
        if exists|j: int| 0 <= j < h1.len() && in_window(#[trigger] h1[j], window) {
            if exists|j: int| 0 <= j < rest.len() && in_window(#[trigger] rest[j], window) {
                let a = choose|j: int|
                    0 <= j < rest.len() && in_window(#[trigger] rest[j], window) && rest[j].high
                        == window_high(rest, window);
                let b = choose|j: int|
                    0 <= j < rest.len() && in_window(#[trigger] rest[j], window) && rest[j].low
                        == window_low(rest, window);
                assert(h1[a] == rest[a] && h1[b] == rest[b]);
            } else {
                let j = choose|j: int| 0 <= j < h1.len() && in_window(#[trigger] h1[j], window);
                if j < n {
                    assert(rest[j] == h1[j]);
                }
                assert(in_window(h1[n], window));
            }
        }
        if forall|j: int| 0 <= j < h1.len() ==> !in_window(#[trigger] h1[j], window) {
            assert forall|j: int| 0 <= j < rest.len() implies !in_window(
                #[trigger] rest[j],
                window,
            ) by {
                assert(rest[j] == h1[j]);
            }
            assert(!in_window(h1[n], window));
        }
    }
}

/// A four-hour candle sums its hours up: it reaches from their lowest low to their
/// highest high, opens with the hour that the window begins with and closes with the
/// one that it ends with.
pub proof fn law_four_hours_are_summed_up(h1: Seq<BarModel>, symbol: Seq<char>, now: int, window: i64)
    requires
        complete(h1, symbol, now, window as int),
    ensures
        ({
            let bar = h4_bar(h1, symbol, window as int);
            let hours = expected_hours(symbol, window as int);
            &&& bar.symbol == symbol && bar.tf is H4 && bar.ts == window
            &&& next_boundary(Timeframe::H4, window as int) <= now
            &&& forall|j: int|
                0 <= j < h1.len() && aligned(Timeframe::H4, (#[trigger] h1[j]).ts as int) == window
                    ==> bar.low <= h1[j].low && h1[j].high <= bar.high
            &&& exists|j: int|
                0 <= j < h1.len() && aligned(Timeframe::H4, (#[trigger] h1[j]).ts as int) == window
                    && h1[j].high == bar.high
            &&& exists|j: int|
                0 <= j < h1.len() && aligned(Timeframe::H4, (#[trigger] h1[j]).ts as int) == window
                    && h1[j].low == bar.low
            &&& exists|j: int|
                0 <= j < h1.len() && (#[trigger] h1[j]).ts == hours.first() && h1[j].open == bar.open
            &&& exists|j: int|
                0 <= j < h1.len() && (#[trigger] h1[j]).ts == hours.last() && h1[j].close
                    == bar.close
            &&& forall|i: int| #![trigger hours[i]]
                0 <= i < hours.len() ==> exists|j: int|
                    0 <= j < h1.len() && (#[trigger] h1[j]).ts == hours[i]
        }),
{
    let w = window as int;
    let hours = expected_hours(symbol, w);
    let bar = h4_bar(h1, symbol, w);
    lemma_window_extremes(h1, w);
    assert(has_hour(h1, w, hours[0]));
    assert(has_hour(h1, w, hours[hours.len() - 1]));
    lemma_first_hour_found(h1, w, hours.first());
    lemma_first_hour_found(h1, w, hours.last());
    let a = first_hour(h1, w, hours.first());
    let b = first_hour(h1, w, hours.last());
    assert(h1[a].open == bar.open && h1[a].ts == hours.first());
    assert(h1[b].close == bar.close && h1[b].ts == hours.last());
    assert(in_window(h1[a], w));
    assert forall|i: int| #![trigger hours[i]] 0 <= i < hours.len() implies exists|j: int|
        0 <= j < h1.len() && (#[trigger] h1[j]).ts == hours[i] by {
        assert(has_hour(h1, w, hours[i]));
    }
    let h = choose|j: int|
        0 <= j < h1.len() && in_window(#[trigger] h1[j], w) && h1[j].high == window_high(h1, w);
    let l = choose|j: int|
        0 <= j < h1.len() && in_window(#[trigger] h1[j], w) && h1[j].low == window_low(h1, w);
    assert(h1[h].high == bar.high && h1[l].low == bar.low);
}

/// An hour adds its volume and itself to the window that holds it, and nothing to any
/// other.
pub proof fn law_an_hour_counts_in_its_window(h1: Seq<BarModel>, hour: BarModel, window: int)
    ensures
        aligned(Timeframe::H4, hour.ts as int) == window ==> window_volume(h1.push(hour), window)
            == window_volume(h1, window) + hour.volume && children(h1.push(hour), window)
            == children(h1, window) + 1,
        aligned(Timeframe::H4, hour.ts as int) != window ==> window_volume(h1.push(hour), window)
            == window_volume(h1, window) && children(h1.push(hour), window) == children(h1, window)
            && window_high(h1.push(hour), window) == window_high(h1, window) && window_low(
            h1.push(hour),
            window,
        ) == window_low(h1, window),
        window_volume(Seq::empty(), window) == 0,
        children(Seq::empty(), window) == 0,
{
    assert(h1.push(hour).drop_last() =~= h1);
}

/// A provider candle stands in for a window only where it is a finished four-hour
/// candle on the grid, hours are missing, some are there, none of them reaches beyond
/// it by more than one unit, and the first and the last agree with it in price.
pub proof fn law_provider_candles_agree_with_the_hours(
    h1: Seq<BarModel>,
    symbol: Seq<char>,
    now: int,
    native: BarModel,
    j: int,
)
    requires
        native_usable(h1, symbol, now, native),
        0 <= j < h1.len(),
        aligned(Timeframe::H4, h1[j].ts as int) == native.ts,
    ensures
        ({
            let hours = expected_hours(symbol, native.ts as int);
            &&& native.tf is H4
            &&& next_boundary(Timeframe::H4, native.ts as int) <= now
            &&& aligned(Timeframe::H4, native.ts as int) == native.ts
            &&& h1[j].high <= native.high + 1
            &&& h1[j].low >= native.low - 1
            &&& hours.contains(h1[j].ts)
            &&& 0 < children(h1, native.ts as int) < hours.len()
        }),
{
    lemma_window_extremes(h1, native.ts as int);
    assert(in_window(h1[j], native.ts as int));
}

/// Prices agree where they differ by a billionth of the larger one at most, or by a
/// billionth of a whole unit.
pub proof fn law_close_prices_are_the_same(a: int, b: int)
    ensures
        same_price(a, b) == same_price(b, a),
        same_price(a, a),
        same_price(a, b) && -1_000_000_000 <= a <= 1_000_000_000 && -1_000_000_000 <= b
            <= 1_000_000_000 ==> -1 <= a - b <= 1,
        -1 <= a - b <= 1 ==> same_price(a, b),
        0 <= a <= b && same_price(a, b) && b >= 1_000_000_000 ==> (b - a) * 1_000_000_000 <= b,
        0 <= a <= b && (b - a) * 1_000_000_000 <= b ==> same_price(a, b),
{
}

/// The oldest and the newest time are those of candles, and none lies outside.
pub proof fn law_hours_span_their_times(bars: Seq<BarModel>)
    requires
        bars.len() > 0,
    ensures
        exists|k: int| 0 <= k < bars.len() && (#[trigger] bars[k]).ts == oldest_ts(bars),
        exists|k: int| 0 <= k < bars.len() && (#[trigger] bars[k]).ts == newest_ts(bars),
        forall|k: int|
            0 <= k < bars.len() ==> oldest_ts(bars) <= (#[trigger] bars[k]).ts <= newest_ts(bars),
    decreases bars.len(),
{
    let rest = bars.drop_last();
    let n = bars.len() - 1;
    if rest.len() > 0 {
        law_hours_span_their_times(rest);
        let a = choose|k: int| 0 <= k < rest.len() && (#[trigger] rest[k]).ts == oldest_ts(rest);
        let b = choose|k: int| 0 <= k < rest.len() && (#[trigger] rest[k]).ts == newest_ts(rest);
        assert(bars[a] == rest[a] && bars[b] == rest[b]);
    } else {
        assert(oldest_ts(rest) == i64::MAX && newest_ts(rest) == i64::MIN);
        assert(bars[0].ts == oldest_ts(bars) && bars[0].ts == newest_ts(bars));
    }
    assert(bars[n] == bars.last());
    assert forall|k: int| 0 <= k < bars.len() implies oldest_ts(bars) <= (#[trigger] bars[k]).ts
        <= newest_ts(bars) by {
        if k < n {
            assert(rest[k] == bars[k]);
        }
    }
}

/// A window has a hole where an expected hour is missing or an hour stands there
/// that is not expected, and none where its hours are exactly those expected.
pub proof fn law_missing_hours_are_holes(
    h1: Seq<BarModel>,
    symbol: Seq<char>,
    window: int,
    ts: i64,
    k: int,
)
    ensures
        ({
            let hours = expected_hours(symbol, window);
            &&& hours.contains(ts) && (forall|j: int|
                0 <= j < h1.len() ==> (#[trigger] h1[j]).ts != ts) ==> hole_at(h1, symbol, window)
            &&& hours.len() > 0 && 0 <= k < h1.len() && in_window(h1[k], window) && !hours.contains(
                h1[k].ts,
            ) ==> hole_at(h1, symbol, window)
            &&& hours.len() == 0 ==> !hole_at(h1, symbol, window)
        }),
{
    let hours = expected_hours(symbol, window);
    if hours.contains(ts) && (forall|j: int| 0 <= j < h1.len() ==> (#[trigger] h1[j]).ts != ts) {
        let i = choose|i: int| 0 <= i < hours.len() && hours[i] == ts;
        assert(!has_hour(h1, window, hours[i]));
    }
}

/// Hours are incomplete where the window after the first, or the first one where it
/// is covered from its start, is over and has a hole; without any hole they are not.
pub proof fn law_holes_make_hours_incomplete(h1: Seq<BarModel>, symbol: Seq<char>, now: int)
    ensures
        ({
            let first = aligned(Timeframe::H4, oldest_ts(h1));
            let last = aligned(Timeframe::H4, newest_ts(h1));
            let second = next_boundary(Timeframe::H4, first);
            let hours = expected_hours(symbol, first);
            &&& h1.len() < 2 ==> !incomplete(h1, symbol, now)
            &&& h1.len() >= 2 && first <= last && second <= now && hours.len() > 0 && hours.first()
                == oldest_ts(h1) && hole_at(h1, symbol, first) ==> incomplete(h1, symbol, now)
            &&& h1.len() >= 2 && first < second <= last && next_boundary(Timeframe::H4, second)
                <= now && second <= now && hole_at(h1, symbol, second) ==> incomplete(
                h1,
                symbol,
                now,
            )
            &&& (forall|w: int| !(#[trigger] hole_at(h1, symbol, w))) ==> !incomplete(
                h1,
                symbol,
                now,
            )
        }),
{
    let first = aligned(Timeframe::H4, oldest_ts(h1));
    let last = aligned(Timeframe::H4, newest_ts(h1));
    let second = next_boundary(Timeframe::H4, first);
    reveal_with_fuel(hole_between, 2);
    if forall|w: int| !(#[trigger] hole_at(h1, symbol, w)) {
        lemma_no_hole(h1, symbol, now, oldest_ts(h1), first, last);
    }
}

proof fn lemma_no_hole(
    h1: Seq<BarModel>,
    symbol: Seq<char>,
    now: int,
    oldest: int,
    window: int,
    last: int,
)
    requires
        forall|w: int| !(#[trigger] hole_at(h1, symbol, w)),
    ensures
        !hole_between(h1, symbol, now, oldest, window, last),
    decreases last - window + 1,
{
    let next = next_boundary(Timeframe::H4, window);
    if window <= last && next <= now && next > window && next <= last {
        lemma_no_hole(h1, symbol, now, oldest, next, last);
    }
}

} // verus!
