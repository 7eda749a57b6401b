//! How candle boundaries divide time: every instant lies in exactly one candle
//! of a timeframe, and one candle begins where another ends.
use vstd::prelude::*;
use crate::calendar::{
    aligned, civil_instant, civil_open, floor_to, local_day, new_york_at, next_boundary, offset_ms,
    on_calendar, on_clock, on_utc_grid, probe_hours, probed_boundary, read_at, refined, searched,
    shows, surveyed, told, walked, CALENDAR_END_MS, DAY_MS, HOUR_MS, STANDARD_TIME_MS,
};
use crate::types::{duration, Timeframe};

verus! {

/// An instant of the standard-time era that is some months away from its ends.
pub open spec fn modern(t: int) -> bool {
    STANDARD_TIME_MS + 200 * DAY_MS <= t <= CALENDAR_END_MS - 200 * DAY_MS
}

/// An instant at which the boundaries of the timeframe can be told: any on the UTC
/// grid, and one of the standard-time era elsewhere.
pub open spec fn in_era(tf: Timeframe, t: int) -> bool {
    on_utc_grid(tf) || modern(t)
}

/// The clock was read wherever the candle that holds the instant rests on it, and
/// boundaries can be told there.
pub open spec fn clock_known(tf: Timeframe, t: int) -> bool {
    in_era(tf, t) && surveyed(tf, t)
}

/// Offset of the New York clock in milliseconds.
pub open spec fn shift(t: int) -> int {
    offset_ms(new_york_at(t as i64)->0)
}

/// Local time in New York in milliseconds.
pub open spec fn local(t: int) -> int {
    t + shift(t)
}

/// Day of the month in New York.
pub open spec fn month_day(t: int) -> int {
    (new_york_at(t as i64)->0).1 as int
}

/// Local time at which the calendar candle that holds an instant opens.
pub open spec fn opening(tf: Timeframe, t: int) -> int {
    civil_open(tf, local(t), month_day(t))
}

/// A local time at which some calendar candle of the timeframe may open: on the
/// four-hour grid, or at midnight.
pub open spec fn on_grid_of(tf: Timeframe, l: int) -> bool {
    if tf is H4 {
        (l - 3 * HOUR_MS) % (4 * HOUR_MS) == 0
    } else {
        l % (DAY_MS as int) == 0
    }
}

proof fn lemma_reading(t: int)
    requires
        read_at(t),
        on_calendar(t),
    ensures
        new_york_at(t as i64) is Some,
        told(t, new_york_at(t as i64)->0),
        shift(t) == -5 * HOUR_MS || shift(t) == -4 * HOUR_MS,
        (new_york_at(t as i64)->0).3 == local(t) % (DAY_MS as int) / (HOUR_MS as int),
        1 <= month_day(t) <= 31,
{
    let k: i64 = t as i64;
    assert(on_calendar(k as int));
    assert(new_york_at(k) is Some);
}

/// The offset changes within an hour only between one and two o'clock.
proof fn lemma_change(t: int, u: int)
    requires
        read_at(t),
        read_at(u),
        on_calendar(t),
        on_calendar(u),
        t <= u <= t + HOUR_MS,
        shift(t) != shift(u),
    ensures
        local(t) % (DAY_MS as int) / (HOUR_MS as int) == 1,
{
    lemma_reading(t);
    lemma_reading(u);
    let k: i64 = u as i64;
    assert(new_york_at(k) is Some);
    assert((new_york_at(k)->0).4 != (new_york_at(t as i64)->0).4);
}

proof fn lemma_hour_of(x: int)
    ensures
        (x * HOUR_MS) % (DAY_MS as int) / (HOUR_MS as int) == x % 24,
{
    let q = x / 24;
    let r = x % 24;
    assert(x * HOUR_MS == q * DAY_MS + r * HOUR_MS);
    assert((x * HOUR_MS) % (DAY_MS as int) == r * HOUR_MS) by {
        vstd::arithmetic::div_mod::lemma_fundamental_div_mod_converse(
            x * HOUR_MS,
            DAY_MS as int,
            q,
            r * HOUR_MS,
        );
    }
}

/// No candle opens between one and two o'clock, nor an hour later.
proof fn lemma_quiet_hours(tf: Timeframe, l: int)
    requires
        on_grid_of(tf, l),
    ensures
        l % (DAY_MS as int) / (HOUR_MS as int) != 1,
        (l - HOUR_MS) % (DAY_MS as int) / (HOUR_MS as int) != 1,
{
    let x = if tf is H4 {
        3 + 4 * ((l - 3 * HOUR_MS) / (4 * HOUR_MS))
    } else {
        24 * (l / (DAY_MS as int))
    };
    assert(l == x * HOUR_MS);
    lemma_hour_of(x);
    lemma_hour_of(x - 1);
    assert((x - 1) * HOUR_MS == l - HOUR_MS);
}

proof fn lemma_floor_order(a: int, b: int, step: int, phase: int)
    requires
        a <= b,
        step > 0,
    ensures
        floor_to(a, step, phase) <= floor_to(b, step, phase),
{
    vstd::arithmetic::div_mod::lemma_fundamental_div_mod(a - phase, step);
    vstd::arithmetic::div_mod::lemma_fundamental_div_mod(b - phase, step);
    vstd::arithmetic::div_mod::lemma_div_is_ordered(a - phase, b - phase, step);
    let x = (a - phase) / step;
    let y = (b - phase) / step;
    assert(step * x <= step * y) by (nonlinear_arith)
        requires
            x <= y,
            step > 0,
    ;
}

/// Two local times of the first two hours of a day lie in the same candles.
proof fn lemma_same_night(a: int, b: int)
    requires
        a / (DAY_MS as int) == b / (DAY_MS as int),
        a % (DAY_MS as int) < 2 * HOUR_MS,
        b % (DAY_MS as int) < 2 * HOUR_MS,
    ensures
        floor_to(a, 4 * HOUR_MS, 3 * HOUR_MS) == floor_to(b, 4 * HOUR_MS, 3 * HOUR_MS),
        floor_to(a, 7 * DAY_MS, 3 * DAY_MS) == floor_to(b, 7 * DAY_MS, 3 * DAY_MS),
        floor_to(a, DAY_MS as int, 0) == floor_to(b, DAY_MS as int, 0),
{
    let d = a / (DAY_MS as int);
    lemma_night(d, a);
    lemma_night(d, b);
}

proof fn lemma_night(d: int, a: int)
    requires
        a / (DAY_MS as int) == d,
        a % (DAY_MS as int) < 2 * HOUR_MS,
    ensures
        floor_to(a, 4 * HOUR_MS, 3 * HOUR_MS) == d * DAY_MS - HOUR_MS,
        floor_to(a, 7 * DAY_MS, 3 * DAY_MS) == (d - (d - 3) % 7) * DAY_MS,
        floor_to(a, DAY_MS as int, 0) == d * DAY_MS,
{
    let r = a % (DAY_MS as int);
    assert(a == d * DAY_MS + r);
    vstd::arithmetic::div_mod::lemma_fundamental_div_mod_converse(
        a - 3 * HOUR_MS,
        4 * HOUR_MS,
        6 * d - 1,
        r + HOUR_MS,
    );
    let q = (d - 3) / 7;
    let m = (d - 3) % 7;
    vstd::arithmetic::div_mod::lemma_fundamental_div_mod_converse(
        a - 3 * DAY_MS,
        7 * DAY_MS,
        q,
        m * DAY_MS + r,
    );
}

/// An opening is shown by the clock once.
proof fn lemma_once(tf: Timeframe, x: int, y: int)
    requires
        read_at(x),
        read_at(y),
        on_calendar(x),
        on_calendar(y),
        local(x) == local(y),
        on_grid_of(tf, local(x)),
    ensures
        x == y,
{
    lemma_reading(x);
    lemma_reading(y);
    lemma_quiet_hours(tf, local(x));
    if x < y {
        lemma_change(x, y);
    } else if y < x {
        lemma_change(y, x);
    }
}

proof fn lemma_opening(tf: Timeframe, t: int)
    requires
        read_at(t),
        on_calendar(t),
        !on_utc_grid(tf),
    ensures
        on_grid_of(tf, opening(tf, t)),
        local(t) - 32 * DAY_MS <= opening(tf, t) <= local(t),
        tf is H4 ==> local(t) - opening(tf, t) < 4 * HOUR_MS,
        tf is D1 ==> local(t) - opening(tf, t) < DAY_MS,
        tf is W1 ==> local(t) - opening(tf, t) < 7 * DAY_MS,
{
    lemma_reading(t);
    let l = local(t);
    let d = month_day(t);
    if tf is MN1 {
        let f = floor_to(l, DAY_MS as int, 0);
        assert(f % (DAY_MS as int) == 0);
        assert((f - (d - 1) * DAY_MS) % (DAY_MS as int) == 0);
    } else if tf is W1 {
        lemma_week(l);
    }
}

/// Weeks open at midnight.
proof fn lemma_week(l: int)
    ensures
        floor_to(l, 7 * DAY_MS, 3 * DAY_MS) == 3 * DAY_MS + 7 * DAY_MS * ((l - 3 * DAY_MS) / (7
            * DAY_MS)),
        floor_to(l, 7 * DAY_MS, 3 * DAY_MS) % (DAY_MS as int) == 0,
        l - 7 * DAY_MS < floor_to(l, 7 * DAY_MS, 3 * DAY_MS) <= l,
{
    let q = (l - 3 * DAY_MS) / (7 * DAY_MS);
    vstd::arithmetic::div_mod::lemma_fundamental_div_mod(l - 3 * DAY_MS, 7 * DAY_MS);
    assert((3 + 7 * q) * (DAY_MS as int) == 3 * DAY_MS + 7 * DAY_MS * q) by (nonlinear_arith);
    vstd::arithmetic::div_mod::lemma_fundamental_div_mod_converse(
        3 * DAY_MS + 7 * DAY_MS * q,
        DAY_MS as int,
        3 + 7 * q,
        0,
    );
}

/// The calendar candle of an instant opens at or before it, when the clock
/// shows its opening.
proof fn lemma_aligned(tf: Timeframe, t: int)
    requires
        surveyed(tf, t),
        STANDARD_TIME_MS + 40 * DAY_MS <= t <= CALENDAR_END_MS,
        !on_utc_grid(tf),
    ensures
        t - 33 * DAY_MS <= aligned(tf, t) <= t,
        on_calendar(aligned(tf, t)),
        read_at(aligned(tf, t)),
        local(aligned(tf, t)) == opening(tf, t),
{
    reveal(aligned);
    lemma_reading(t);
    lemma_opening(tf, t);
    let l = opening(tf, t);
    let guess = l - shift(t);
    lemma_quiet_hours(tf, l);
    assert(on_calendar(guess));
    lemma_reading(guess);
    let better = l - shift(guess);
    assert(better == refined(l, guess));
    assert(aligned(tf, t) == civil_instant(l, shift(t), t));
    assert(on_calendar(better));
    lemma_reading(better);
    if shift(guess) != shift(t) {
        if better > guess {
            if better > t {
                lemma_change(guess, t);
                assert(local(guess) == l - HOUR_MS);
                assert(false);
            }
            if shift(better) != shift(guess) {
                lemma_change(guess, better);
                assert(local(guess) == l - HOUR_MS);
                assert(false);
            }
        } else {
            if shift(better) != shift(guess) {
                lemma_change(better, guess);
                assert(local(better) == l - HOUR_MS);
                assert(false);
            }
        }
    }
}

proof fn lemma_month_opening(t: int)
    requires
        read_at(t),
        on_calendar(t),
    ensures
        opening(Timeframe::MN1, t) == (local(t) / (DAY_MS as int) - month_day(t) + 1) * DAY_MS,
{
    let day = DAY_MS as int;
    let d = local(t) / day;
    assert(floor_to(local(t), day, 0) == d * day);
    assert(d * day - (month_day(t) - 1) * day == (d - month_day(t) + 1) * day);
}

proof fn lemma_months_in_order(t: int, u: int)
    requires
        read_at(t),
        read_at(u),
        on_calendar(t),
        on_calendar(u),
        local(t) / (DAY_MS as int) <= local(u) / (DAY_MS as int),
    ensures
        opening(Timeframe::MN1, t) <= opening(Timeframe::MN1, u),
{
    lemma_reading(t);
    lemma_reading(u);
    lemma_month_opening(t);
    lemma_month_opening(u);
    let c = new_york_at(u as i64)->0;
    let k: i64 = t as i64;
    let d = new_york_at(k)->0;
    assert(new_york_at(k) is Some);
    let back = local_day(u, c) - local_day(t, d);
    assert(back == local(u) / (DAY_MS as int) - local(t) / (DAY_MS as int));
    assert(0 <= back < c.1 ==> d.1 == c.1 - back);
}

/// Later instants have later openings, or the same.
proof fn lemma_openings_in_order(tf: Timeframe, t: int, u: int)
    requires
        read_at(t),
        read_at(u),
        on_calendar(t),
        on_calendar(u),
        t <= u,
        !on_utc_grid(tf),
    ensures
        opening(tf, t) <= opening(tf, u),
{
    lemma_reading(t);
    lemma_reading(u);
    let a = local(t);
    let b = local(u);
    let day = DAY_MS as int;
    if b < a {
        assert(u < t + HOUR_MS);
        lemma_change(t, u);
        assert(HOUR_MS <= a % day < 2 * HOUR_MS);
        assert(a - HOUR_MS <= b);
        assert(a / day == b / day && b % day < 2 * HOUR_MS);
        lemma_same_night(a, b);
    } else {
        lemma_floor_order(a, b, 4 * HOUR_MS, 3 * HOUR_MS);
        lemma_floor_order(a, b, 7 * DAY_MS, 3 * DAY_MS);
        lemma_floor_order(a, b, day, 0);
    }
    if tf is MN1 {
        assert(a / day <= b / day);
        lemma_months_in_order(t, u);
    }
}

proof fn lemma_utc_grid(tf: Timeframe, t: int)
    requires
        on_utc_grid(tf),
    ensures
        aligned(tf, t) == duration(tf) * (t / duration(tf)),
        aligned(tf, t) <= t < aligned(tf, t) + duration(tf),
        aligned(tf, aligned(tf, t)) == aligned(tf, t),
{
    reveal(aligned);
    let step = duration(tf);
    vstd::arithmetic::div_mod::lemma_fundamental_div_mod(t, step);
    vstd::arithmetic::div_mod::lemma_mod_bound(t, step);
    let w = aligned(tf, t);
    vstd::arithmetic::div_mod::lemma_fundamental_div_mod_converse(w, step, t / step, 0);
}

/// The opening of a month is on its first day.
proof fn lemma_first_of_month(t: int, r: int)
    requires
        read_at(t),
        read_at(r),
        on_calendar(t),
        on_calendar(r),
        local(r) == opening(Timeframe::MN1, t),
    ensures
        opening(Timeframe::MN1, r) == local(r),
{
    lemma_reading(t);
    lemma_reading(r);
    lemma_month_opening(t);
    lemma_month_opening(r);
    let day = DAY_MS as int;
    let c = new_york_at(t as i64)->0;
    let k: i64 = r as i64;
    let d = new_york_at(k)->0;
    assert(new_york_at(k) is Some);
    assert(local(r) / day == local(t) / day - month_day(t) + 1);
    let back = local_day(t, c) - local_day(r, d);
    assert(back == month_day(t) - 1);
    assert(0 <= back < c.1 ==> d.1 == c.1 - back);
}

proof fn lemma_opening_again(tf: Timeframe, t: int, r: int)
    requires
        read_at(t),
        read_at(r),
        on_calendar(t),
        on_calendar(r),
        !on_utc_grid(tf),
        local(r) == opening(tf, t),
    ensures
        opening(tf, r) == local(r),
{
    if tf is MN1 {
        lemma_first_of_month(t, r);
    } else if tf is W1 {
        let q = (local(t) - 3 * DAY_MS) / (7 * DAY_MS);
        lemma_week(local(t));
        lemma_week(local(r));
        vstd::arithmetic::div_mod::lemma_fundamental_div_mod_converse(
            local(r) - 3 * DAY_MS,
            7 * DAY_MS,
            q,
            0,
        );
    }
}

proof fn lemma_fixed(tf: Timeframe, t: int)
    requires
        surveyed(tf, t),
        STANDARD_TIME_MS + 80 * DAY_MS <= t <= CALENDAR_END_MS,
        !on_utc_grid(tf),
    ensures
        t - 33 * DAY_MS <= aligned(tf, t) <= t,
        aligned(tf, aligned(tf, t)) == aligned(tf, t),
        opening(tf, aligned(tf, t)) == local(aligned(tf, t)),
        on_grid_of(tf, local(aligned(tf, t))),
        read_at(aligned(tf, t)),
        surveyed(tf, aligned(tf, t)),
{
    lemma_aligned(tf, t);
    let r = aligned(tf, t);
    assert(on_grid_of(tf, local(r))) by {
        lemma_opening(tf, t);
    }
    lemma_opening_again(tf, t, r);
    lemma_reading(r);
    reveal(aligned);
    assert(refined(local(r), r) == r);
    assert(shows(r, local(r)));
}

/// Later instants lie in later candles, or in the same, where the clock was read for
/// both.
pub proof fn law_candles_are_in_order(tf: Timeframe, t: int, u: int)
    requires
        t <= u,
    ensures
        clock_known(tf, t) && clock_known(tf, u) ==> aligned(tf, t) <= aligned(tf, u),
{
    if on_utc_grid(tf) {
        reveal(aligned);
        lemma_floor_order(t, u, duration(tf), 0);
    } else if clock_known(tf, t) && clock_known(tf, u) {
        lemma_aligned_order(tf, t, u);
    }
}

proof fn lemma_aligned_order(tf: Timeframe, t: int, u: int)
    requires
        surveyed(tf, t),
        surveyed(tf, u),
        STANDARD_TIME_MS + 80 * DAY_MS <= t <= u <= CALENDAR_END_MS,
        !on_utc_grid(tf),
    ensures
        aligned(tf, t) <= aligned(tf, u),
{
    lemma_fixed(tf, t);
    lemma_fixed(tf, u);
    lemma_aligned(tf, t);
    lemma_aligned(tf, u);
    lemma_openings_in_order(tf, t, u);
    let r = aligned(tf, t);
    let q = aligned(tf, u);
    if q < r {
        lemma_openings_in_order(tf, q, r);
        lemma_once(tf, q, r);
    }
}

/// The candle that holds an instant begins at or before it, the next boundary
/// comes after it, that boundary is one, and every instant in between lies in
/// the same candle.
pub open spec fn bracketed(tf: Timeframe, t: int) -> bool {
    let w = aligned(tf, t);
    let n = next_boundary(tf, w);
    &&& w <= t < n
    &&& aligned(tf, w) == w
    &&& aligned(tf, n) == n
    &&& surveyed(tf, n)
    &&& forall|u: int| w <= u < n && surveyed(tf, u) ==> #[trigger] aligned(tf, u) == w
    &&& on_utc_grid(tf) ==> n == w + duration(tf)
}

/// Candles follow one another without a hole: every instant is bracketed by the
/// boundary of its candle and the next one, where the clock was read for both.
pub proof fn law_candles_leave_no_hole(tf: Timeframe, t: int)
    ensures
        clock_known(tf, t) && searched(tf, aligned(tf, t)) ==> bracketed(tf, t),
{
    if on_utc_grid(tf) {
        reveal(next_boundary);
        lemma_utc_grid(tf, t);
        let step = duration(tf);
        let w = aligned(tf, t);
        let n = w + step;
        let q = t / step;
        assert forall|u: int| w <= u < n implies #[trigger] aligned(tf, u) == w by {
            lemma_utc_grid(tf, u);
            vstd::arithmetic::div_mod::lemma_fundamental_div_mod_converse(u, step, q, u - w);
        }
        assert(n == step * (q + 1)) by (nonlinear_arith)
            requires
                n == step * q + step,
        ;
        lemma_utc_grid(tf, n);
        vstd::arithmetic::div_mod::lemma_fundamental_div_mod_converse(n, step, q + 1, 0);
    } else if clock_known(tf, t) && searched(tf, aligned(tf, t)) {
        lemma_no_hole(tf, t);
    }
}

/// Far enough behind an opening the candle is another one.
proof fn lemma_window_ends(tf: Timeframe, w: int)
    requires
        surveyed(tf, w),
        surveyed(tf, w + probe_hours(tf) * HOUR_MS),
        STANDARD_TIME_MS + 80 * DAY_MS <= w <= CALENDAR_END_MS - 40 * DAY_MS,
        !on_utc_grid(tf),
        aligned(tf, w) == w,
    ensures
        aligned(tf, w + probe_hours(tf) * HOUR_MS) != w,
{
    let p = w + probe_hours(tf) * HOUR_MS;
    lemma_reading(w);
    lemma_reading(p);
    lemma_aligned(tf, p);
    lemma_aligned(tf, w);
    lemma_opening(tf, p);
    assert(local(p) >= local(w) + (probe_hours(tf) - 1) * HOUR_MS);
    if tf is MN1 {
        lemma_month_opening(p);
        lemma_month_opening(w);
        let day = DAY_MS as int;
        assert(local(w) % day == 0);
        assert(local(p) / day >= local(w) / day + 31);
    }
}

/// Two boundaries of a timeframe are more than an hour apart.
proof fn lemma_apart(tf: Timeframe, v: int, n: int)
    requires
        surveyed(tf, v),
        surveyed(tf, n),
        STANDARD_TIME_MS + 80 * DAY_MS <= v <= n <= CALENDAR_END_MS,
        !on_utc_grid(tf),
        aligned(tf, v) == v,
        aligned(tf, n) == n,
        n - v <= HOUR_MS,
    ensures
        v == n,
{
    lemma_reading(v);
    lemma_reading(n);
    lemma_fixed(tf, v);
    lemma_fixed(tf, n);
    let a = local(v);
    let b = local(n);
    assert(a == b) by {
        assert(-2 * HOUR_MS <= a - b <= 2 * HOUR_MS);
        if tf is H4 {
            let x = (a - 3 * HOUR_MS) / (4 * HOUR_MS);
            let y = (b - 3 * HOUR_MS) / (4 * HOUR_MS);
            assert(a - b == 4 * HOUR_MS * (x - y));
        } else {
            let x = a / (DAY_MS as int);
            let y = b / (DAY_MS as int);
            assert(a - b == DAY_MS * (x - y));
        }
    }
    lemma_once(tf, v, n);
}

/// What holds at the boundary that a search by hours meets.
spec fn found(tf: Timeframe, w: int, n: int) -> bool {
    &&& w < n
    &&& aligned(tf, n) == n
    &&& surveyed(tf, n)
    &&& forall|u: int| w <= u < n && surveyed(tf, u) ==> #[trigger] aligned(tf, u) == w
}

proof fn lemma_probe(tf: Timeframe, w: int, k: nat)
    requires
        surveyed(tf, w),
        surveyed(tf, w + k * HOUR_MS),
        walked(tf, w, w + (k + 1) * HOUR_MS, (probe_hours(tf) - k) as nat),
        STANDARD_TIME_MS + 120 * DAY_MS <= w <= CALENDAR_END_MS - 80 * DAY_MS,
        !on_utc_grid(tf),
        aligned(tf, w) == w,
        k < probe_hours(tf),
        aligned(tf, w + k * HOUR_MS) == w,
    ensures
        found(
            tf,
            w,
            probed_boundary(tf, w, w + (k + 1) * HOUR_MS, (probe_hours(tf) - k) as nat),
        ),
    decreases probe_hours(tf) - k,
{
    let low = w + k * HOUR_MS;
    let p = w + (k + 1) * HOUR_MS;
    assert(p == low + HOUR_MS);
    assert(k * HOUR_MS <= 768 * HOUR_MS);
    let n = aligned(tf, p);
    if n != w {
        lemma_fixed(tf, p);
        lemma_aligned_order(tf, w, p);
        if n <= low {
            lemma_aligned_order(tf, n, low);
        }
        assert forall|u: int| w <= u < n && surveyed(tf, u) implies #[trigger] aligned(tf, u)
            == w by {
            lemma_aligned_order(tf, w, u);
            lemma_fixed(tf, u);
            if u <= low {
                lemma_aligned_order(tf, u, low);
            } else {
                let v = aligned(tf, u);
                if v != w {
                    if v <= low {
                        lemma_aligned_order(tf, v, low);
                    } else {
                        lemma_apart(tf, v, n);
                    }
                }
            }
        }
    } else {
        if k + 1 == probe_hours(tf) {
            lemma_window_ends(tf, w);
        }
        lemma_probe(tf, w, k + 1);
        assert(w + (k + 1 + 1) * HOUR_MS == p + HOUR_MS);
    }
}

proof fn lemma_no_hole(tf: Timeframe, t: int)
    requires
        surveyed(tf, t),
        searched(tf, aligned(tf, t)),
        modern(t),
        !on_utc_grid(tf),
    ensures
        bracketed(tf, t),
{
    lemma_fixed(tf, t);
    let w = aligned(tf, t);
    let n = next_boundary(tf, w);
    assert(found(tf, w, n)) by {
        reveal(next_boundary);
        assert(w + (0 + 1) * HOUR_MS == w + HOUR_MS);
        assert(w + 0 * HOUR_MS == w);
        lemma_probe(tf, w, 0);
    }
    if t >= n {
        lemma_aligned_order(tf, n, t);
    }
}

/// The opening time of a candle, wherever boundaries can be told.
pub open spec fn on_boundary(tf: Timeframe, ts: int) -> bool {
    in_era(tf, ts) ==> aligned(tf, ts) == ts
}

/// A candle opens at most some weeks before an instant in it.
proof fn lemma_near(tf: Timeframe, t: int)
    requires
        surveyed(tf, t),
        on_clock(t),
    ensures
        t - 33 * DAY_MS <= aligned(tf, t) <= t,
{
    reveal(aligned);
    if on_utc_grid(tf) {
        lemma_utc_grid(tf, t);
    } else {
        let k: i64 = t as i64;
        let step = duration(tf);
        vstd::arithmetic::div_mod::lemma_mod_bound(t, step);
        if new_york_at(k) is Some {
            let c = new_york_at(k)->0;
            let open = civil_open(tf, t + offset_ms(c), c.1 as int);
            let guess = open - offset_ms(c);
            let g: i64 = guess as i64;
            assert(new_york_at(g) is None || new_york_at(g) is Some);
        }
    }
}

/// An instant at which the clock was read is sorted into a candle that opens on a
/// boundary.
pub proof fn law_candles_open_on_boundaries(tf: Timeframe, t: int)
    requires
        on_clock(t),
    ensures
        surveyed(tf, t) ==> on_boundary(tf, aligned(tf, t)),
{
    if surveyed(tf, t) && in_era(tf, aligned(tf, t)) {
        if on_utc_grid(tf) {
            lemma_utc_grid(tf, t);
        } else {
            lemma_near(tf, t);
            lemma_fixed(tf, t);
        }
    }
}

/// Candle openings are timestamps, where the clock was read.
pub proof fn lemma_openings_fit(tf: Timeframe, t: int)
    requires
        on_clock(t),
    ensures
        surveyed(tf, t) ==> aligned(tf, t) as i64 == aligned(tf, t),
{
    if surveyed(tf, t) {
        lemma_near(tf, t);
    }
}

/// The opening of a candle opens it again, and the clock was read for that too.
pub proof fn lemma_surveyed(tf: Timeframe, t: int)
    ensures
        clock_known(tf, t) ==> aligned(tf, aligned(tf, t)) == aligned(tf, t) && surveyed(
            tf,
            aligned(tf, t),
        ) && aligned(tf, t) <= t,
{
    if on_utc_grid(tf) {
        lemma_utc_grid(tf, t);
    } else if clock_known(tf, t) {
        lemma_fixed(tf, t);
    }
}

/// Candles open where their timeframe says: shorter ones on whole multiples of their
/// length; on the New York clock, four-hour candles at three, seven and eleven o'clock
/// by day and by night, daily ones at midnight, weekly ones on Sunday at midnight, and
/// monthly ones on the first of the month. They hold the instant, and none is longer
/// than its timeframe allows.
pub proof fn law_candles_open_at_their_times(tf: Timeframe, t: int)
    requires
        clock_known(tf, t),
    ensures
        ({
            let w = aligned(tf, t);
            &&& w <= t
            &&& tf is M1 ==> w % 60_000 == 0 && t - w < 60_000
            &&& tf is M5 ==> w % 300_000 == 0 && t - w < 300_000
            &&& tf is M15 ==> w % 900_000 == 0 && t - w < 900_000
            &&& tf is M30 ==> w % 1_800_000 == 0 && t - w < 1_800_000
            &&& tf is H1 ==> w % 3_600_000 == 0 && t - w < 3_600_000
            &&& tf is H4 ==> local(w) % 14_400_000 == 10_800_000
            &&& tf is D1 ==> local(w) % 86_400_000 == 0
            &&& tf is W1 ==> local(w) % 604_800_000 == 259_200_000
            &&& tf is MN1 ==> local(w) % 86_400_000 == 0 && month_day(w) == 1
            &&& t - w <= 33 * 86_400_000
        }),
{
    if on_utc_grid(tf) {
        lemma_utc_times(tf, t);
    } else {
        lemma_calendar_times(tf, t);
    }
}

proof fn lemma_utc_times(tf: Timeframe, t: int)
    requires
        on_utc_grid(tf),
    ensures
        aligned(tf, t) % duration(tf) == 0,
        0 <= t - aligned(tf, t) < duration(tf),
{
    reveal(aligned);
    let step = duration(tf);
    let q = t / step;
    vstd::arithmetic::div_mod::lemma_fundamental_div_mod(t, step);
    vstd::arithmetic::div_mod::lemma_mod_bound(t, step);
    assert(aligned(tf, t) == q * step) by (nonlinear_arith)
        requires
            aligned(tf, t) == t - t % step,
            t == step * q + t % step,
    ;
    vstd::arithmetic::div_mod::lemma_mod_multiples_basic(q, step);
}

proof fn lemma_calendar_times(tf: Timeframe, t: int)
    requires
        surveyed(tf, t),
        modern(t),
        !on_utc_grid(tf),
    ensures
        ({
            let w = aligned(tf, t);
            &&& t - 33 * DAY_MS <= w <= t
            &&& tf is H4 ==> local(w) % 14_400_000 == 10_800_000
            &&& !(tf is H4) ==> local(w) % 86_400_000 == 0
            &&& tf is W1 ==> local(w) % 604_800_000 == 259_200_000
            &&& tf is MN1 ==> month_day(w) == 1
        }),
{
    lemma_fixed(tf, t);
    let w = aligned(tf, t);
    lemma_grid_of_opening(tf, local(w), month_day(w));
}

proof fn lemma_grid_of_opening(tf: Timeframe, l: int, day: int)
    requires
        !on_utc_grid(tf),
        civil_open(tf, l, day) == l,
        on_grid_of(tf, l),
    ensures
        tf is H4 ==> l % 14_400_000 == 10_800_000,
        !(tf is H4) ==> l % 86_400_000 == 0,
        tf is W1 ==> l % 604_800_000 == 259_200_000,
        tf is MN1 ==> day == 1,
{
    if tf is H4 {
        assert((l - 10_800_000) % 14_400_000 == 0);
    }
    if tf is W1 {
        assert((l - 259_200_000) % 604_800_000 == 0);
    }
    if tf is MN1 {
        assert(l % 86_400_000 == 0);
        assert(floor_to(l, DAY_MS as int, 0) == l);
        assert((day - 1) * DAY_MS == 0);
    }
}

} // verus!
