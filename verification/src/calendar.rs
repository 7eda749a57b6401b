//! The New York market clock: candle boundaries and foreign-exchange hours.
//!
//! Minute and hour candles sit on the UTC grid. Four-hour, daily, weekly and
//! monthly candles follow New York civil time: four-hour candles open at
//! 23:00, 03:00, 07:00, 11:00, 15:00 and 19:00, daily candles at midnight,
//! weekly candles at Sunday midnight and monthly candles at midnight on the
//! first.
use chrono::{Datelike, Offset, TimeZone, Timelike};
use vstd::prelude::*;
use crate::boundaries::{
    bracketed, clock_known, in_era, law_candles_leave_no_hole, lemma_surveyed,
};
use crate::text::{chars_of, text_eq};
use crate::types::Timeframe;

verus! {

/// Timestamps keep this distance from the ends of the `i64` range, so that a
/// boundary search never leaves it.
pub const CLOCK_MARGIN_MS: i64 = 3_456_000_000;

pub const HOUR_MS: i64 = 3_600_000;

pub const DAY_MS: i64 = 86_400_000;

/// A timestamp on which boundary arithmetic stays inside `i64`.
pub open spec fn on_clock(ts: int) -> bool {
    i64::MIN + CLOCK_MARGIN_MS <= ts <= i64::MAX - CLOCK_MARGIN_MS
}

/// Whether [`on_clock`] holds.
pub fn is_on_clock(ts: i64) -> (r: bool)
    ensures
        r == on_clock(ts as int),
{
    i64::MIN + CLOCK_MARGIN_MS <= ts && ts <= i64::MAX - CLOCK_MARGIN_MS
}

/// New York civil time at an instant as `chrono_tz` reads it: month, day of
/// month, days since Sunday, hour, and the offset from UTC in seconds. `None`
/// where the instant is outside the calendar of `chrono`.
pub uninterp spec fn new_york_at(ts: i64) -> Option<(u32, u32, u32, u32, i32)>;

/// The noon of 18 November 1883 at which New York took up standard time.
pub const STANDARD_TIME_MS: i64 = -2_717_650_800_000;

/// An instant that `chrono` can still read.
pub const CALENDAR_END_MS: i64 = 8_000_000_000_000_000;

/// An instant of the standard-time era that `chrono` can read.
pub open spec fn on_calendar(ts: int) -> bool {
    STANDARD_TIME_MS <= ts <= CALENDAR_END_MS
}

/// Number of the local day.
pub open spec fn local_day(ts: int, c: (u32, u32, u32, u32, i32)) -> int {
    (ts + offset_ms(c)) / (DAY_MS as int)
}

/// How a reading of the New York clock in the standard-time era relates to the
/// instant and to other readings: New York is four or five hours behind, the
/// hour is that of the shifted instant, the offset changes at two o'clock alone,
/// and the days of a month count up from its first.
pub open spec fn told(ts: int, c: (u32, u32, u32, u32, i32)) -> bool {
    &&& offset_ms(c) == -5 * HOUR_MS || offset_ms(c) == -4 * HOUR_MS
    &&& c.3 == (ts + offset_ms(c)) % (DAY_MS as int) / (HOUR_MS as int)
    &&& 1 <= c.1 <= 31
    &&& forall|u: i64|
        ts <= u <= ts + HOUR_MS && on_calendar(u as int) && (#[trigger] new_york_at(u) matches Some(
            d,
        ) && d.4 != c.4) ==> c.3 == 1
    &&& forall|u: i64|
        on_calendar(u as int) && #[trigger] new_york_at(u) is Some ==> {
            let d = new_york_at(u)->0;
            let back = local_day(ts, c) - local_day(u as int, d);
            0 <= back < c.1 ==> d.1 == c.1 - back
        }
}

/// Reads New York civil time with `chrono::DateTime::with_timezone` for the zone
/// `chrono_tz::America::New_York`. Claimed of it: the reading is a function of the
/// instant, the fields are in their calendar ranges, and the zone is never more
/// than five nor less than four hours behind UTC. Of an instant of the
/// standard-time era it is also claimed that there is a reading and that it
/// relates to other readings as [`told`] says.
#[verifier::external_body]
pub(crate) fn new_york(ts: i64) -> (r: Option<(u32, u32, u32, u32, i32)>)
    ensures
        r == new_york_at(ts),
        r matches Some(c) ==> 1 <= c.0 <= 12 && 1 <= c.1 <= 31 && c.2 <= 6 && c.3 <= 23
            && -18_000 <= c.4 <= -14_400,
        r matches Some(c) ==> (on_calendar(ts as int) ==> told(ts as int, c)),
        r is None ==> !on_calendar(ts as int),
{
    let utc = chrono::Utc.timestamp_millis_opt(ts).single()?;
    let ny = utc.with_timezone(&chrono_tz::America::New_York);
    Some((
        ny.month(),
        ny.day(),
        ny.weekday().num_days_from_sunday(),
        ny.hour(),
        ny.offset().fix().local_minus_utc(),
    ))
}

/// Milliseconds that New York clocks differ from UTC.
pub open spec fn offset_ms(civil: (u32, u32, u32, u32, i32)) -> int {
    civil.4 * 1000
}

/// Fixed intraday periods, which divide the UTC hour evenly.
pub open spec fn on_utc_grid(tf: Timeframe) -> bool {
    tf is M1 || tf is M5 || tf is M15 || tf is M30 || tf is H1
}

/// Largest grid point at or below `x` on the grid `phase + k * step`.
pub open spec fn floor_to(x: int, step: int, phase: int) -> int {
    x - (x - phase) % step
}

/// Local time at which the calendar candle that holds the local time opens.
pub open spec fn civil_open(tf: Timeframe, local: int, day_of_month: int) -> int {
    match tf {
        Timeframe::H4 => floor_to(local, 4 * HOUR_MS, 3 * HOUR_MS),
        Timeframe::W1 => floor_to(local, 7 * DAY_MS, 3 * DAY_MS),
        Timeframe::MN1 => floor_to(local, DAY_MS as int, 0) - (day_of_month - 1) * DAY_MS,
        _ => floor_to(local, DAY_MS as int, 0),
    }
}

/// The clock reads at the instant as it is trusted to.
pub open spec fn read_at(ts: int) -> bool {
    match new_york_at(ts as i64) {
        Some(c) => {
            &&& 1 <= c.1 <= 31
            &&& -18_000 <= c.4 <= -14_400
            &&& on_calendar(ts) ==> told(ts, c)
        },
        None => !on_calendar(ts),
    }
}

/// New York clocks show the local time at the instant.
pub open spec fn shows(ts: int, local: int) -> bool {
    new_york_at(ts as i64) matches Some(c) && ts + offset_ms(c) == local
}

/// The local time by the offset that is in force at `guess`.
pub open spec fn refined(local: int, guess: int) -> int {
    match new_york_at(guess as i64) {
        Some(c) => local - offset_ms(c),
        None => guess,
    }
}

/// The instant at which New York clocks show `local`, given the offset in
/// force at a later instant `ts` of the same candle.
pub open spec fn civil_instant(local: int, offset: int, ts: int) -> int {
    let guess = local - offset;
    let better = refined(local, guess);
    if better <= ts && shows(better, local) {
        better
    } else {
        guess
    }
}

/// The clock reads as it is trusted to wherever the candle that holds the instant
/// rests on it.
pub open spec fn surveyed(tf: Timeframe, ts: int) -> bool {
    on_utc_grid(tf) || (read_at(ts) && (new_york_at(ts as i64) matches Some(c) ==> {
        let local = civil_open(tf, ts + offset_ms(c), c.1 as int);
        let guess = local - offset_ms(c);
        read_at(guess) && read_at(refined(local, guess))
    }))
}

/// Open time of the canonical candle that holds `ts`.
#[verifier::opaque]
pub open spec fn aligned(tf: Timeframe, ts: int) -> int {
    if on_utc_grid(tf) {
        floor_to(ts, crate::types::duration(tf), 0)
    } else {
        match new_york_at(ts as i64) {
            Some(c) => civil_instant(
                civil_open(tf, ts + offset_ms(c), c.1 as int),
                offset_ms(c),
                ts,
            ),
            None => floor_to(ts, crate::types::duration(tf), 0),
        }
    }
}

fn floor_ms(x: i64, step: i64, phase: i64) -> (r: i64)
    requires
        0 < step,
        i64::MIN + step <= x - phase <= i64::MAX,
        i64::MIN + step <= x,
    ensures
        r == floor_to(x as int, step as int, phase as int),
        x - step < r <= x,
{
    let d: i64 = x - phase;
    match d.checked_rem_euclid(step) {
        Some(m) => {
            proof {
                vstd::arithmetic::div_mod::lemma_mod_bound(d as int, step as int);
            }
            x - m
        },
        None => x,
    }
}

fn civil_open_ms(tf: Timeframe, local: i64, day_of_month: u32) -> (r: i64)
    requires
        i64::MIN + 3_300_000_000 <= local <= i64::MAX,
        1 <= day_of_month <= 31,
        !on_utc_grid(tf),
    ensures
        r == civil_open(tf, local as int, day_of_month as int),
        local - 32 * DAY_MS <= r <= local,
{
    match tf {
        Timeframe::H4 => floor_ms(local, 4 * HOUR_MS, 3 * HOUR_MS),
        Timeframe::W1 => floor_ms(local, 7 * DAY_MS, 3 * DAY_MS),
        Timeframe::MN1 => {
            let midnight: i64 = floor_ms(local, DAY_MS, 0);
            midnight - ((day_of_month - 1) as i64) * DAY_MS
        },
        _ => floor_ms(local, DAY_MS, 0),
    }
}

impl Timeframe {
    /// Open time of the canonical candle that holds `ts`.
    pub fn boundary_align(self, ts: i64) -> (r: i64)
        requires
            on_clock(ts as int),
        ensures
            r == aligned(self, ts as int),
            ts - 33 * DAY_MS <= r <= ts,
            surveyed(self, ts as int),
            in_era(self, ts as int) ==> aligned(self, r as int) == r && surveyed(self, r as int),
    {
        proof {
            reveal(aligned);
        }
        let dur: i64 = self.duration_ms();
        match self {
            Timeframe::M1 | Timeframe::M5 | Timeframe::M15 | Timeframe::M30 | Timeframe::H1 => {
                proof {
                    lemma_surveyed(self, ts as int);
                }
                return floor_ms(ts, dur, 0);
            },
            _ => {},
        }
        match new_york(ts) {
            Some(c) => {
                let off: i64 = (c.4 as i64) * 1000;
                let local: i64 = civil_open_ms(self, ts + off, c.1);
                let guess: i64 = local - off;
                let better: i64 = match new_york(guess) {
                    Some(g) => local - (g.4 as i64) * 1000,
                    None => guess,
                };
                let shown: bool = match new_york(better) {
                    Some(g) => better + (g.4 as i64) * 1000 == local,
                    None => false,
                };
                proof {
                    lemma_surveyed(self, ts as int);
                }
                if better <= ts && shown {
                    better
                } else {
                    guess
                }
            },
            None => {
                proof {
                    lemma_surveyed(self, ts as int);
                }
                floor_ms(ts, dur, 0)
            },
        }
    }
}

/// How many hours a search for the next boundary may take.
pub open spec fn probe_hours(tf: Timeframe) -> nat {
    match tf {
        Timeframe::H4 => 6,
        Timeframe::D1 => 26,
        Timeframe::W1 => 192,
        _ => 768,
    }
}

/// First boundary other than `window` met when stepping by hours from `probe`.
pub open spec fn probed_boundary(tf: Timeframe, window: int, probe: int, hours: nat) -> int
    decreases hours,
{
    if hours == 0 {
        window + crate::types::duration(tf)
    } else if aligned(tf, probe) != window {
        aligned(tf, probe)
    } else {
        probed_boundary(tf, window, probe + HOUR_MS, (hours - 1) as nat)
    }
}

/// The clock reads as it is trusted to wherever a search for the next boundary looks.
pub open spec fn walked(tf: Timeframe, window: int, probe: int, hours: nat) -> bool
    decreases hours,
{
    hours == 0 || (surveyed(tf, probe) && (aligned(tf, probe) == window ==> walked(
        tf,
        window,
        probe + HOUR_MS,
        (hours - 1) as nat,
    )))
}

/// The clock reads as it is trusted to wherever the boundary behind a window rests on
/// it.
pub open spec fn searched(tf: Timeframe, window: int) -> bool {
    on_utc_grid(tf) || walked(tf, window, window + HOUR_MS, probe_hours(tf))
}

/// Boundary that follows `window`. Calendar candles change length around
/// clock changes and months, so theirs is found by probing hour by hour.
#[verifier::opaque]
pub open spec fn next_boundary(tf: Timeframe, window: int) -> int {
    if on_utc_grid(tf) {
        window + crate::types::duration(tf)
    } else {
        probed_boundary(tf, window, window + HOUR_MS, probe_hours(tf))
    }
}

/// The next canonical candle boundary.
pub fn next_window_boundary(tf: Timeframe, window: i64) -> (r: i64)
    requires
        on_clock(window as int),
        on_clock(window + CLOCK_MARGIN_MS),
    ensures
        r == next_boundary(tf, window as int),
        window - 33 * DAY_MS <= r <= window + 33 * DAY_MS,
        searched(tf, window as int),
        clock_known(tf, window as int) && aligned(tf, window as int) == window ==> bracketed(
            tf,
            window as int,
        ),
{
    proof {
        reveal(next_boundary);
        law_candles_leave_no_hole(tf, window as int);
    }
    let hours: u32 = match tf {
        Timeframe::M1 | Timeframe::M5 | Timeframe::M15 | Timeframe::M30 | Timeframe::H1 => {
            return window + tf.duration_ms();
        },
        Timeframe::H4 => 6,
        Timeframe::D1 => 26,
        Timeframe::W1 => 192,
        Timeframe::MN1 => 768,
    };
    let mut probe: i64 = window + HOUR_MS;
    let mut left: u32 = hours;
    while left > 0
        invariant
            left <= hours <= 768,
            probe == window + HOUR_MS + (hours - left) * HOUR_MS,
            on_clock(window as int),
            on_clock(window + CLOCK_MARGIN_MS),
            !on_utc_grid(tf),
            next_boundary(tf, window as int) == probed_boundary(
                tf,
                window as int,
                probe as int,
                left as nat,
            ),
            hours == probe_hours(tf),
            walked(tf, window as int, probe as int, left as nat) ==> searched(tf, window as int),
            clock_known(tf, window as int) && aligned(tf, window as int) == window && searched(
                tf,
                window as int,
            ) ==> bracketed(tf, window as int),
        decreases left,
    {
        let at: i64 = tf.boundary_align(probe);
        if at != window {
            return at;
        }
        probe = probe + HOUR_MS;
        left = left - 1;
    }
    window + tf.duration_ms()
}

/// Position of the first colon, or the length where there is none.
pub open spec fn colon_at(s: Seq<char>) -> int
    decreases s.len(),
{
    if s.len() == 0 || s[0] == ':' {
        0
    } else {
        1 + colon_at(s.drop_first())
    }
}

/// Whether the text names an exchange in front of its ticker.
pub open spec fn has_exchange(s: Seq<char>) -> bool {
    colon_at(s) < s.len()
}

/// The text before the first colon.
pub open spec fn exchange_of(s: Seq<char>) -> Seq<char> {
    s.take(colon_at(s))
}

/// The text behind the first colon, or the whole text without one.
pub open spec fn ticker_of(s: Seq<char>) -> Seq<char> {
    if has_exchange(s) {
        s.skip(colon_at(s) + 1)
    } else {
        s
    }
}

/// Six capital letters, the shape of a currency pair.
pub open spec fn pair_shaped(t: Seq<char>) -> bool {
    t.len() == 6 && forall|i: int| 0 <= i < 6 ==> 'A' <= #[trigger] t[i] && t[i] <= 'Z'
}

/// Exchanges whose currency pairs keep foreign-exchange hours.
pub open spec fn fx_exchange(e: Seq<char>) -> bool {
    e == "OANDA"@ || e == "FX"@ || e == "FX_IDC"@ || e == "FOREXCOM"@ || e == "SAXO"@
}

/// Whether an instrument keeps foreign-exchange hours.
#[verifier::opaque]
pub open spec fn forex_like(symbol: Seq<char>) -> bool {
    ticker_of(symbol) == "DXY"@ || (pair_shaped(ticker_of(symbol)) && (has_exchange(symbol)
        ==> fx_exchange(exchange_of(symbol))))
}

pub proof fn lemma_colon_at(s: Seq<char>, n: int)
    requires
        0 <= n <= s.len(),
        forall|k: int| 0 <= k < n ==> s[k] != ':',
        n < s.len() ==> s[n] == ':',
    ensures
        colon_at(s) == n,
    decreases s.len(),
{
    if n > 0 {
        lemma_colon_at(s.drop_first(), n - 1);
    }
}

pub(crate) fn find_colon(chars: &Vec<char>) -> (r: usize)
    ensures
        r == colon_at(chars@),
        r <= chars.len(),
{
    let mut i: usize = 0;
    while i < chars.len() && chars[i] != ':'
        invariant
            i <= chars.len(),
            forall|k: int| 0 <= k < i ==> chars@[k] != ':',
        decreases chars.len() - i,
    {
        i += 1;
    }
    proof {
        lemma_colon_at(chars@, i as int);
    }
    i
}

pub(crate) fn is_pair_shaped(chars: &Vec<char>, from: usize) -> (r: bool)
    requires
        from <= chars.len(),
    ensures
        r == pair_shaped(chars@.skip(from as int)),
{
    if chars.len() - from != 6 {
        return false;
    }
    let mut i: usize = 0;
    while i < 6
        invariant
            i <= 6,
            chars.len() - from == 6,
            forall|k: int| 0 <= k < i ==> 'A' <= #[trigger] chars@.skip(from as int)[k]
                && chars@.skip(from as int)[k] <= 'Z',
        decreases 6 - i,
    {
        let c: char = chars[from + i];
        assert(c == chars@.skip(from as int)[i as int]);
        if c < 'A' || c > 'Z' {
            return false;
        }
        i += 1;
    }
    true
}

/// Whether an instrument keeps foreign-exchange hours: the dollar index, and
/// currency pairs that are quoted bare or by a foreign-exchange venue. Crypto
/// pairs have the same shape and trade around the clock.
pub fn is_forex_like(symbol: &str) -> (r: bool)
    ensures
        r == forex_like(symbol@),
{
    proof {
        reveal(forex_like);
    }
    let chars = chars_of(symbol);
    let colon: usize = find_colon(&chars);
    let named: bool = colon < chars.len();
    let from: usize = if named { colon + 1 } else { 0 };
    assert(chars@.skip(0) =~= chars@);
    let ticker = crate::text::text_of(&chars, from, chars.len());
    assert(ticker@ =~= ticker_of(symbol@));
    assert(chars@.skip(from as int) =~= ticker_of(symbol@));
    if text_eq(ticker.as_str(), "DXY") {
        return true;
    }
    if !is_pair_shaped(&chars, from) {
        return false;
    }
    if !named {
        return true;
    }
    let exchange = crate::text::text_of(&chars, 0, colon);
    assert(exchange@ =~= exchange_of(symbol@));
    text_eq(exchange.as_str(), "OANDA") || text_eq(exchange.as_str(), "FX") || text_eq(
        exchange.as_str(),
        "FX_IDC",
    ) || text_eq(exchange.as_str(), "FOREXCOM") || text_eq(exchange.as_str(), "SAXO")
}

/// Foreign-exchange hours on the New York clock: closed on Christmas Day and
/// New Year's Day, on Saturday, on Sunday before 17:00 and on Friday from
/// 17:00.
pub open spec fn fx_hours(month: int, day: int, weekday: int, hour: int) -> bool {
    &&& !(month == 12 && day == 25)
    &&& !(month == 1 && day == 1)
    &&& weekday != 6
    &&& (weekday == 0 ==> hour >= 17)
    &&& (weekday == 5 ==> hour < 17)
}

/// Whether the foreign-exchange market trades at a New York civil time.
/// `weekday` counts from Sunday.
pub fn within_fx_hours(month: u32, day: u32, weekday: u32, hour: u32) -> (r: bool)
    ensures
        r == fx_hours(month as int, day as int, weekday as int, hour as int),
{
    if (month == 12 && day == 25) || (month == 1 && day == 1) {
        return false;
    }
    if weekday == 6 {
        false
    } else if weekday == 0 {
        hour >= 17
    } else if weekday == 5 {
        hour < 17
    } else {
        true
    }
}

/// Whether a candle of the instrument can open at the instant.
#[verifier::opaque]
pub open spec fn market_open(symbol: Seq<char>, ts: int) -> bool {
    !forex_like(symbol) || match new_york_at(ts as i64) {
        Some(c) => fx_hours(c.0 as int, c.1 as int, c.2 as int, c.3 as int),
        None => false,
    }
}

/// Whether the instrument trades at the instant.
pub fn market_is_open(symbol: &str, ts_ms: i64) -> (r: bool)
    ensures
        r == market_open(symbol@, ts_ms as int),
{
    proof {
        reveal(market_open);
    }
    if !is_forex_like(symbol) {
        return true;
    }
    match new_york(ts_ms) {
        Some(c) => within_fx_hours(c.0, c.1, c.2, c.3),
        None => false,
    }
}

/// The first `n` points of the grid `start + k * step` at which the market is
/// open.
pub open spec fn open_points(symbol: Seq<char>, start: int, step: int, n: nat) -> Seq<i64>
    decreases n,
{
    if n == 0 {
        Seq::empty()
    } else {
        let before = open_points(symbol, start, step, (n - 1) as nat);
        let at = start + (n - 1) * step;
        if market_open(symbol, at) {
            before.push(at as i64)
        } else {
            before
        }
    }
}

/// Candle opens that may exist inside `[start, end)`, which must be a whole
/// number of candles long.
#[verifier::opaque]
pub open spec fn expected_opens(symbol: Seq<char>, tf: Timeframe, start: int, end: int) -> Seq<i64> {
    let step = crate::types::duration(tf);
    if end <= start || (end - start) % step != 0 {
        Seq::empty()
    } else {
        open_points(symbol, start, step, ((end - start) / step) as nat)
    }
}

/// Canonical source-candle opens that may exist inside `[start_ts, end_ts)`.
/// The last four-hour window of a Friday holds fewer than four hours because
/// the market closes at 17:00 New York.
pub fn expected_market_bar_opens(symbol: &str, tf: Timeframe, start_ts: i64, end_ts: i64) -> (r:
    Vec<i64>)
    requires
        end_ts - start_ts <= i64::MAX,
    ensures
        r@ == expected_opens(symbol@, tf, start_ts as int, end_ts as int),
{
    proof {
        reveal(expected_opens);
    }
    let dur: i64 = tf.duration_ms();
    let mut out: Vec<i64> = Vec::new();
    if end_ts <= start_ts || (end_ts - start_ts) % dur != 0 {
        return out;
    }
    let n: i64 = (end_ts - start_ts) / dur;
    let mut k: i64 = 0;
    let mut at: i64 = start_ts;
    proof {
        vstd::arithmetic::div_mod::lemma_fundamental_div_mod((end_ts - start_ts) as int, dur as int);
    }
    while k < n
        invariant
            0 <= k <= n,
            dur == crate::types::duration(tf),
            n * dur == end_ts - start_ts,
            at == start_ts + k * dur,
            out@ == open_points(symbol@, start_ts as int, dur as int, k as nat),
        decreases n - k,
    {
        if market_is_open(symbol, at) {
            out.push(at);
        }
        assert((k + 1) * dur == k * dur + dur) by (nonlinear_arith);
        assert((k + 1) * dur <= n * dur) by (nonlinear_arith)
            requires
                k + 1 <= n,
                dur > 0,
        ;
        at = at + dur;
        k = k + 1;
    }
    out
}

proof fn lemma_open_points_split(symbol: Seq<char>, start: int, step: int, n: nat, more: nat)
    ensures
        open_points(symbol, start, step, n + more) == open_points(symbol, start, step, n)
            + open_points(symbol, start + n * step, step, more),
    decreases more,
{
    let first = open_points(symbol, start, step, n);
    if more == 0 {
        assert(first + open_points(symbol, start + n * step, step, 0) =~= first);
    } else {
        let m = (more - 1) as nat;
        lemma_open_points_split(symbol, start, step, n, m);
        assert(start + (n + m) * step == start + n * step + m * step) by (nonlinear_arith);
        let rest = open_points(symbol, start + n * step, step, m);
        let at = start + (n + m) * step;
        if market_open(symbol, at) {
            assert((first + rest).push(at as i64) =~= first + rest.push(at as i64));
        }
    }
}

/// The candles that may open in two adjoining spans are together those of the
/// whole span.
pub proof fn law_adjoining_spans_add_up(symbol: Seq<char>, tf: Timeframe, a: int, b: int, c: int)
    requires
        a <= b <= c,
        (b - a) % crate::types::duration(tf) == 0,
        (c - b) % crate::types::duration(tf) == 0,
    ensures
        expected_opens(symbol, tf, a, c) == expected_opens(symbol, tf, a, b) + expected_opens(
            symbol,
            tf,
            b,
            c,
        ),
{
    reveal(expected_opens);
    let step = crate::types::duration(tf);
    let n = (b - a) / step;
    let m = (c - b) / step;
    vstd::arithmetic::div_mod::lemma_fundamental_div_mod(b - a, step);
    vstd::arithmetic::div_mod::lemma_fundamental_div_mod(c - b, step);
    assert(n >= 0 && m >= 0 && n * step == b - a && m * step == c - b && (n + m) * step == c - a)
        by (nonlinear_arith)
        requires
            b - a == step * n + 0,
            c - b == step * m + 0,
            b >= a,
            c >= b,
            step > 0,
    ;
    assert((c - a) % step == 0 && (c - a) / step == n + m) by {
        vstd::arithmetic::div_mod::lemma_fundamental_div_mod_converse(c - a, step, n + m, 0);
    }
    lemma_open_points_split(symbol, a, step, n as nat, m as nat);
    assert(n == 0 || b > a) by (nonlinear_arith)
        requires
            n * step == b - a,
            n >= 0,
            step > 0,
    ;
    assert(m == 0 || c > b) by (nonlinear_arith)
        requires
            m * step == c - b,
            m >= 0,
            step > 0,
    ;
    assert(open_points(symbol, a, step, n as nat) + Seq::<i64>::empty() =~= open_points(
        symbol,
        a,
        step,
        n as nat,
    ));
    assert(Seq::<i64>::empty() + open_points(symbol, b, step, m as nat) =~= open_points(
        symbol,
        b,
        step,
        m as nat,
    ));
    assert(expected_opens(symbol, tf, a, b) =~= open_points(symbol, a, step, n as nat));
    assert(expected_opens(symbol, tf, b, c) =~= open_points(symbol, b, step, m as nat));
    assert(expected_opens(symbol, tf, a, c) =~= open_points(symbol, a, step, (n + m) as nat));
}

} // verus!
