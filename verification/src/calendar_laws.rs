//! When markets are open and which candles they are expected to have.
use vstd::prelude::*;
use crate::calendar::{
    colon_at, exchange_of, expected_opens, forex_like, fx_hours, has_exchange, market_open,
    new_york_at, open_points, ticker_of,
};
use crate::text::lemma_push_contains;
use crate::types::{duration, Timeframe};

verus! {

/// Foreign exchange trades from Sunday to Friday, from five to five in the
/// afternoon, but not on Christmas Day and New Year's Day. Weekdays are counted
/// from Sunday.
pub proof fn law_the_market_keeps_its_hours(month: int, day: int, weekday: int, hour: int)
    requires
        0 <= weekday <= 6,
        0 <= hour <= 23,
    ensures
        ({
            let holiday = (month == 12 && day == 25) || (month == 1 && day == 1);
            let trades = fx_hours(month, day, weekday, hour);
            &&& holiday ==> !trades
            &&& !holiday && (weekday == 1 || weekday == 2 || weekday == 3 || weekday == 4)
                ==> trades
            &&& weekday == 6 ==> !trades
            &&& !holiday && weekday == 0 ==> trades == (hour >= 17)
            &&& !holiday && weekday == 5 ==> trades == (hour <= 16)
        }),
{
}

proof fn lemma_colon(a: Seq<char>, b: Seq<char>)
    requires
        !a.contains(':'),
    ensures
        colon_at(a + seq![':'] + b) == a.len(),
        colon_at(a) == a.len(),
    decreases a.len(),
{
    let s = a + seq![':'] + b;
    if a.len() == 0 {
        assert(s[0] == ':');
    } else {
        assert(a.contains(a[0]));
        assert(s[0] == a[0]);
        assert(s.drop_first() =~= a.drop_first() + seq![':'] + b);
        assert(!a.drop_first().contains(':')) by {
            if a.drop_first().contains(':') {
                let k = choose|k: int| 0 <= k < a.drop_first().len() && a.drop_first()[k] == ':';
                assert(a[k + 1] == ':');
            }
        }
        lemma_colon(a.drop_first(), b);
    }
}

/// Exchanges that quote currency pairs.
pub open spec fn quotes_currencies(exchange: Seq<char>) -> bool {
    exchange == "OANDA"@ || exchange == "FX"@ || exchange == "FX_IDC"@ || exchange == "FOREXCOM"@
        || exchange == "SAXO"@
}

/// Instruments that keep foreign-exchange hours: six capital letters on their own
/// or behind an exchange that quotes currencies, and the dollar index wherever it
/// is quoted.
pub proof fn law_currency_pairs_keep_foreign_exchange_hours(exchange: Seq<char>, ticker: Seq<char>)
    requires
        !exchange.contains(':'),
        !ticker.contains(':'),
    ensures
        ({
            let pair = ticker.len() == 6 && forall|i: int|
                0 <= i < 6 ==> 'A' <= #[trigger] ticker[i] && ticker[i] <= 'Z';
            &&& forex_like(ticker) == (pair || ticker == "DXY"@)
            &&& forex_like(exchange + seq![':'] + ticker) == (ticker == "DXY"@ || (pair
                && quotes_currencies(exchange)))
        }),
{
    reveal(forex_like);
    let s = exchange + seq![':'] + ticker;
    lemma_colon(exchange, ticker);
    lemma_colon(ticker, Seq::empty());
    assert(s.skip(exchange.len() as int + 1) =~= ticker);
    assert(s.take(exchange.len() as int) =~= exchange);
    assert(ticker_of(s) == ticker);
    assert(exchange_of(s) == exchange);
    assert(has_exchange(s));
    assert(!has_exchange(ticker));
    assert(ticker_of(ticker) == ticker);
}

/// Instruments without foreign-exchange hours trade always; the others as the
/// New York clock says.
pub proof fn law_markets_open_by_the_new_york_clock(symbol: Seq<char>, ts: i64)
    ensures
        !forex_like(symbol) ==> market_open(symbol, ts as int),
        forex_like(symbol) ==> (new_york_at(ts) matches Some(c) ==> market_open(symbol, ts as int)
            == fx_hours(c.0 as int, c.1 as int, c.2 as int, c.3 as int)),
        forex_like(symbol) && new_york_at(ts) is None ==> !market_open(symbol, ts as int),
{
    reveal(market_open);
}

proof fn lemma_points(symbol: Seq<char>, start: int, step: int, n: nat, ts: i64)
    requires
        step > 0,
        i64::MIN <= start,
        start + n * step <= i64::MAX,
    ensures
        open_points(symbol, start, step, n).contains(ts) <==> (start <= ts < start + n * step && (ts
            - start) % step == 0 && market_open(symbol, ts as int)),
    decreases n,
{
    if n > 0 {
        let before = open_points(symbol, start, step, (n - 1) as nat);
        let at = start + (n - 1) * step;
        assert((n - 1) * step + step == n * step) by (nonlinear_arith);
        assert(0 <= (n - 1) * step) by (nonlinear_arith)
            requires
                n >= 1,
                step > 0,
        ;
        lemma_points(symbol, start, step, (n - 1) as nat, ts);
        lemma_push_contains(before, at as i64, ts);
        let d = ts - start;
        if at <= ts < at + step && d % step == 0 {
            vstd::arithmetic::div_mod::lemma_fundamental_div_mod_converse(
                d,
                step,
                n - 1,
                ts - at,
            );
            assert(ts == at);
        }
        if ts == at {
            vstd::arithmetic::div_mod::lemma_mod_multiples_basic(n - 1, step);
        }
    } else {
        assert(0 * step == 0) by (nonlinear_arith);
    }
}

/// The candles that a span is expected to have open at whole candles from its
/// beginning, inside it, while the market is open; a span that is no whole number
/// of candles long has none.
pub proof fn law_expected_candles_open_in_market_hours(
    symbol: Seq<char>,
    tf: Timeframe,
    start: i64,
    end: i64,
    ts: i64,
)
    ensures
        expected_opens(symbol, tf, start as int, end as int).contains(ts) <==> (start <= ts < end
            && (end - start) % duration(tf) == 0 && (ts - start) % duration(tf) == 0
            && market_open(symbol, ts as int)),
{
    reveal(expected_opens);
    let step = duration(tf);
    let span = end - start;
    if end > start && span % step == 0 {
        let n = span / step;
        vstd::arithmetic::div_mod::lemma_fundamental_div_mod(span, step);
        assert(n * step == span && n >= 0) by (nonlinear_arith)
            requires
                span == step * n,
                span > 0,
                step > 0,
        ;
        lemma_points(symbol, start as int, step, n as nat, ts);
    }
}

/// Each timeframe is as long as its name says; a month counts as thirty days.
pub proof fn law_timeframes_nest(tf: Timeframe)
    ensures
        duration(Timeframe::M1) == 60 * 1000,
        duration(Timeframe::M5) == 5 * duration(Timeframe::M1),
        duration(Timeframe::M15) == 3 * duration(Timeframe::M5),
        duration(Timeframe::M30) == 2 * duration(Timeframe::M15),
        duration(Timeframe::H1) == 2 * duration(Timeframe::M30),
        duration(Timeframe::H4) == 4 * duration(Timeframe::H1),
        duration(Timeframe::D1) == 6 * duration(Timeframe::H4),
        duration(Timeframe::W1) == 7 * duration(Timeframe::D1),
        duration(Timeframe::MN1) == 30 * duration(Timeframe::D1),
{
}

} // verus!
