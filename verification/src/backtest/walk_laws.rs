//! What a simulated position went through, in prices and times.
use vstd::prelude::*;
use crate::backtest::laws::setup_of;
use crate::backtest::model::GuardrailsModel;
use crate::backtest::simulator::{
    lemma_multiple_fits, lemma_step_fits, lemma_worth_is_not_negative, multiple_of, simulated,
    start_of, step, user_simulated, walked, Setup, Step, Walk,
};
use crate::detector::CandleRef;
use crate::types::BarModel;

verus! {

/// `x` is a quotient in quintillionths, to the nearest.
pub open spec fn nearest(x: int, num: int, den: int) -> bool {
    2 * num * 1_000_000_000_000_000_000 - den < 2 * x * den <= 2 * num * 1_000_000_000_000_000_000
        + den
}

proof fn lemma_nearest(num: int, den: int)
    requires
        den > 0,
    ensures
        nearest(multiple_of(num, den), num, den),
{
    let n = 2 * num * 1_000_000_000_000_000_000 + den;
    let d = 2 * den;
    let q = n / d;
    vstd::arithmetic::div_mod::lemma_fundamental_div_mod(n, d);
    vstd::arithmetic::div_mod::lemma_mod_bound(n, d);
    assert(q == multiple_of(num, den));
    assert(d * q == 2 * q * den) by (nonlinear_arith)
        requires
            d == 2 * den,
    ;
}

proof fn lemma_one_nearest(x: int, y: int, num: int, den: int)
    requires
        den > 0,
        nearest(x, num, den),
        nearest(y, num, den),
    ensures
        x == y,
{
    if x < y {
        assert(2 * (x + 1) * den <= 2 * y * den) by (nonlinear_arith)
            requires
                x + 1 <= y,
                den > 0,
        ;
        assert(2 * (x + 1) * den == 2 * x * den + 2 * den) by (nonlinear_arith);
    }
    if y < x {
        assert(2 * (y + 1) * den <= 2 * x * den) by (nonlinear_arith)
            requires
                y + 1 <= x,
                den > 0,
        ;
        assert(2 * (y + 1) * den == 2 * y * den + 2 * den) by (nonlinear_arith);
    }
}

/// Multiples are quotients to the nearest quintillionth, and no other number is.
pub proof fn law_multiples_are_quotients(num: int, den: int, x: int)
    requires
        den > 0,
    ensures
        nearest(multiple_of(num, den), num, den),
        nearest(x, num, den) ==> x == multiple_of(num, den),
{
    lemma_nearest(num, den);
    if nearest(x, num, den) {
        lemma_one_nearest(x, multiple_of(num, den), num, den);
    }
}

/// How far a candle went in favour of a position that was filled at `entry`.
pub open spec fn favourable(s: Setup, entry: int, bar: BarModel) -> int {
    if s.bull {
        bar.high - entry
    } else {
        entry - bar.low
    }
}

/// How far a candle went against a position that was filled at `entry`.
pub open spec fn adverse(s: Setup, entry: int, bar: BarModel) -> int {
    if s.bull {
        entry - bar.low
    } else {
        bar.high - entry
    }
}

/// The distance from the fill to the stop, which lies behind it.
pub open spec fn distance_to_stop(s: Setup, entry: int) -> int {
    if s.bull {
        entry - s.stop
    } else {
        s.stop - entry
    }
}

/// The candle went as far against the position as the stop is away.
pub open spec fn stops(s: Setup, entry: int, bar: BarModel) -> bool {
    adverse(s, entry, bar) >= distance_to_stop(s, entry)
}

/// The candle went as far in favour of the position as the target is away.
pub open spec fn hits(s: Setup, entry: int, bar: BarModel) -> bool {
    match s.fixed {
        Some(m) => favourable(s, entry, bar) * 1000 >= m * distance_to_stop(s, entry),
        None => favourable(s, entry, bar) >= (if s.bull {
            s.target - entry
        } else {
            entry - s.target
        }),
    }
}

/// A candle that can be: its open and its close lie between its extremes.
pub open spec fn possible(bar: BarModel) -> bool {
    bar.low <= bar.open <= bar.high && bar.low <= bar.close <= bar.high
}

/// A position is open at `entry` since `since`, on the right side of its stop.
pub open spec fn holds(s: Setup, w: Walk, entry: i64, since: i64) -> bool {
    &&& w.result.entry == Some(entry)
    &&& w.result.entry_ts == Some(since)
    &&& w.result.mfe_rr is Some && w.result.mfe_rr->0 >= 0
    &&& w.result.mae_rr is Some && w.result.mae_rr->0 >= 0
    &&& distance_to_stop(s, entry as int) > 0
}

/// A candle that neither stops nor hits an open position widens what it went
/// through: the largest moves for and against it are the larger of those before
/// and those of the candle. The position goes on, or ends for want of time with
/// its last close as its floating result.
pub proof fn law_a_quiet_candle_widens_the_moves(
    s: Setup,
    w: Walk,
    bar: BarModel,
    entry: i64,
    since: i64,
    up: int,
    down: int,
)
    requires
        holds(s, w, entry, since),
        bar.ts == w.expected,
        i64::MIN <= bar.ts + 60_000 <= i64::MAX,
        possible(bar),
        !stops(s, entry as int, bar),
        !hits(s, entry as int, bar),
        nearest(up, favourable(s, entry as int, bar), distance_to_stop(s, entry as int)),
        nearest(down, adverse(s, entry as int, bar), distance_to_stop(s, entry as int)),
    ensures
        ({
            let before = w.result;
            let ends = w.held + 1 == s.holding;
            let r = match step(s, w, bar) {
                Step::Go(next) => next.result,
                Step::Stop(result) => result,
            };
            let mfe = r.mfe_rr->0;
            let mae = r.mae_rr->0;
            &&& (step(s, w, bar) is Stop) == ends
            &&& r.mfe_rr is Some && r.mae_rr is Some
            &&& mfe >= before.mfe_rr->0 && mfe >= up && (mfe == before.mfe_rr->0 || mfe == up)
            &&& mae >= before.mae_rr->0 && mae >= down && (mae == before.mae_rr->0 || mae == down)
            &&& r.entry == before.entry && r.entry_ts == before.entry_ts
            &&& r.realized_rr == before.realized_rr
            &&& r.time_to_entry_ms == before.time_to_entry_ms
            &&& r.time_to_stop_ms == before.time_to_stop_ms
            &&& r.time_to_target_ms == before.time_to_target_ms
            &&& ends ==> {
                &&& r.outcome is Expired
                &&& r.exit_ts == Some((bar.ts + 60_000) as i64)
                &&& r.floating_rr is Some
                &&& nearest(
                    r.floating_rr->0 as int,
                    if s.bull {
                        bar.close - entry
                    } else {
                        entry - bar.close
                    },
                    distance_to_stop(s, entry as int),
                )
            }
            &&& !ends ==> {
                let next = step(s, w, bar)->Go_0;
                &&& r.outcome == before.outcome
                &&& r.exit_ts == before.exit_ts
                &&& r.floating_rr == before.floating_rr
                &&& next.expected == bar.ts + 60_000
                &&& next.held == w.held + 1
                &&& next.waiting == w.waiting
            }
        }),
{
    let e = entry as int;
    let risk = distance_to_stop(s, e);
    lemma_step_fits(s, e, bar);
    law_multiples_are_quotients(favourable(s, e, bar), risk, up);
    law_multiples_are_quotients(adverse(s, e, bar), risk, down);
    let gain = if s.bull {
        bar.close - entry
    } else {
        entry - bar.close
    };
    lemma_nearest(gain, risk);
    lemma_multiple_fits(gain, risk);
}

/// A candle that reaches the stop ends the position with the loss of exactly
/// one risk, whatever else it reaches, at the close of that minute.
pub proof fn law_the_stop_costs_one_risk(
    s: Setup,
    w: Walk,
    bar: BarModel,
    entry: i64,
    since: i64,
)
    requires
        holds(s, w, entry, since),
        bar.ts == w.expected,
        i64::MIN <= bar.ts + 60_000 <= i64::MAX,
        i64::MIN <= bar.ts + 60_000 - since <= i64::MAX,
        possible(bar),
        stops(s, entry as int, bar),
    ensures
        step(s, w, bar) matches Step::Stop(r) && {
            let one: int = 1_000_000_000_000_000_000;
            &&& r.outcome is Loss
            &&& r.realized_rr == Some(-1_000_000_000_000_000_000i128)
            &&& r.floating_rr == w.result.floating_rr
            &&& r.exit_ts == Some((bar.ts + 60_000) as i64)
            &&& r.time_to_stop_ms == Some((bar.ts + 60_000 - since) as i64)
            &&& r.time_to_target_ms == w.result.time_to_target_ms
            &&& r.entry == Some(entry) && r.entry_ts == Some(since)
            &&& r.mfe_rr == w.result.mfe_rr
            &&& r.mae_rr is Some && r.mae_rr->0 >= one && r.mae_rr->0 >= w.result.mae_rr->0
            &&& r.mae_rr->0 == one || r.mae_rr == w.result.mae_rr
        },
{
    lemma_step_fits(s, entry as int, bar);
}

/// A candle that reaches the target and not the stop ends the position with
/// what the target is away in risks, at the close of that minute.
pub proof fn law_the_target_pays_its_distance(
    s: Setup,
    w: Walk,
    bar: BarModel,
    entry: i64,
    since: i64,
)
    requires
        holds(s, w, entry, since),
        bar.ts == w.expected,
        i64::MIN <= bar.ts + 60_000 <= i64::MAX,
        i64::MIN <= bar.ts + 60_000 - since <= i64::MAX,
        possible(bar),
        !stops(s, entry as int, bar),
        hits(s, entry as int, bar),
        s.fixed is None ==> (if s.bull {
            s.target > entry
        } else {
            s.target < entry
        }),
    ensures
        step(s, w, bar) matches Step::Stop(r) && {
            &&& r.outcome is Win
            &&& r.realized_rr is Some
            &&& s.fixed matches Some(m) ==> nearest(r.realized_rr->0 as int, m as int, 1000)
            &&& s.fixed is None ==> nearest(
                r.realized_rr->0 as int,
                if s.bull {
                    s.target - entry
                } else {
                    entry - s.target
                },
                distance_to_stop(s, entry as int),
            )
            &&& r.exit_ts == Some((bar.ts + 60_000) as i64)
            &&& r.time_to_target_ms == Some((bar.ts + 60_000 - since) as i64)
            &&& r.time_to_stop_ms == w.result.time_to_stop_ms
            &&& r.entry == Some(entry) && r.entry_ts == Some(since)
            &&& r.mae_rr == w.result.mae_rr
            &&& r.mfe_rr is Some && r.mfe_rr->0 >= r.realized_rr->0 && r.mfe_rr->0
                >= w.result.mfe_rr->0
            &&& r.mfe_rr == r.realized_rr || r.mfe_rr == w.result.mfe_rr
        },
{
    let e = entry as int;
    lemma_step_fits(s, e, bar);
    lemma_worth_is_not_negative(s, e);
    match s.fixed {
        Some(m) => lemma_nearest(m as int, 1000),
        None => {
            let away = if s.bull {
                s.target - entry
            } else {
                entry - s.target
            };
            lemma_nearest(away, distance_to_stop(s, e));
        },
    }
}

/// A price between two others.
pub open spec fn between(p: int, low: i64, high: i64) -> bool {
    low <= p <= high
}

/// The candle and the zone have a price in common.
pub open spec fn touches(s: Setup, bar: BarModel) -> bool {
    exists|p: int| #[trigger] between(p, bar.low, bar.high) && between(p, s.low, s.high)
}

proof fn lemma_touches(s: Setup, bar: BarModel)
    requires
        s.low <= s.high,
        bar.low <= bar.high,
    ensures
        touches(s, bar) == (bar.high >= s.low && bar.low <= s.high),
{
    if bar.high >= s.low && bar.low <= s.high {
        let p: int = if bar.low >= s.low {
            bar.low as int
        } else {
            s.low as int
        };
        assert(between(p, bar.low, bar.high) && between(p, s.low, s.high));
    }
}

/// The candle reaches the price at which the idea has failed.
pub open spec fn fails(s: Setup, bar: BarModel) -> bool {
    (s.bull && bar.low <= s.stop) || (!s.bull && bar.high >= s.stop)
}

/// While no position is open, a candle that fails the idea ends the walk
/// without a fill - ambiguously where it touches the zone too -, one that only
/// touches the zone fills at its worse edge when the minute closes, and so many
/// that do neither end the walk without a fill.
pub proof fn law_the_first_touch_fills(s: Setup, w: Walk, bar: BarModel)
    requires
        w.result.entry is None,
        bar.ts == w.expected,
        i64::MIN <= bar.ts + 60_000 <= i64::MAX,
        i64::MIN <= bar.ts + 60_000 - s.as_of <= i64::MAX,
        possible(bar),
        s.low <= s.high,
    ensures
        fails(s, bar) ==> (step(s, w, bar) matches Step::Stop(r) && {
            &&& (r.outcome is Ambiguous) == touches(s, bar)
            &&& (r.outcome is Skip) == !touches(s, bar)
            &&& r.entry is None
            &&& r.exit_ts == Some((bar.ts + 60_000) as i64)
            &&& r.realized_rr == w.result.realized_rr && r.floating_rr == w.result.floating_rr
        }),
        !fails(s, bar) && touches(s, bar) ==> (step(s, w, bar) matches Step::Go(next) && {
            let r = next.result;
            &&& s.bull ==> r.entry == Some(s.high)
            &&& !s.bull ==> r.entry == Some(s.low)
            &&& r.entry_ts == Some((bar.ts + 60_000) as i64)
            &&& r.time_to_entry_ms == Some((bar.ts + 60_000 - s.as_of) as i64)
            &&& r.mfe_rr == Some(0i128) && r.mae_rr == Some(0i128)
            &&& r.outcome == w.result.outcome
            &&& next.expected == bar.ts + 60_000
            &&& next.held == w.held
        }),
        !fails(s, bar) && !touches(s, bar) && w.waiting + 1 == s.window ==> (step(
            s,
            w,
            bar,
        ) matches Step::Stop(r) && r.outcome is NoFill && r.entry is None && r.exit_ts == Some(
            (bar.ts + 60_000) as i64,
        )),
        !fails(s, bar) && !touches(s, bar) && w.waiting + 1 != s.window ==> (step(
            s,
            w,
            bar,
        ) matches Step::Go(next) && next.result == w.result && next.expected == bar.ts + 60_000
            && next.waiting == w.waiting + 1 && next.held == w.held),
{
    lemma_touches(s, bar);
}

/// A minute that is missing, or that cannot have been, ends the walk, and
/// nothing of it is counted.
pub proof fn law_nothing_is_guessed(s: Setup, w: Walk, bar: BarModel)
    requires
        bar.ts != w.expected || !possible(bar),
    ensures
        step(s, w, bar) matches Step::Stop(r) && {
            &&& r.outcome is DataGap
            &&& r.entry == w.result.entry && r.entry_ts == w.result.entry_ts
            &&& r.mfe_rr == w.result.mfe_rr && r.mae_rr == w.result.mae_rr
            &&& r.realized_rr == w.result.realized_rr && r.floating_rr == w.result.floating_rr
            &&& r.exit_ts == w.result.exit_ts
        },
{
}

/// Successive minutes from a time on in which nothing happens to a position.
pub open spec fn quiet(s: Setup, entry: int, bars: Seq<BarModel>, from: int) -> bool {
    forall|k: int| #![trigger bars[k]]
        0 <= k < bars.len() ==> bars[k].ts == from + 60_000 * k && bars[k].ts + 60_000 <= i64::MAX
            && possible(bars[k]) && !stops(s, entry, bars[k]) && !hits(s, entry, bars[k])
}

/// `m` is the largest of what was there and of the moves of the candles.
spec fn is_largest(
    m: int,
    had: int,
    s: Setup,
    entry: int,
    bars: Seq<BarModel>,
    for_it: bool,
) -> bool {
    &&& m >= had
    &&& forall|k: int| #![trigger bars[k]]
        0 <= k < bars.len() ==> m >= multiple_of(
            if for_it {
                favourable(s, entry, bars[k])
            } else {
                adverse(s, entry, bars[k])
            },
            distance_to_stop(s, entry),
        )
    &&& m == had || exists|k: int| #![trigger bars[k]]
        0 <= k < bars.len() && m == multiple_of(
            if for_it {
                favourable(s, entry, bars[k])
            } else {
                adverse(s, entry, bars[k])
            },
            distance_to_stop(s, entry),
        )
}

proof fn lemma_largest_grows(
    m: int,
    after: int,
    had: int,
    s: Setup,
    entry: int,
    bars: Seq<BarModel>,
    for_it: bool,
)
    requires
        bars.len() > 0,
        ({
            let one = multiple_of(
                if for_it {
                    favourable(s, entry, bars[0])
                } else {
                    adverse(s, entry, bars[0])
                },
                distance_to_stop(s, entry),
            );
            m >= had && m >= one && (m == had || m == one)
        }),
        is_largest(after, m, s, entry, bars.drop_first(), for_it),
    ensures
        is_largest(after, had, s, entry, bars, for_it),
{
    let rest = bars.drop_first();
    assert forall|k: int| #![trigger bars[k]] 0 <= k < bars.len() implies after >= multiple_of(
        if for_it {
            favourable(s, entry, bars[k])
        } else {
            adverse(s, entry, bars[k])
        },
        distance_to_stop(s, entry),
    ) by {
        if k > 0 {
            assert(rest[k - 1] == bars[k]);
        }
    }
    if after != m {
        let k = choose|k: int| #![trigger rest[k]]
            0 <= k < rest.len() && after == multiple_of(
                if for_it {
                    favourable(s, entry, rest[k])
                } else {
                    adverse(s, entry, rest[k])
                },
                distance_to_stop(s, entry),
            );
        assert(bars[k + 1] == rest[k]);
    } else if m != had {
        assert(bars[0] == bars[0]);
    }
}

/// A walk after quiet minutes: the same position, with its moves widened.
spec fn held_on(s: Setup, w: Walk, after: Walk, entry: i64, since: i64, bars: Seq<BarModel>) -> bool {
    &&& holds(s, after, entry, since)
    &&& after.held == w.held + bars.len()
    &&& after.expected == w.expected + 60_000 * bars.len()
    &&& after.result.outcome == w.result.outcome
    &&& after.result.realized_rr == w.result.realized_rr
    &&& after.result.floating_rr == w.result.floating_rr
    &&& after.result.time_to_entry_ms == w.result.time_to_entry_ms
    &&& is_largest(
        after.result.mfe_rr->0 as int,
        w.result.mfe_rr->0 as int,
        s,
        entry as int,
        bars,
        true,
    )
    &&& is_largest(
        after.result.mae_rr->0 as int,
        w.result.mae_rr->0 as int,
        s,
        entry as int,
        bars,
        false,
    )
}

proof fn lemma_quiet_walk(
    s: Setup,
    w: Walk,
    entry: i64,
    since: i64,
    bars: Seq<BarModel>,
    rest: Seq<BarModel>,
) -> (after: Walk)
    requires
        holds(s, w, entry, since),
        s.as_of <= w.expected,
        quiet(s, entry as int, bars, w.expected),
        w.held + bars.len() < s.holding,
    ensures
        walked(s, w, bars + rest) == walked(s, after, rest),
        held_on(s, w, after, entry, since, bars),
    decreases bars.len(),
{
    if bars.len() == 0 {
        assert(bars + rest =~= rest);
        w
    } else {
        let e = entry as int;
        let bar = bars[0];
        let risk = distance_to_stop(s, e);
        let up = multiple_of(favourable(s, e, bar), risk);
        let down = multiple_of(adverse(s, e, bar), risk);
        lemma_nearest(favourable(s, e, bar), risk);
        lemma_nearest(adverse(s, e, bar), risk);
        law_a_quiet_candle_widens_the_moves(s, w, bar, entry, since, up, down);
        let next = step(s, w, bar)->Go_0;
        let all = bars + rest;
        assert(all[0] == bar);
        assert(all.drop_first() =~= bars.drop_first() + rest);
        assert forall|k: int| #![trigger bars.drop_first()[k]]
            0 <= k < bars.drop_first().len() implies bars.drop_first()[k].ts == next.expected
            + 60_000 * k && bars.drop_first()[k].ts + 60_000 <= i64::MAX && possible(
            bars.drop_first()[k],
        ) && !stops(s, e, bars.drop_first()[k]) && !hits(s, e, bars.drop_first()[k]) by {
            assert(bars.drop_first()[k] == bars[k + 1]);
        }
        let after = lemma_quiet_walk(s, next, entry, since, bars.drop_first(), rest);
        lemma_largest_grows(
            next.result.mfe_rr->0 as int,
            after.result.mfe_rr->0 as int,
            w.result.mfe_rr->0 as int,
            s,
            e,
            bars,
            true,
        );
        lemma_largest_grows(
            next.result.mae_rr->0 as int,
            after.result.mae_rr->0 as int,
            w.result.mae_rr->0 as int,
            s,
            e,
            bars,
            false,
        );
        after
    }
}

/// The guardrails make sense for a fill inside the zone: the zone is not turned
/// over, the stop lies behind it and the target ahead of it.
pub open spec fn well_placed(g: GuardrailsModel, fixed: Option<u32>) -> bool {
    &&& g.entry_zone is Some
    &&& g.invalidation_price is Some
    &&& g.entry_zone->0.low <= g.entry_zone->0.high
    &&& g.direction is Bullish ==> g.invalidation_price->0 < g.entry_zone->0.low
    &&& g.direction is Bearish ==> g.invalidation_price->0 > g.entry_zone->0.high
    &&& g.direction is Bullish || g.direction is Bearish
    &&& match fixed {
        Some(m) => m > 0,
        None => g.targets.len() > 0 && (g.direction is Bullish ==> g.targets[0]
            > g.entry_zone->0.high) && (g.direction is Bearish ==> g.targets[0]
            < g.entry_zone->0.low),
    }
}

/// A position that is filled at the alert and left alone by the first candles
/// bounds every move of them: its largest move for it is one of theirs and
/// none of theirs is larger, and so for its largest move against it. With
/// fewer candles than it may be held it is undecided; the last one that it may
/// be held ends it with the floating result of its close.
pub proof fn law_moves_cover_every_held_candle(
    g: GuardrailsModel,
    as_of: i64,
    price: i64,
    bars: Seq<BarModel>,
    window: usize,
    holding: usize,
    fixed: Option<u32>,
    k: int,
    up: int,
    down: int,
)
    requires
        well_placed(g, fixed),
        g.entry_zone->0.low <= price <= g.entry_zone->0.high,
        window > 0,
        0 < bars.len() <= holding,
        quiet(
            setup_of(g, as_of, price, window, holding, fixed),
            price as int,
            bars,
            as_of as int,
        ),
        0 <= k < bars.len(),
        ({
            let s = setup_of(g, as_of, price, window, holding, fixed);
            &&& nearest(up, favourable(s, price as int, bars[k]), distance_to_stop(s, price as int))
            &&& nearest(down, adverse(s, price as int, bars[k]), distance_to_stop(s, price as int))
        }),
    ensures
        ({
            let s = setup_of(g, as_of, price, window, holding, fixed);
            let r = simulated(g, as_of, price, bars, window, holding, fixed);
            let risk = distance_to_stop(s, price as int);
            &&& r.entry == Some(price) && r.entry_ts == Some(as_of)
            &&& r.time_to_entry_ms == Some(0i64)
            &&& r.mfe_rr is Some && r.mae_rr is Some
            &&& r.mfe_rr->0 >= up && r.mfe_rr->0 >= 0
            &&& r.mae_rr->0 >= down && r.mae_rr->0 >= 0
            &&& r.mfe_rr->0 == 0 || exists|j: int| #![trigger bars[j]]
                0 <= j < bars.len() && nearest(
                    r.mfe_rr->0 as int,
                    favourable(s, price as int, bars[j]),
                    risk,
                )
            &&& r.mae_rr->0 == 0 || exists|j: int| #![trigger bars[j]]
                0 <= j < bars.len() && nearest(
                    r.mae_rr->0 as int,
                    adverse(s, price as int, bars[j]),
                    risk,
                )
            &&& r.realized_rr is None
            &&& bars.len() < holding ==> r.outcome is InsufficientData && r.floating_rr is None
            &&& bars.len() == holding ==> r.outcome is Expired && r.floating_rr is Some && nearest(
                r.floating_rr->0 as int,
                if s.bull {
                    bars.last().close - price
                } else {
                    price - bars.last().close
                },
                risk,
            ) && r.exit_ts == Some((as_of + 60_000 * bars.len()) as i64)
        }),
{
    let s = setup_of(g, as_of, price, window, holding, fixed);
    let w = start_of(s, price);
    let e = price as int;
    let risk = distance_to_stop(s, e);
    let r = simulated(g, as_of, price, bars, window, holding, fixed);
    assert(holds(s, w, price, as_of));
    assert(r == walked(s, w, bars));
    law_multiples_are_quotients(favourable(s, e, bars[k]), risk, up);
    law_multiples_are_quotients(adverse(s, e, bars[k]), risk, down);
    lemma_held_to_the_end(s, w, price, as_of, bars);
    lemma_largest_is_near(r.mfe_rr->0 as int, s, e, bars, true);
    lemma_largest_is_near(r.mae_rr->0 as int, s, e, bars, false);
}

proof fn lemma_largest_is_near(m: int, s: Setup, entry: int, bars: Seq<BarModel>, for_it: bool)
    requires
        is_largest(m, 0, s, entry, bars, for_it),
        distance_to_stop(s, entry) > 0,
    ensures
        m >= 0,
        m == 0 || exists|j: int| #![trigger bars[j]]
            0 <= j < bars.len() && nearest(
                m,
                if for_it {
                    favourable(s, entry, bars[j])
                } else {
                    adverse(s, entry, bars[j])
                },
                distance_to_stop(s, entry),
            ),
{
    if m != 0 {
        let j = choose|j: int| #![trigger bars[j]]
            0 <= j < bars.len() && m == multiple_of(
                if for_it {
                    favourable(s, entry, bars[j])
                } else {
                    adverse(s, entry, bars[j])
                },
                distance_to_stop(s, entry),
            );
        lemma_nearest(
            if for_it {
                favourable(s, entry, bars[j])
            } else {
                adverse(s, entry, bars[j])
            },
            distance_to_stop(s, entry),
        );
    }
}

proof fn lemma_largest_with_last(
    m: int,
    before: int,
    s: Setup,
    entry: int,
    bars: Seq<BarModel>,
    for_it: bool,
)
    requires
        bars.len() > 0,
        is_largest(before, 0, s, entry, bars.drop_last(), for_it),
        ({
            let one = multiple_of(
                if for_it {
                    favourable(s, entry, bars.last())
                } else {
                    adverse(s, entry, bars.last())
                },
                distance_to_stop(s, entry),
            );
            m >= before && m >= one && (m == before || m == one)
        }),
    ensures
        is_largest(m, 0, s, entry, bars, for_it),
{
    let most = bars.drop_last();
    let n = most.len() as int;
    assert(bars[n] == bars.last());
    assert forall|k: int| #![trigger bars[k]] 0 <= k < bars.len() implies m >= multiple_of(
        if for_it {
            favourable(s, entry, bars[k])
        } else {
            adverse(s, entry, bars[k])
        },
        distance_to_stop(s, entry),
    ) by {
        if k < n {
            assert(most[k] == bars[k]);
        }
    }
    if m == before && before != 0 {
        let j = choose|j: int| #![trigger most[j]]
            0 <= j < most.len() && before == multiple_of(
                if for_it {
                    favourable(s, entry, most[j])
                } else {
                    adverse(s, entry, most[j])
                },
                distance_to_stop(s, entry),
            );
        assert(bars[j] == most[j]);
    }
}

proof fn lemma_held_to_the_end(s: Setup, w: Walk, entry: i64, since: i64, bars: Seq<BarModel>)
    requires
        holds(s, w, entry, since),
        w.held == 0,
        w.result.mfe_rr == Some(0i128),
        w.result.mae_rr == Some(0i128),
        w.result.realized_rr is None,
        w.result.floating_rr is None,
        w.result.outcome is InsufficientData,
        s.as_of <= w.expected,
        0 < bars.len() <= s.holding,
        quiet(s, entry as int, bars, w.expected),
    ensures
        ({
            let r = walked(s, w, bars);
            &&& r.entry == Some(entry) && r.entry_ts == Some(since)
            &&& r.time_to_entry_ms == w.result.time_to_entry_ms
            &&& r.mfe_rr is Some && r.mae_rr is Some
            &&& is_largest(r.mfe_rr->0 as int, 0, s, entry as int, bars, true)
            &&& is_largest(r.mae_rr->0 as int, 0, s, entry as int, bars, false)
            &&& r.realized_rr is None
            &&& bars.len() < s.holding ==> r.outcome is InsufficientData && r.floating_rr is None
            &&& bars.len() == s.holding ==> r.outcome is Expired && r.floating_rr is Some
                && nearest(
                r.floating_rr->0 as int,
                if s.bull {
                    bars.last().close - entry
                } else {
                    entry - bars.last().close
                },
                distance_to_stop(s, entry as int),
            ) && r.exit_ts == Some((w.expected + 60_000 * bars.len()) as i64)
        }),
{
    let e = entry as int;
    let risk = distance_to_stop(s, e);
    if bars.len() < s.holding {
        assert(bars + Seq::<BarModel>::empty() =~= bars);
        let _ = lemma_quiet_walk(s, w, entry, since, bars, Seq::empty());
    } else {
        let most = bars.drop_last();
        let last = bars.last();
        let n = most.len() as int;
        assert(most + seq![last] =~= bars);
        assert(bars[n] == last);
        assert forall|j: int| #![trigger most[j]] 0 <= j < most.len() implies most[j].ts
            == w.expected + 60_000 * j && most[j].ts + 60_000 <= i64::MAX && possible(most[j])
            && !stops(s, e, most[j]) && !hits(s, e, most[j]) by {
            assert(most[j] == bars[j]);
        }
        let after = lemma_quiet_walk(s, w, entry, since, most, seq![last]);
        lemma_nearest(favourable(s, e, last), risk);
        lemma_nearest(adverse(s, e, last), risk);
        law_a_quiet_candle_widens_the_moves(
            s,
            after,
            last,
            entry,
            since,
            multiple_of(favourable(s, e, last), risk),
            multiple_of(adverse(s, e, last), risk),
        );
        let r = step(s, after, last)->Stop_0;
        assert(seq![last][0] == last);
        assert(walked(s, after, seq![last]) == r);
        lemma_largest_with_last(
            r.mfe_rr->0 as int,
            after.result.mfe_rr->0 as int,
            s,
            e,
            bars,
            true,
        );
        lemma_largest_with_last(
            r.mae_rr->0 as int,
            after.result.mae_rr->0 as int,
            s,
            e,
            bars,
            false,
        );
    }
}

/// A position that is filled at the alert and left alone by the first candles
/// is decided by the first that reaches its stop or its target, the stop first;
/// what follows does not count.
pub proof fn law_the_first_reach_decides(
    g: GuardrailsModel,
    as_of: i64,
    price: i64,
    bars: Seq<BarModel>,
    end: BarModel,
    rest: Seq<BarModel>,
    window: usize,
    holding: usize,
    fixed: Option<u32>,
)
    requires
        well_placed(g, fixed),
        g.entry_zone->0.low <= price <= g.entry_zone->0.high,
        window > 0,
        bars.len() < holding,
        quiet(
            setup_of(g, as_of, price, window, holding, fixed),
            price as int,
            bars,
            as_of as int,
        ),
        end.ts == as_of + 60_000 * bars.len(),
        end.ts + 60_000 <= i64::MAX,
        end.ts + 60_000 - as_of <= i64::MAX,
        possible(end),
        ({
            let s = setup_of(g, as_of, price, window, holding, fixed);
            stops(s, price as int, end) || hits(s, price as int, end)
        }),
    ensures
        ({
            let s = setup_of(g, as_of, price, window, holding, fixed);
            let r = simulated(g, as_of, price, bars + seq![end] + rest, window, holding, fixed);
            &&& (r.outcome is Loss) == stops(s, price as int, end)
            &&& (r.outcome is Win) == !stops(s, price as int, end)
            &&& r.entry == Some(price) && r.entry_ts == Some(as_of)
            &&& r.exit_ts == Some((as_of + 60_000 * (bars.len() + 1)) as i64)
            &&& r.floating_rr is None
            &&& r.outcome is Loss ==> r.realized_rr == Some(-1_000_000_000_000_000_000i128)
                && r.time_to_stop_ms == Some((60_000 * (bars.len() + 1)) as i64)
                && r.time_to_target_ms is None
            &&& r.outcome is Win ==> r.realized_rr is Some && r.time_to_target_ms == Some(
                (60_000 * (bars.len() + 1)) as i64,
            ) && r.time_to_stop_ms is None
            &&& r.outcome is Win && fixed is Some ==> nearest(
                r.realized_rr->0 as int,
                fixed->0 as int,
                1000,
            )
            &&& r.outcome is Win && fixed is None ==> nearest(
                r.realized_rr->0 as int,
                if s.bull {
                    s.target - price
                } else {
                    price - s.target
                },
                distance_to_stop(s, price as int),
            )
        }),
{
    let s = setup_of(g, as_of, price, window, holding, fixed);
    let w = start_of(s, price);
    let e = price as int;
    let tail = seq![end] + rest;
    assert(holds(s, w, price, as_of));
    let all = bars + seq![end] + rest;
    assert(all =~= bars + tail);
    assert(simulated(g, as_of, price, all, window, holding, fixed) == walked(s, w, all));
    let after = lemma_quiet_walk_times(s, w, price, as_of, bars, tail);
    assert(tail[0] == end);
    assert(end.ts == after.expected);
    if stops(s, e, end) {
        law_the_stop_costs_one_risk(s, after, end, price, as_of);
    } else {
        law_the_target_pays_its_distance(s, after, end, price, as_of);
    }
}

proof fn lemma_quiet_walk_times(
    s: Setup,
    w: Walk,
    entry: i64,
    since: i64,
    bars: Seq<BarModel>,
    rest: Seq<BarModel>,
) -> (after: Walk)
    requires
        holds(s, w, entry, since),
        s.as_of <= w.expected,
        quiet(s, entry as int, bars, w.expected),
        w.held + bars.len() < s.holding,
    ensures
        walked(s, w, bars + rest) == walked(s, after, rest),
        holds(s, after, entry, since),
        after.expected == w.expected + 60_000 * bars.len(),
        after.result.floating_rr == w.result.floating_rr,
        after.result.time_to_stop_ms == w.result.time_to_stop_ms,
        after.result.time_to_target_ms == w.result.time_to_target_ms,
    decreases bars.len(),
{
    if bars.len() == 0 {
        assert(bars + rest =~= rest);
        w
    } else {
        let e = entry as int;
        let bar = bars[0];
        let risk = distance_to_stop(s, e);
        lemma_nearest(favourable(s, e, bar), risk);
        lemma_nearest(adverse(s, e, bar), risk);
        law_a_quiet_candle_widens_the_moves(
            s,
            w,
            bar,
            entry,
            since,
            multiple_of(favourable(s, e, bar), risk),
            multiple_of(adverse(s, e, bar), risk),
        );
        let next = step(s, w, bar)->Go_0;
        let all = bars + rest;
        assert(all[0] == bar);
        assert(all.drop_first() =~= bars.drop_first() + rest);
        assert forall|k: int| #![trigger bars.drop_first()[k]]
            0 <= k < bars.drop_first().len() implies bars.drop_first()[k].ts == next.expected
            + 60_000 * k && bars.drop_first()[k].ts + 60_000 <= i64::MAX && possible(
            bars.drop_first()[k],
        ) && !stops(s, e, bars.drop_first()[k]) && !hits(s, e, bars.drop_first()[k]) by {
            assert(bars.drop_first()[k] == bars[k + 1]);
        }
        lemma_quiet_walk_times(s, next, entry, since, bars.drop_first(), rest)
    }
}

/// What cannot be simulated is excluded, and a price that is already beyond the
/// stop is skipped; neither opens a position.
pub proof fn law_senseless_guardrails_are_excluded(
    g: GuardrailsModel,
    as_of: i64,
    price: i64,
    bars: Seq<BarModel>,
    window: usize,
    holding: usize,
    fixed: Option<u32>,
)
    ensures
        ({
            let r = simulated(g, as_of, price, bars, window, holding, fixed);
            let sense = well_placed(g, fixed) && window > 0 && holding > 0;
            let beyond = (g.direction is Bullish && price <= g.invalidation_price->0) || (
            g.direction is Bearish && price >= g.invalidation_price->0);
            &&& !sense ==> r.outcome is Excluded && r.entry is None && r.realized_rr is None
            &&& sense && beyond ==> r.outcome is Skip && r.entry is None && r.realized_rr is None
            &&& sense && bars.len() == 0 && !beyond ==> r.outcome is InsufficientData && (
            r.entry is Some) == (g.entry_zone->0.low <= price <= g.entry_zone->0.high)
        }),
{
}

/// The stop of the second candle lies a number of points behind its extreme,
/// and the target the same risks ahead of the price as it is a multiple; a
/// price on the wrong side of either is not simulated.
pub proof fn law_the_second_candle_sets_the_risk(
    g: GuardrailsModel,
    point: i64,
    c2: CandleRef,
    as_of: i64,
    price: i64,
    bars: Seq<BarModel>,
    holding: usize,
    buffer: u8,
    multiple: u32,
    stop: int,
)
    requires
        g.direction is Bullish || g.direction is Bearish,
        g.direction is Bullish ==> c2.low - stop == buffer * point,
        g.direction is Bearish ==> stop - c2.high == buffer * point,
        i64::MIN <= stop <= i64::MAX,
        c2.low <= c2.high,
    ensures
        ({
            let r = user_simulated(g, point, c2, as_of, price, bars, holding, buffer, multiple);
            let bull = g.direction is Bullish;
            let risk = if bull {
                price - stop
            } else {
                stop - price
            };
            let right = risk > 0 && (if bull {
                price > c2.low
            } else {
                price < c2.high
            });
            &&& r.stop == Some(stop as i64)
            &&& r.buffer_points == buffer && r.multiple == multiple
            &&& !right ==> r.simulation.outcome is Excluded && r.target is None
                && r.target1_in_user_r is None
            &&& right ==> {
                &&& r.target is Some
                &&& bull ==> r.target->0 - price * 1000 == multiple * risk
                &&& !bull ==> price * 1000 - r.target->0 == multiple * risk
                &&& g.targets.len() == 0 ==> r.target1_in_user_r is None
                &&& g.targets.len() > 0 ==> r.target1_in_user_r is Some && nearest(
                    r.target1_in_user_r->0 as int,
                    if bull {
                        g.targets[0] - price
                    } else {
                        price - g.targets[0]
                    },
                    risk,
                )
                &&& multiple > 0 && holding > 0 && bars.len() == 0 ==> r.simulation.entry == Some(
                    price,
                ) && r.simulation.entry_ts == Some(as_of)
            }
        }),
{
    let bull = g.direction is Bullish;
    let risk = if bull {
        price - stop
    } else {
        stop - price
    };
    if risk > 0 {
        assert(0 <= multiple * risk <= 0xffff_ffff * 0x1_0000_0000_0000_0000) by (nonlinear_arith)
            requires
                0 <= multiple <= 0xffff_ffff,
                0 <= risk <= 0x1_0000_0000_0000_0000,
        ;
        if g.targets.len() > 0 {
            let away = if bull {
                g.targets[0] - price
            } else {
                price - g.targets[0]
            };
            lemma_nearest(away, risk);
            lemma_multiple_fits(away, risk);
        }
    }
}

} // verus!
