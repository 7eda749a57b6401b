//! The minute-by-minute simulator.
//!
//! Candles carry their opening time. A position opens at the close of the
//! alert, so only candles that start there or later are looked at, and times
//! of touches are the closes of candles.
use vstd::prelude::*;
use crate::backtest::model::{
    nothing, EntryZone, Guardrails, GuardrailsModel, Outcome, Simulation, SimulationModel,
    TradeDirection, UserResult, UserResultModel, MINUTE, R_SCALE,
};
use crate::detector::CandleRef;
use crate::text::{decimal, owned, push_decimal};
use crate::types::{clamped, saturating_difference, Bar, BarModel};

verus! {

/// A quotient as a multiple of the risk, rounded to the nearest unit.
pub open spec fn multiple_of(num: int, den: int) -> int {
    (2 * num * R_SCALE + den) / (2 * den)
}

fn make_multiple(num: i128, den: i128) -> (r: i128)
    requires
        0 < den <= 0x1_0000_0000_0000_0000,
        -0x2_0000_0000_0000_0000 <= num <= 0x2_0000_0000_0000_0000,
    ensures
        r == multiple_of(num as int, den as int),
{
    let n: i128 = num * 2_000_000_000_000_000_000 + den;
    let d: i128 = 2 * den;
    floor_div(n, d)
}

/// A quotient rounded down.
fn floor_div(n: i128, d: i128) -> (r: i128)
    requires
        0 < d <= 0x2_0000_0000_0000_0000,
        i128::MIN < n,
    ensures
        r == (n as int) / (d as int),
{
    if n >= 0 {
        n / d
    } else {
        let m: i128 = -(n + 1);
        let q: i128 = m / d;
        let r: i128 = -q - 1;
        proof {
            let (ni, di, mi, qi) = (n as int, d as int, m as int, q as int);
            vstd::arithmetic::div_mod::lemma_fundamental_div_mod(mi, di);
            let rem = mi % di;
            assert(0 <= rem < di) by {
                vstd::arithmetic::div_mod::lemma_mod_bound(mi, di);
            }
            assert(ni == di * (-qi - 1) + (di - 1 - rem)) by (nonlinear_arith)
                requires
                    mi == -(ni + 1),
                    mi == di * qi + rem,
            ;
            vstd::arithmetic::div_mod::lemma_fundamental_div_mod_converse(
                ni,
                di,
                -qi - 1,
                di - 1 - rem,
            );
        }
        r
    }
}

/// Everything that is fixed before the first candle is looked at.
#[derive(Clone, Copy)]
pub struct Setup {
    pub bull: bool,
    pub low: i64,
    pub high: i64,
    pub stop: i64,
    /// Price of the target, where it does not depend on the fill.
    pub target: i64,
    /// Target as a multiple of the actual risk, in thousandths.
    pub fixed: Option<u32>,
    pub as_of: i64,
    pub window: usize,
    pub holding: usize,
}

/// Where a walk over the candles stands.
#[verifier::ext_equal]
pub struct Walk {
    pub result: SimulationModel,
    /// Opening time of the next candle.
    pub expected: int,
    /// Candles waited for an entry.
    pub waiting: int,
    /// Candles that the position was held.
    pub held: int,
}

/// What one candle does to a walk.
pub enum Step {
    Go(Walk),
    Stop(SimulationModel),
}

/// A candle whose extremes hold its open and its close.
pub open spec fn sound(bar: BarModel) -> bool {
    &&& bar.low <= bar.open
    &&& bar.low <= bar.close
    &&& bar.high >= bar.open
    &&& bar.high >= bar.close
}

/// The candle reaches the price at which the idea has failed.
pub open spec fn reaches_stop(s: Setup, bar: BarModel) -> bool {
    if s.bull {
        bar.low <= s.stop
    } else {
        bar.high >= s.stop
    }
}

/// The initial risk of a fill.
pub open spec fn risk_of(s: Setup, entry: int) -> int {
    if entry >= s.stop {
        entry - s.stop
    } else {
        s.stop - entry
    }
}

/// How far a price lies from the fill in the direction of the position.
pub open spec fn gain_of(s: Setup, entry: int, price: int) -> int {
    if s.bull {
        price - entry
    } else {
        entry - price
    }
}

/// The candle reaches the target.
pub open spec fn reaches_target(s: Setup, entry: int, bar: BarModel) -> bool {
    let best = if s.bull {
        bar.high
    } else {
        bar.low
    };
    match s.fixed {
        Some(r) => gain_of(s, entry, best as int) * 1000 >= r * risk_of(s, entry),
        None => if s.bull {
            bar.high >= s.target
        } else {
            bar.low <= s.target
        },
    }
}

/// What the target is worth.
pub open spec fn target_worth(s: Setup, entry: int) -> int {
    match s.fixed {
        Some(r) => multiple_of(r as int, 1000),
        None => multiple_of(
            if s.target >= entry {
                s.target - entry
            } else {
                entry - s.target
            },
            risk_of(s, entry),
        ),
    }
}

/// The larger of two numbers.
pub open spec fn larger(a: int, b: int) -> int {
    if a >= b {
        a
    } else {
        b
    }
}

/// A candle while no position is open.
pub open spec fn waiting_step(s: Setup, w: Walk, bar: BarModel) -> Step {
    let touched = bar.high >= s.low && bar.low <= s.high;
    let next = w.expected + MINUTE;
    if reaches_stop(s, bar) {
        Step::Stop(
            SimulationModel {
                outcome: if touched {
                    Outcome::Ambiguous
                } else {
                    Outcome::Skip
                },
                reason: if touched {
                    "entry_and_stop_same_m1"@
                } else {
                    "stop_before_entry"@
                },
                exit_ts: Some(next as i64),
                ..w.result
            },
        )
    } else if touched {
        Step::Go(
            Walk {
                result: SimulationModel {
                    entry: Some(
                        if s.bull {
                            s.high
                        } else {
                            s.low
                        },
                    ),
                    entry_ts: Some(next as i64),
                    time_to_entry_ms: Some(clamped(next - s.as_of) as i64),
                    mfe_rr: Some(0),
                    mae_rr: Some(0),
                    ..w.result
                },
                expected: next,
                waiting: w.waiting + 1,
                held: w.held,
            },
        )
    } else if w.waiting + 1 == s.window {
        Step::Stop(
            SimulationModel {
                outcome: Outcome::NoFill,
                reason: "entry_window_exhausted"@,
                exit_ts: Some(next as i64),
                ..w.result
            },
        )
    } else {
        Step::Go(Walk { expected: next, waiting: w.waiting + 1, ..w })
    }
}

/// A candle while a position is open at `entry` since `entry_ts`.
pub open spec fn holding_step(s: Setup, w: Walk, bar: BarModel, entry: int, entry_ts: int) -> Step {
    let next = w.expected + MINUTE;
    let risk = risk_of(s, entry);
    let stopped = reaches_stop(s, bar);
    let hit = reaches_target(s, entry, bar);
    let best = w.result.mfe_rr->0 as int;
    let worst = w.result.mae_rr->0 as int;
    if stopped || hit {
        let worth = if stopped {
            -R_SCALE
        } else {
            target_worth(s, entry)
        };
        let elapsed = clamped(next - entry_ts) as i64;
        Step::Stop(
            SimulationModel {
                mfe_rr: Some(larger(best, larger(worth, 0)) as i128),
                mae_rr: Some(larger(worst, larger(-worth, 0)) as i128),
                outcome: if stopped {
                    Outcome::Loss
                } else {
                    Outcome::Win
                },
                reason: if stopped && hit {
                    "target_and_stop_same_m1_loss"@
                } else if stopped {
                    "stop_first"@
                } else {
                    "target_first"@
                },
                realized_rr: Some(worth as i128),
                exit_ts: Some(next as i64),
                time_to_stop_ms: if stopped {
                    Some(elapsed)
                } else {
                    w.result.time_to_stop_ms
                },
                time_to_target_ms: if stopped {
                    w.result.time_to_target_ms
                } else {
                    Some(elapsed)
                },
                ..w.result
            },
        )
    } else {
        let up = if s.bull {
            bar.high - entry
        } else {
            entry - bar.low
        };
        let down = if s.bull {
            entry - bar.low
        } else {
            bar.high - entry
        };
        let seen = SimulationModel {
            mfe_rr: Some(larger(larger(best, multiple_of(up, risk)), 0) as i128),
            mae_rr: Some(larger(larger(worst, multiple_of(down, risk)), 0) as i128),
            ..w.result
        };
        if w.held + 1 == s.holding {
            Step::Stop(
                SimulationModel {
                    outcome: Outcome::Expired,
                    reason: "holding_window_exhausted"@,
                    exit_ts: Some(next as i64),
                    floating_rr: Some(
                        multiple_of(gain_of(s, entry, bar.close as int), risk) as i128,
                    ),
                    ..seen
                },
            )
        } else {
            Step::Go(Walk { result: seen, expected: next, held: w.held + 1, ..w })
        }
    }
}

/// What one candle does: a missing minute or an impossible candle ends the
/// walk, and nothing is guessed across it.
pub open spec fn step(s: Setup, w: Walk, bar: BarModel) -> Step {
    if bar.ts != w.expected {
        Step::Stop(
            SimulationModel {
                outcome: Outcome::DataGap,
                reason: "missing_m1_at_"@ + decimal(w.expected),
                ..w.result
            },
        )
    } else if !sound(bar) {
        Step::Stop(
            SimulationModel {
                outcome: Outcome::DataGap,
                reason: "invalid_ohlc_at_"@ + decimal(bar.ts as int),
                ..w.result
            },
        )
    } else {
        match (w.result.entry, w.result.entry_ts) {
            (Some(entry), Some(entry_ts)) => holding_step(
                s,
                w,
                bar,
                entry as int,
                entry_ts as int,
            ),
            _ => waiting_step(s, w, bar),
        }
    }
}

/// The walk over the candles from the alert on; candles before it do not
/// count.
pub open spec fn walked(s: Setup, w: Walk, bars: Seq<BarModel>) -> SimulationModel
    decreases bars.len(),
{
    if bars.len() == 0 {
        w.result
    } else if bars[0].ts < s.as_of {
        walked(s, w, bars.drop_first())
    } else {
        match step(s, w, bars[0]) {
            Step::Stop(result) => result,
            Step::Go(next) => walked(s, next, bars.drop_first()),
        }
    }
}

/// The walk before the first candle: a price inside the zone is filled at
/// once.
pub open spec fn start_of(s: Setup, price: i64) -> Walk {
    let blank = nothing(Outcome::InsufficientData, "source_tail_before_resolution"@);
    Walk {
        result: if s.low <= price <= s.high {
            SimulationModel {
                entry: Some(price),
                entry_ts: Some(s.as_of),
                time_to_entry_ms: Some(0),
                mfe_rr: Some(0),
                mae_rr: Some(0),
                ..blank
            }
        } else {
            blank
        },
        expected: s.as_of as int,
        waiting: 0,
        held: 0,
    }
}

/// The geometry makes sense: the zone is not turned over, the stop lies on the
/// adverse side of it and the target on the favourable one.
pub open spec fn sensible(g: GuardrailsModel, s: Setup) -> bool {
    &&& s.fixed != Some(0u32)
    &&& s.low <= s.high
    &&& s.window > 0
    &&& s.holding > 0
    &&& match g.direction {
        TradeDirection::Bullish => s.stop < s.low && (s.fixed is None ==> s.target > s.high),
        TradeDirection::Bearish => s.stop > s.high && (s.fixed is None ==> s.target < s.low),
        TradeDirection::Neutral => false,
    }
}

/// What a simulation finds. `fixed` is the exit as a multiple of the risk in
/// thousandths; without it the exit is the first target.
pub open spec fn simulated(
    g: GuardrailsModel,
    as_of: i64,
    price: i64,
    bars: Seq<BarModel>,
    window: usize,
    holding: usize,
    fixed: Option<u32>,
) -> SimulationModel {
    if g.entry_zone is None {
        nothing(Outcome::Excluded, "missing_entry_zone"@)
    } else if g.invalidation_price is None {
        nothing(Outcome::Excluded, "missing_invalidation"@)
    } else if fixed is None && g.targets.len() == 0 {
        nothing(Outcome::Excluded, "missing_target"@)
    } else {
        let s = Setup {
            bull: g.direction is Bullish,
            low: g.entry_zone->0.low,
            high: g.entry_zone->0.high,
            stop: g.invalidation_price->0,
            target: if fixed is Some {
                price
            } else {
                g.targets[0]
            },
            fixed,
            as_of,
            window,
            holding,
        };
        if !sensible(g, s) {
            nothing(Outcome::Excluded, "invalid_geometry_or_parameters"@)
        } else if if s.bull {
            price <= s.stop
        } else {
            price >= s.stop
        } {
            nothing(Outcome::Skip, "invalidated_at_anchor"@)
        } else {
            walked(s, start_of(s, price), bars)
        }
    }
}

/// The candles leave room for their own close.
pub open spec fn closable(bars: Seq<BarModel>) -> bool {
    forall|k: int| 0 <= k < bars.len() ==> (#[trigger] bars[k]).ts <= i64::MAX - MINUTE
}

/// The position, if it is open, is consistent with the setup.
pub open spec fn tenable(s: Setup, w: Walk) -> bool {
    &&& (w.result.entry is Some) == (w.result.entry_ts is Some)
    &&& w.result.entry matches Some(e) ==> (if s.bull {
        e > s.stop
    } else {
        e < s.stop
    })
    &&& w.result.entry is Some ==> w.result.mfe_rr is Some && w.result.mae_rr is Some
        && w.result.mfe_rr->0 >= 0 && w.result.mae_rr->0 >= 0
    &&& 0 <= w.waiting
    &&& 0 <= w.held
    &&& w.result.entry is None ==> w.waiting < s.window && w.held == 0
    &&& w.result.entry is Some ==> w.held < s.holding
}

fn max_of(a: i128, b: i128) -> (r: i128)
    ensures
        r == larger(a as int, b as int),
{
    if a >= b {
        a
    } else {
        b
    }
}

/// Simulates a position that ends at the first target.
pub fn simulate(
    g: &Guardrails,
    as_of: i64,
    price: i64,
    bars: &[Bar],
    window: usize,
    holding: usize,
) -> (r: Simulation)
    requires
        closable(bars.deep_view()),
    ensures
        r@ == simulated(g@, as_of, price, bars.deep_view(), window, holding, None),
{
    simulate_exit(g, as_of, price, bars, window, holding, None)
}

fn reaches(s: &Setup, entry: i64, bar: &Bar) -> (r: bool)
    ensures
        r == reaches_target(*s, entry as int, bar@),
{
    match s.fixed {
        Some(m) => {
            let gain: i128 = if s.bull {
                bar.high as i128 - entry as i128
            } else {
                entry as i128 - bar.low as i128
            };
            let risk: i128 = if entry >= s.stop {
                entry as i128 - s.stop as i128
            } else {
                s.stop as i128 - entry as i128
            };
            let needed: i128 = checked_product(m, risk);
            gain * 1000 >= needed
        },
        None => if s.bull {
            bar.high >= s.target
        } else {
            bar.low <= s.target
        },
    }
}

fn checked_product(m: u32, risk: i128) -> (r: i128)
    requires
        0 <= risk <= 0x1_0000_0000_0000_0000,
    ensures
        r == m * risk,
        0 <= r <= 0x1_0000_0000_0000_0000_0000_0000,
{
    proof {
        assert(0 <= m * risk <= 0xffff_ffff * 0x1_0000_0000_0000_0000) by (nonlinear_arith)
            requires
                0 <= m <= 0xffff_ffff,
                0 <= risk <= 0x1_0000_0000_0000_0000,
        ;
    }
    (m as i128) * risk
}

fn worth_of_target(s: &Setup, entry: i64) -> (r: i128)
    requires
        entry != s.stop,
    ensures
        r == target_worth(*s, entry as int),
{
    match s.fixed {
        Some(m) => make_multiple(m as i128, 1000),
        None => {
            let distance: i128 = if s.target >= entry {
                s.target as i128 - entry as i128
            } else {
                entry as i128 - s.target as i128
            };
            let risk: i128 = if entry >= s.stop {
                entry as i128 - s.stop as i128
            } else {
                s.stop as i128 - entry as i128
            };
            make_multiple(distance, risk)
        },
    }
}

/// Where a simulation stands.
struct Progress {
    result: Simulation,
    expected: i64,
    waiting: usize,
    held: usize,
}

impl View for Progress {
    type V = Walk;

    closed spec fn view(&self) -> Walk {
        Walk {
            result: self.result@,
            expected: self.expected as int,
            waiting: self.waiting as int,
            held: self.held as int,
        }
    }
}

/// The walk after a step agrees with what a step says.
spec fn agrees(after: Walk, done: bool, what: Step) -> bool {
    match what {
        Step::Stop(result) => done && after.result == result,
        Step::Go(next) => !done && after == next,
    }
}

/// A setup that can be simulated.
pub open spec fn workable(s: Setup) -> bool {
    &&& s.window > 0
    &&& s.holding > 0
    &&& s.low <= s.high
    &&& if s.bull {
        s.stop < s.low
    } else {
        s.stop > s.high
    }
}

fn wait_one(s: &Setup, p: &mut Progress, bar: &Bar) -> (done: bool)
    requires
        workable(*s),
        tenable(*s, old(p)@),
        old(p)@.result.entry is None,
        old(p)@.expected <= i64::MAX - MINUTE,
    ensures
        agrees(final(p)@, done, waiting_step(*s, old(p)@, bar@)),
        !done ==> tenable(*s, final(p)@),
{
    let ghost w = p@;
    p.expected = p.expected + MINUTE;
    let stopped = if s.bull {
        bar.low <= s.stop
    } else {
        bar.high >= s.stop
    };
    let touched = bar.high >= s.low && bar.low <= s.high;
    if stopped {
        p.result.outcome = if touched {
            Outcome::Ambiguous
        } else {
            Outcome::Skip
        };
        p.result.reason = if touched {
            owned("entry_and_stop_same_m1")
        } else {
            owned("stop_before_entry")
        };
        p.result.exit_ts = Some(p.expected);
        return true;
    }
    p.waiting = p.waiting + 1;
    if touched {
        p.result.entry = Some(if s.bull {
            s.high
        } else {
            s.low
        });
        p.result.entry_ts = Some(p.expected);
        p.result.time_to_entry_ms = Some(saturating_difference(p.expected, s.as_of));
        p.result.mfe_rr = Some(0);
        p.result.mae_rr = Some(0);
        return false;
    }
    if p.waiting == s.window {
        p.result.outcome = Outcome::NoFill;
        p.result.reason = owned("entry_window_exhausted");
        p.result.exit_ts = Some(p.expected);
        return true;
    }
    false
}

fn hold_one(s: &Setup, p: &mut Progress, bar: &Bar, entry: i64, entry_ts: i64) -> (done: bool)
    requires
        workable(*s),
        tenable(*s, old(p)@),
        old(p)@.result.entry == Some(entry),
        old(p)@.result.entry_ts == Some(entry_ts),
        old(p)@.expected <= i64::MAX - MINUTE,
    ensures
        agrees(final(p)@, done, holding_step(*s, old(p)@, bar@, entry as int, entry_ts as int)),
        !done ==> tenable(*s, final(p)@),
{
    p.expected = p.expected + MINUTE;
    let stopped = if s.bull {
        bar.low <= s.stop
    } else {
        bar.high >= s.stop
    };
    let best: i128 = match p.result.mfe_rr {
        Some(x) => x,
        None => 0,
    };
    let worst: i128 = match p.result.mae_rr {
        Some(x) => x,
        None => 0,
    };
    let hit = reaches(s, entry, bar);
    if stopped || hit {
        let worth: i128 = if stopped {
            -R_SCALE
        } else {
            worth_of_target(s, entry)
        };
        proof {
            if !stopped {
                lemma_worth_is_not_negative(*s, entry as int);
            }
        }
        let loss: i128 = if stopped {
            R_SCALE
        } else {
            0
        };
        p.result.mfe_rr = Some(max_of(best, max_of(worth, 0)));
        p.result.mae_rr = Some(max_of(worst, loss));
        p.result.outcome = if stopped {
            Outcome::Loss
        } else {
            Outcome::Win
        };
        p.result.reason = if stopped && hit {
            owned("target_and_stop_same_m1_loss")
        } else if stopped {
            owned("stop_first")
        } else {
            owned("target_first")
        };
        p.result.realized_rr = Some(worth);
        p.result.exit_ts = Some(p.expected);
        let elapsed: i64 = saturating_difference(p.expected, entry_ts);
        if stopped {
            p.result.time_to_stop_ms = Some(elapsed);
        } else {
            p.result.time_to_target_ms = Some(elapsed);
        }
        return true;
    }
    p.held = p.held + 1;
    let risk: i128 = if entry >= s.stop {
        entry as i128 - s.stop as i128
    } else {
        s.stop as i128 - entry as i128
    };
    let above: i128 = bar.high as i128 - entry as i128;
    let below: i128 = entry as i128 - bar.low as i128;
    let (up, down): (i128, i128) = if s.bull {
        (above, below)
    } else {
        (below, above)
    };
    p.result.mfe_rr = Some(max_of(max_of(best, make_multiple(up, risk)), 0));
    p.result.mae_rr = Some(max_of(max_of(worst, make_multiple(down, risk)), 0));
    if p.held == s.holding {
        let gain: i128 = if s.bull {
            bar.close as i128 - entry as i128
        } else {
            entry as i128 - bar.close as i128
        };
        p.result.outcome = Outcome::Expired;
        p.result.reason = owned("holding_window_exhausted");
        p.result.exit_ts = Some(p.expected);
        p.result.floating_rr = Some(make_multiple(gain, risk));
        return true;
    }
    false
}

fn advance(s: &Setup, p: &mut Progress, bar: &Bar) -> (done: bool)
    requires
        workable(*s),
        tenable(*s, old(p)@),
        bar.ts <= i64::MAX - MINUTE,
    ensures
        agrees(final(p)@, done, step(*s, old(p)@, bar@)),
        !done ==> tenable(*s, final(p)@),
{
    if bar.ts != p.expected {
        let mut reason = owned("missing_m1_at_");
        push_decimal(&mut reason, p.expected);
        p.result.outcome = Outcome::DataGap;
        p.result.reason = reason;
        return true;
    }
    if bar.low > bar.open || bar.low > bar.close || bar.high < bar.open || bar.high < bar.close {
        let mut reason = owned("invalid_ohlc_at_");
        push_decimal(&mut reason, bar.ts);
        p.result.outcome = Outcome::DataGap;
        p.result.reason = reason;
        return true;
    }
    match (p.result.entry, p.result.entry_ts) {
        (Some(entry), Some(entry_ts)) => hold_one(s, p, bar, entry, entry_ts),
        _ => wait_one(s, p, bar),
    }
}

/// Runs a setup over the candles, one at a time.
fn run(s: &Setup, price: i64, bars: &[Bar]) -> (r: Simulation)
    requires
        closable(bars.deep_view()),
        workable(*s),
        if s.bull {
            price > s.stop
        } else {
            price < s.stop
        },
    ensures
        r@ == walked(*s, start_of(*s, price), bars.deep_view()),
{
    let mut result = Simulation::empty(Outcome::InsufficientData, "source_tail_before_resolution");
    if price >= s.low && price <= s.high {
        result.entry = Some(price);
        result.entry_ts = Some(s.as_of);
        result.time_to_entry_ms = Some(0);
        result.mfe_rr = Some(0);
        result.mae_rr = Some(0);
    }
    let mut p = Progress { result, expected: s.as_of, waiting: 0, held: 0 };
    let mut i: usize = 0;
    let ghost goal = walked(*s, start_of(*s, price), bars.deep_view());
    assert(bars.deep_view().skip(0) =~= bars.deep_view());
    assert(p@ == start_of(*s, price));
    while i < bars.len()
        invariant
            i <= bars.len(),
            closable(bars.deep_view()),
            workable(*s),
            tenable(*s, p@),
            goal == walked(*s, start_of(*s, price), bars.deep_view()),
            goal == walked(*s, p@, bars.deep_view().skip(i as int)),
        decreases bars.len() - i,
    {
        let ghost rest = bars.deep_view().skip(i as int);
        assert(rest[0] == bars@[i as int]@);
        assert(bars.deep_view()[i as int] == bars@[i as int]@);
        assert(rest.drop_first() =~= bars.deep_view().skip(i + 1));
        if bars[i].ts >= s.as_of {
            let done = advance(s, &mut p, &bars[i]);
            if done {
                return p.result;
            }
        }
        i += 1;
    }
    p.result
}

/// Multiples of distances between prices fit their units.
pub proof fn lemma_multiple_fits(num: int, den: int)
    requires
        den > 0,
        -0x2_0000_0000_0000_0000 <= num <= 0x2_0000_0000_0000_0000,
    ensures
        i128::MIN < multiple_of(num, den) <= i128::MAX,
{
    let n = 2 * num * R_SCALE + den;
    let d = 2 * den;
    let q = n / d;
    vstd::arithmetic::div_mod::lemma_fundamental_div_mod(n, d);
    vstd::arithmetic::div_mod::lemma_mod_bound(n, d);
    let big: int = 36_893_488_147_419_103_232_000_000_000_000_000_001;
    let x: int = num * 1_000_000_000_000_000_000;
    assert(-big < x < big);
    assert(n == 2 * x + den);
    assert(-big <= q <= big) by (nonlinear_arith)
        requires
            n == 2 * x + den,
            d == 2 * den,
            n == d * q + n % d,
            0 <= n % d < d,
            den >= 1,
            -big < x < big,
    ;
}

proof fn lemma_multiple_sign(num: int, den: int)
    requires
        den > 0,
        num >= 0,
    ensures
        multiple_of(num, den) >= 0,
{
    assert((2 * num * R_SCALE + den) / (2 * den) >= 0) by (nonlinear_arith)
        requires
            num >= 0,
            den > 0,
            R_SCALE == 1_000_000_000_000_000_000,
    ;
}

/// What a candle is worth to an open position fits the units.
pub proof fn lemma_step_fits(s: Setup, entry: int, bar: BarModel)
    requires
        entry != s.stop,
        i64::MIN <= entry <= i64::MAX,
    ensures
        i128::MIN < target_worth(s, entry) <= i128::MAX,
        i128::MIN < multiple_of(bar.high - entry, risk_of(s, entry)) <= i128::MAX,
        i128::MIN < multiple_of(entry - bar.low, risk_of(s, entry)) <= i128::MAX,
{
    let risk = risk_of(s, entry);
    lemma_multiple_fits(bar.high - entry, risk);
    lemma_multiple_fits(entry - bar.low, risk);
    match s.fixed {
        Some(r) => lemma_multiple_fits(r as int, 1000),
        None => lemma_multiple_fits(
            if s.target >= entry {
                s.target - entry
            } else {
                entry - s.target
            },
            risk,
        ),
    }
}

/// A target is never worth less than nothing.
pub proof fn lemma_worth_is_not_negative(s: Setup, entry: int)
    requires
        entry != s.stop,
    ensures
        target_worth(s, entry) >= 0,
{
    match s.fixed {
        Some(r) => lemma_multiple_sign(r as int, 1000),
        None => lemma_multiple_sign(
            if s.target >= entry {
                s.target - entry
            } else {
                entry - s.target
            },
            risk_of(s, entry),
        ),
    }
}

/// Simulates a position that ends at the first target, or at a multiple of the
/// actual risk in thousandths.
pub fn simulate_exit(
    g: &Guardrails,
    as_of: i64,
    price: i64,
    bars: &[Bar],
    window: usize,
    holding: usize,
    fixed_r: Option<u32>,
) -> (r: Simulation)
    requires
        closable(bars.deep_view()),
    ensures
        r@ == simulated(g@, as_of, price, bars.deep_view(), window, holding, fixed_r),
{
    let zone = match g.entry_zone {
        Some(zone) => zone,
        None => return Simulation::empty(Outcome::Excluded, "missing_entry_zone"),
    };
    let stop: i64 = match g.invalidation_price {
        Some(stop) => stop,
        None => return Simulation::empty(Outcome::Excluded, "missing_invalidation"),
    };
    let target: i64 = match fixed_r {
        Some(_) => price,
        None => {
            if g.targets.len() == 0 {
                return Simulation::empty(Outcome::Excluded, "missing_target");
            }
            g.targets[0]
        },
    };
    let bull = matches!(g.direction, TradeDirection::Bullish);
    let zero = match fixed_r {
        Some(r) => r == 0,
        None => false,
    };
    let misplaced = match g.direction {
        TradeDirection::Bullish => stop >= zone.low || (fixed_r.is_none() && target <= zone.high),
        TradeDirection::Bearish => stop <= zone.high || (fixed_r.is_none() && target >= zone.low),
        TradeDirection::Neutral => true,
    };
    if zero || zone.low > zone.high || window == 0 || holding == 0 || misplaced {
        return Simulation::empty(Outcome::Excluded, "invalid_geometry_or_parameters");
    }
    if (bull && price <= stop) || (!bull && price >= stop) {
        return Simulation::empty(Outcome::Skip, "invalidated_at_anchor");
    }
    let s = Setup {
        bull,
        low: zone.low,
        high: zone.high,
        stop,
        target,
        fixed: fixed_r,
        as_of,
        window,
        holding,
    };
    run(&s, price, bars)
}

/// The guardrails with the entry moved to one price.
pub open spec fn entered_at(g: GuardrailsModel, price: i64) -> GuardrailsModel {
    GuardrailsModel { entry_zone: Some(EntryZone { low: price, high: price }), ..g }
}

/// Simulates a position that is entered at the close of the alert, whatever
/// the zone.
pub fn simulate_anchor(
    g: &Guardrails,
    as_of: i64,
    price: i64,
    bars: &[Bar],
    holding: usize,
    multiple: u32,
) -> (r: Simulation)
    requires
        closable(bars.deep_view()),
    ensures
        r@ == simulated(
            entered_at(g@, price),
            as_of,
            price,
            bars.deep_view(),
            1,
            holding,
            Some(multiple),
        ),
{
    let mut immediate = g.clone();
    immediate.entry_zone = Some(EntryZone { low: price, high: price });
    simulate_exit(&immediate, as_of, price, bars, 1, holding, Some(multiple))
}

/// The stop behind the second candle: its extreme, moved away by a number of
/// points.
pub open spec fn buffered_stop(bull: bool, c2: CandleRef, point: i64, buffer: u8) -> int {
    if bull {
        c2.low - buffer * point
    } else {
        c2.high + buffer * point
    }
}

/// The second candle sets a risk: it is not turned over, the direction is
/// clear, and the price lies on the favourable side of the extreme and of the
/// stop.
pub open spec fn sets_risk(g: GuardrailsModel, c2: CandleRef, price: i64, stop: int) -> bool {
    &&& i64::MIN <= stop <= i64::MAX
    &&& c2.low <= c2.high
    &&& match g.direction {
        TradeDirection::Bullish => price > c2.low && price > stop,
        TradeDirection::Bearish => price < c2.high && price < stop,
        TradeDirection::Neutral => false,
    }
}

/// What a simulation with the risk of the second candle finds. `point` is the
/// size of one point.
pub open spec fn user_simulated(
    g: GuardrailsModel,
    point: i64,
    c2: CandleRef,
    as_of: i64,
    price: i64,
    bars: Seq<BarModel>,
    holding: usize,
    buffer: u8,
    multiple: u32,
) -> UserResultModel {
    let bull = g.direction is Bullish;
    let stop = buffered_stop(bull, c2, point, buffer);
    let kept = if i64::MIN <= stop <= i64::MAX {
        Some(stop as i64)
    } else {
        None
    };
    if !sets_risk(g, c2, price, stop) {
        UserResultModel {
            buffer_points: buffer,
            multiple,
            stop: kept,
            target: None,
            target1_in_user_r: None,
            simulation: nothing(Outcome::Excluded, "degenerate_stop"@),
        }
    } else {
        let risk = if bull {
            price - stop
        } else {
            stop - price
        };
        UserResultModel {
            buffer_points: buffer,
            multiple,
            stop: kept,
            target: Some(
                (if bull {
                    price * 1000 + multiple * risk
                } else {
                    price * 1000 - multiple * risk
                }) as i128,
            ),
            target1_in_user_r: if g.targets.len() == 0 {
                None
            } else {
                Some(
                    multiple_of(
                        if bull {
                            g.targets[0] - price
                        } else {
                            price - g.targets[0]
                        },
                        risk,
                    ) as i128,
                )
            },
            simulation: simulated(
                entered_at(GuardrailsModel { invalidation_price: Some(stop as i64), ..g }, price),
                as_of,
                price,
                bars,
                1,
                holding,
                Some(multiple),
            ),
        }
    }
}

/// Simulates a position that is entered at the close of the alert and whose
/// risk is set by the extreme of the second candle.
pub fn simulate_user(
    g: &Guardrails,
    point: i64,
    c2: &CandleRef,
    as_of: i64,
    price: i64,
    bars: &[Bar],
    holding: usize,
    buffer_points: u8,
    multiple: u32,
) -> (r: UserResult)
    requires
        closable(bars.deep_view()),
    ensures
        r@ == user_simulated(
            g@,
            point,
            *c2,
            as_of,
            price,
            bars.deep_view(),
            holding,
            buffer_points,
            multiple,
        ),
{
    let bull = matches!(g.direction, TradeDirection::Bullish);
    assert(-0x80_0000_0000_0000_0000 <= buffer_points * point <= 0x80_0000_0000_0000_0000)
        by (nonlinear_arith)
        requires
            0 <= buffer_points <= 255,
            i64::MIN <= point <= i64::MAX,
    ;
    let shift: i128 = (buffer_points as i128) * (point as i128);
    let wide: i128 = if bull {
        c2.low as i128 - shift
    } else {
        c2.high as i128 + shift
    };
    let fits = wide >= i64::MIN as i128 && wide <= i64::MAX as i128;
    let stop: i64 = if fits {
        wide as i64
    } else {
        0
    };
    let mut result = UserResult {
        buffer_points,
        multiple,
        stop: if fits {
            Some(stop)
        } else {
            None
        },
        target: None,
        target1_in_user_r: None,
        simulation: Simulation::empty(Outcome::Excluded, "degenerate_stop"),
    };
    let placed = match g.direction {
        TradeDirection::Bullish => price > c2.low && price > stop,
        TradeDirection::Bearish => price < c2.high && price < stop,
        TradeDirection::Neutral => false,
    };
    if !fits || c2.low > c2.high || !placed {
        return result;
    }
    let risk: i128 = if bull {
        price as i128 - stop as i128
    } else {
        stop as i128 - price as i128
    };
    let move_to_target: i128 = checked_product(multiple, risk);
    result.target =
    Some(
        if bull {
            price as i128 * 1000 + move_to_target
        } else {
            price as i128 * 1000 - move_to_target
        },
    );
    if g.targets.len() > 0 {
        let first: i64 = g.targets[0];
        let distance: i128 = if bull {
            first as i128 - price as i128
        } else {
            price as i128 - first as i128
        };
        result.target1_in_user_r = Some(make_multiple(distance, risk));
    }
    let mut user = g.clone();
    user.invalidation_price = Some(stop);
    result.simulation = simulate_anchor(&user, as_of, price, bars, holding, multiple);
    result
}

} // verus!
