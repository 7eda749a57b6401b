//! What holds of every simulation.
use vstd::prelude::*;
use crate::backtest::model::{EntryZone, GuardrailsModel, SimulationModel, TradeDirection, R_SCALE};
use crate::backtest::simulator::{
    buffered_stop, entered_at, gain_of, holding_step, lemma_step_fits, lemma_worth_is_not_negative, reaches_stop,
    reaches_target, risk_of, sensible, sets_risk, simulated, sound, start_of, step, target_worth,
    tenable, user_simulated, waiting_step, walked, workable, Setup, Step, Walk,
};
use crate::detector::CandleRef;
use crate::types::BarModel;

verus! {

proof fn lemma_past(s: Setup, w: Walk, past: Seq<BarModel>, bars: Seq<BarModel>)
    requires
        forall|k: int| 0 <= k < past.len() ==> (#[trigger] past[k]).ts < s.as_of,
    ensures
        walked(s, w, past + bars) == walked(s, w, bars),
    decreases past.len(),
{
    if past.len() == 0 {
        assert(past + bars =~= bars);
    } else {
        let all = past + bars;
        assert(all[0] == past[0]);
        assert(all.drop_first() =~= past.drop_first() + bars);
        assert forall|k: int| 0 <= k < past.drop_first().len() implies (
        #[trigger] past.drop_first()[k]).ts < s.as_of by {
            assert(past.drop_first()[k] == past[k + 1]);
        }
        lemma_past(s, w, past.drop_first(), bars);
    }
}

/// Candles that start before the alert change nothing.
pub proof fn law_earlier_candles_are_ignored(
    g: GuardrailsModel,
    as_of: i64,
    price: i64,
    past: Seq<BarModel>,
    bars: Seq<BarModel>,
    window: usize,
    holding: usize,
    fixed: Option<u32>,
)
    requires
        forall|k: int| 0 <= k < past.len() ==> (#[trigger] past[k]).ts < as_of,
    ensures
        simulated(g, as_of, price, past + bars, window, holding, fixed) == simulated(
            g,
            as_of,
            price,
            bars,
            window,
            holding,
            fixed,
        ),
{
    if g.entry_zone is Some && g.invalidation_price is Some && (fixed is Some || g.targets.len()
        > 0) {
        let s = setup_of(g, as_of, price, window, holding, fixed);
        lemma_past(s, start_of(s, price), past, bars);
    }
}

/// The setup that a simulation walks with.
pub open spec fn setup_of(
    g: GuardrailsModel,
    as_of: i64,
    price: i64,
    window: usize,
    holding: usize,
    fixed: Option<u32>,
) -> Setup {
    Setup {
        bull: g.direction is Bullish,
        low: g.entry_zone->0.low,
        high: g.entry_zone->0.high,
        stop: g.invalidation_price->0,
        target: if fixed is Some {
            price
        } else {
            g.targets[0]
        },
        fixed,
        as_of,
        window,
        holding,
    }
}

proof fn lemma_open_walk(s: Setup, w: Walk, bar: BarModel)
    requires
        w.result.outcome is InsufficientData,
    ensures
        match step(s, w, bar) {
            Step::Go(next) => next.result.outcome is InsufficientData,
            Step::Stop(result) => !(result.outcome is InsufficientData),
        },
{
}

proof fn lemma_no_future(s: Setup, w: Walk, bars: Seq<BarModel>, more: Seq<BarModel>)
    requires
        w.result.outcome is InsufficientData,
        !(walked(s, w, bars).outcome is InsufficientData),
    ensures
        walked(s, w, bars + more) == walked(s, w, bars),
    decreases bars.len(),
{
    if bars.len() > 0 {
        let all = bars + more;
        assert(all[0] == bars[0]);
        assert(all.drop_first() =~= bars.drop_first() + more);
        if bars[0].ts < s.as_of {
            lemma_no_future(s, w, bars.drop_first(), more);
        } else {
            lemma_open_walk(s, w, bars[0]);
            match step(s, w, bars[0]) {
                Step::Go(next) => lemma_no_future(s, next, bars.drop_first(), more),
                Step::Stop(_) => {},
            }
        }
    }
}

/// Once a simulation is resolved, later candles cannot change it.
pub proof fn law_later_candles_change_nothing(
    g: GuardrailsModel,
    as_of: i64,
    price: i64,
    bars: Seq<BarModel>,
    more: Seq<BarModel>,
    window: usize,
    holding: usize,
    fixed: Option<u32>,
)
    requires
        !(simulated(g, as_of, price, bars, window, holding, fixed).outcome is InsufficientData),
    ensures
        simulated(g, as_of, price, bars + more, window, holding, fixed) == simulated(
            g,
            as_of,
            price,
            bars,
            window,
            holding,
            fixed,
        ),
{
    if g.entry_zone is Some && g.invalidation_price is Some && (fixed is Some || g.targets.len()
        > 0) {
        let s = setup_of(g, as_of, price, window, holding, fixed);
        if sensible(g, s) && (if s.bull {
            price > s.stop
        } else {
            price < s.stop
        }) {
            lemma_no_future(s, start_of(s, price), bars, more);
        }
    }
}

/// What the fields of a simulation have to do with its outcome.
pub open spec fn coherent(r: SimulationModel) -> bool {
    &&& (r.realized_rr is Some) == (r.outcome is Win || r.outcome is Loss)
    &&& r.outcome is Loss ==> r.realized_rr == Some(-R_SCALE as i128)
    &&& r.outcome is Win ==> r.realized_rr->0 >= 0
    &&& (r.floating_rr is Some) == (r.outcome is Expired)
    &&& (r.outcome is Win || r.outcome is Loss || r.outcome is Expired) ==> r.entry is Some
        && r.mfe_rr is Some && r.mae_rr is Some
    &&& (r.outcome is Skip || r.outcome is Ambiguous || r.outcome is NoFill
        || r.outcome is Excluded) ==> r.entry is None
    &&& r.mfe_rr matches Some(x) ==> x >= 0
    &&& r.mae_rr matches Some(x) ==> x >= 0
    &&& (r.entry is Some) == (r.entry_ts is Some)
    &&& (r.time_to_target_ms is Some) == (r.outcome is Win)
    &&& (r.time_to_stop_ms is Some) == (r.outcome is Loss)
}

/// A walk that is still open.
spec fn pending(s: Setup, w: Walk) -> bool {
    &&& tenable(s, w)
    &&& coherent(w.result)
    &&& w.result.outcome is InsufficientData
}

proof fn lemma_coherent_step(s: Setup, w: Walk, bar: BarModel)
    requires
        workable(s),
        pending(s, w),
    ensures
        match step(s, w, bar) {
            Step::Go(next) => pending(s, next),
            Step::Stop(result) => coherent(result),
        },
{
    match (w.result.entry, w.result.entry_ts) {
        (Some(entry), Some(_)) => {
            lemma_worth_is_not_negative(s, entry as int);
            lemma_step_fits(s, entry as int, bar);
        },
        _ => {},
    }
}

proof fn lemma_coherent(s: Setup, w: Walk, bars: Seq<BarModel>)
    requires
        workable(s),
        pending(s, w),
    ensures
        coherent(walked(s, w, bars)),
    decreases bars.len(),
{
    if bars.len() > 0 {
        if bars[0].ts < s.as_of {
            lemma_coherent(s, w, bars.drop_first());
        } else {
            lemma_coherent_step(s, w, bars[0]);
            match step(s, w, bars[0]) {
                Step::Go(next) => lemma_coherent(s, next, bars.drop_first()),
                Step::Stop(_) => {},
            }
        }
    }
}

/// Only wins and losses realise a result, a loss is exactly one risk, a
/// position that ran out of time only floats, and a position that was never
/// opened has neither.
pub proof fn law_outcomes_are_coherent(
    g: GuardrailsModel,
    as_of: i64,
    price: i64,
    bars: Seq<BarModel>,
    window: usize,
    holding: usize,
    fixed: Option<u32>,
)
    ensures
        coherent(simulated(g, as_of, price, bars, window, holding, fixed)),
{
    if g.entry_zone is Some && g.invalidation_price is Some && (fixed is Some || g.targets.len()
        > 0) {
        let s = setup_of(g, as_of, price, window, holding, fixed);
        if sensible(g, s) && (if s.bull {
            price > s.stop
        } else {
            price < s.stop
        }) {
            lemma_coherent(s, start_of(s, price), bars);
        }
    }
}

/// A candle that reaches the stop and the target of an open position counts
/// as a loss.
pub proof fn law_same_candle_is_a_loss(s: Setup, w: Walk, bar: BarModel)
    requires
        bar.ts == w.expected,
        sound(bar),
        w.result.entry is Some,
        w.result.entry_ts is Some,
        reaches_stop(s, bar),
        reaches_target(s, w.result.entry->0 as int, bar),
    ensures
        step(s, w, bar) matches Step::Stop(r) && r.outcome is Loss && r.realized_rr == Some(
            -R_SCALE as i128,
        ),
{
}

/// Two setups that differ in the exit alone.
spec fn same_entry_rules(a: Setup, b: Setup) -> bool {
    &&& a.bull == b.bull
    &&& a.low == b.low
    &&& a.high == b.high
    &&& a.stop == b.stop
    &&& a.as_of == b.as_of
    &&& a.window == b.window
}

proof fn lemma_entry_is_kept(s: Setup, w: Walk, bars: Seq<BarModel>)
    requires
        w.result.entry is Some,
        w.result.entry_ts is Some,
    ensures
        walked(s, w, bars).entry == w.result.entry,
        walked(s, w, bars).entry_ts == w.result.entry_ts,
    decreases bars.len(),
{
    if bars.len() > 0 {
        if bars[0].ts < s.as_of {
            lemma_entry_is_kept(s, w, bars.drop_first());
        } else {
            match step(s, w, bars[0]) {
                Step::Go(next) => lemma_entry_is_kept(s, next, bars.drop_first()),
                Step::Stop(_) => {},
            }
        }
    }
}

proof fn lemma_same_entry(a: Setup, b: Setup, w: Walk, bars: Seq<BarModel>)
    requires
        same_entry_rules(a, b),
        (w.result.entry is Some) == (w.result.entry_ts is Some),
    ensures
        walked(a, w, bars).entry == walked(b, w, bars).entry,
        walked(a, w, bars).entry_ts == walked(b, w, bars).entry_ts,
    decreases bars.len(),
{
    if w.result.entry is Some {
        lemma_entry_is_kept(a, w, bars);
        lemma_entry_is_kept(b, w, bars);
    } else if bars.len() > 0 {
        if bars[0].ts < a.as_of {
            lemma_same_entry(a, b, w, bars.drop_first());
        } else {
            assert(step(a, w, bars[0]) == step(b, w, bars[0]));
            match step(a, w, bars[0]) {
                Step::Go(next) => lemma_same_entry(a, b, next, bars.drop_first()),
                Step::Stop(_) => {},
            }
        }
    }
}

/// Fixed exits are independent assumptions about one and the same fill.
pub proof fn law_fixed_exits_share_the_fill(
    g: GuardrailsModel,
    as_of: i64,
    price: i64,
    bars: Seq<BarModel>,
    window: usize,
    holding: usize,
    a: u32,
    b: u32,
)
    requires
        a > 0,
        b > 0,
    ensures
        ({
            let x = simulated(g, as_of, price, bars, window, holding, Some(a));
            let y = simulated(g, as_of, price, bars, window, holding, Some(b));
            x.entry == y.entry && x.entry_ts == y.entry_ts
        }),
{
    if g.entry_zone is Some && g.invalidation_price is Some {
        let x = setup_of(g, as_of, price, window, holding, Some(a));
        let y = setup_of(g, as_of, price, window, holding, Some(b));
        lemma_same_entry(x, y, start_of(x, price), bars);
    }
}

/// A position entered at the alert is filled there and then, wherever the zone
/// was.
pub proof fn law_anchor_entry_is_immediate(
    g: GuardrailsModel,
    as_of: i64,
    price: i64,
    bars: Seq<BarModel>,
    holding: usize,
    multiple: u32,
)
    requires
        g.invalidation_price is Some,
        multiple > 0,
        holding > 0,
        match g.direction {
            TradeDirection::Bullish => g.invalidation_price->0 < price,
            TradeDirection::Bearish => g.invalidation_price->0 > price,
            TradeDirection::Neutral => false,
        },
    ensures
        ({
            let r = simulated(
                entered_at(g, price),
                as_of,
                price,
                bars,
                1,
                holding,
                Some(multiple),
            );
            r.entry == Some(price) && r.entry_ts == Some(as_of)
        }),
{
    let m = entered_at(g, price);
    let s = setup_of(m, as_of, price, 1, holding, Some(multiple));
    lemma_entry_is_kept(s, start_of(s, price), bars);
}

/// With the same stop, the risk of the second candle and the structural risk
/// give the same simulation.
pub proof fn law_same_stop_same_simulation(
    g: GuardrailsModel,
    point: i64,
    c2: CandleRef,
    as_of: i64,
    price: i64,
    bars: Seq<BarModel>,
    holding: usize,
    buffer: u8,
    multiple: u32,
)
    requires
        sets_risk(g, c2, price, buffered_stop(g.direction is Bullish, c2, point, buffer)),
        g.invalidation_price == Some(
            buffered_stop(g.direction is Bullish, c2, point, buffer) as i64,
        ),
    ensures
        user_simulated(g, point, c2, as_of, price, bars, holding, buffer, multiple).simulation
            == simulated(entered_at(g, price), as_of, price, bars, 1, holding, Some(multiple)),
{
    let stop = buffered_stop(g.direction is Bullish, c2, point, buffer) as i64;
    assert((GuardrailsModel { invalidation_price: Some(stop), ..g }) == g);
}

/// A price seen in a mirror.
pub open spec fn turned(x: i64) -> i64 {
    (-x) as i64
}

/// A candle seen in a mirror.
pub open spec fn turned_bar(b: BarModel) -> BarModel {
    BarModel {
        open: turned(b.open),
        high: turned(b.low),
        low: turned(b.high),
        close: turned(b.close),
        ..b
    }
}

/// Candles seen in a mirror.
pub open spec fn turned_bars(bars: Seq<BarModel>) -> Seq<BarModel> {
    Seq::new(bars.len(), |k: int| turned_bar(bars[k]))
}

/// Guardrails seen in a mirror.
pub open spec fn turned_guardrails(g: GuardrailsModel) -> GuardrailsModel {
    GuardrailsModel {
        direction: match g.direction {
            TradeDirection::Bullish => TradeDirection::Bearish,
            TradeDirection::Bearish => TradeDirection::Bullish,
            TradeDirection::Neutral => TradeDirection::Neutral,
        },
        entry_zone: match g.entry_zone {
            Some(z) => Some(EntryZone { low: turned(z.high), high: turned(z.low) }),
            None => None,
        },
        invalidation_price: match g.invalidation_price {
            Some(p) => Some(turned(p)),
            None => None,
        },
        targets: Seq::new(g.targets.len(), |k: int| turned(g.targets[k])),
    }
}

/// A simulation seen in a mirror: only the price of the fill is turned over.
pub open spec fn turned_result(r: SimulationModel) -> SimulationModel {
    SimulationModel {
        entry: match r.entry {
            Some(p) => Some(turned(p)),
            None => None,
        },
        ..r
    }
}

/// The price can be turned over.
pub open spec fn turnable(x: i64) -> bool {
    x > i64::MIN
}

/// The candle can be turned over.
pub open spec fn turnable_bar(b: BarModel) -> bool {
    turnable(b.open) && turnable(b.high) && turnable(b.low) && turnable(b.close)
}

spec fn turned_setup(s: Setup) -> Setup {
    Setup {
        bull: !s.bull,
        low: turned(s.high),
        high: turned(s.low),
        stop: turned(s.stop),
        target: turned(s.target),
        ..s
    }
}

spec fn turned_walk(w: Walk) -> Walk {
    Walk { result: turned_result(w.result), ..w }
}

spec fn turned_step(x: Step) -> Step {
    match x {
        Step::Go(w) => Step::Go(turned_walk(w)),
        Step::Stop(r) => Step::Stop(turned_result(r)),
    }
}

proof fn lemma_turned_step(s: Setup, w: Walk, bar: BarModel)
    requires
        workable(s),
        tenable(s, w),
        turnable(s.low) && turnable(s.high) && turnable(s.stop) && turnable(s.target),
        turnable_bar(bar),
        w.result.entry matches Some(e) ==> turnable(e),
    ensures
        step(turned_setup(s), turned_walk(w), turned_bar(bar)) == turned_step(step(s, w, bar)),
        step(s, w, bar) matches Step::Go(next) ==> tenable(s, next) && (
        next.result.entry matches Some(e) ==> turnable(e)),
{
    let t = turned_setup(s);
    let v = turned_walk(w);
    let b = turned_bar(bar);
    assert(sound(b) == sound(bar));
    match (w.result.entry, w.result.entry_ts) {
        (Some(entry), Some(entry_ts)) => {
            let e = entry as int;
            let f = turned(entry) as int;
            lemma_step_fits(s, e, bar);
            assert(risk_of(t, f) == risk_of(s, e));
            assert(reaches_stop(t, b) == reaches_stop(s, bar));
            let best = if s.bull {
                bar.high
            } else {
                bar.low
            };
            let seen = if t.bull {
                b.high
            } else {
                b.low
            };
            assert(gain_of(t, f, seen as int) == gain_of(s, e, best as int));
            assert(gain_of(t, f, b.close as int) == gain_of(s, e, bar.close as int));
            assert(reaches_target(t, f, b) == reaches_target(s, e, bar));
            assert(target_worth(t, f) == target_worth(s, e));
            assert(holding_step(t, v, b, f, entry_ts as int) == turned_step(
                holding_step(s, w, bar, e, entry_ts as int),
            ));
        },
        _ => {
            assert(reaches_stop(t, b) == reaches_stop(s, bar));
            assert(waiting_step(t, v, b) == turned_step(waiting_step(s, w, bar)));
        },
    }
}

proof fn lemma_turned_walk(s: Setup, w: Walk, bars: Seq<BarModel>)
    requires
        workable(s),
        tenable(s, w),
        turnable(s.low) && turnable(s.high) && turnable(s.stop) && turnable(s.target),
        forall|k: int| 0 <= k < bars.len() ==> turnable_bar(#[trigger] bars[k]),
        w.result.entry matches Some(e) ==> turnable(e),
    ensures
        walked(turned_setup(s), turned_walk(w), turned_bars(bars)) == turned_result(
            walked(s, w, bars),
        ),
    decreases bars.len(),
{
    if bars.len() > 0 {
        let rest = bars.drop_first();
        assert(turned_bars(bars)[0] == turned_bar(bars[0]));
        assert(turned_bars(bars).drop_first() =~= turned_bars(rest));
        assert(turnable_bar(bars[0]));
        assert forall|k: int| 0 <= k < rest.len() implies turnable_bar(#[trigger] rest[k]) by {
            assert(rest[k] == bars[k + 1]);
        }
        if bars[0].ts < s.as_of {
            lemma_turned_walk(s, w, rest);
        } else {
            lemma_turned_step(s, w, bars[0]);
            match step(s, w, bars[0]) {
                Step::Go(next) => lemma_turned_walk(s, next, rest),
                Step::Stop(_) => {},
            }
        }
    }
}

/// Rising and falling markets are treated alike: turning every price over and
/// the direction round turns the fill over and changes nothing else.
pub proof fn law_directions_are_symmetric(
    g: GuardrailsModel,
    as_of: i64,
    price: i64,
    bars: Seq<BarModel>,
    window: usize,
    holding: usize,
    fixed: Option<u32>,
)
    requires
        turnable(price),
        g.entry_zone matches Some(z) ==> turnable(z.low) && turnable(z.high),
        g.invalidation_price matches Some(p) ==> turnable(p),
        forall|k: int| 0 <= k < g.targets.len() ==> turnable(#[trigger] g.targets[k]),
        forall|k: int| 0 <= k < bars.len() ==> turnable_bar(#[trigger] bars[k]),
    ensures
        simulated(
            turned_guardrails(g),
            as_of,
            turned(price),
            turned_bars(bars),
            window,
            holding,
            fixed,
        ) == turned_result(simulated(g, as_of, price, bars, window, holding, fixed)),
{
    let h = turned_guardrails(g);
    if g.entry_zone is Some && g.invalidation_price is Some && (fixed is Some || g.targets.len()
        > 0) {
        let s = setup_of(g, as_of, price, window, holding, fixed);
        let t = setup_of(h, as_of, turned(price), window, holding, fixed);
        if fixed is None {
            assert(turnable(g.targets[0]));
            assert(h.targets[0] == turned(g.targets[0]));
        }
        assert(sensible(h, t) == sensible(g, s));
        if sensible(g, s) {
            assert(t == turned_setup(s));
            if if s.bull {
                price > s.stop
            } else {
                price < s.stop
            } {
                assert(start_of(t, turned(price)) == turned_walk(start_of(s, price)));
                lemma_turned_walk(s, start_of(s, price), bars);
            }
        }
    }
}

} // verus!
