//! What a replay of stored candles and reversals goes through.
use vstd::prelude::*;
use crate::candidate::close_laws::{chain_at, lemma_chain_at};
use crate::candidate::engine::{active_candidates, position, EngineModel};
use crate::candidate::laws::law_replay_follows_market_time;
use crate::candidate::lifecycle::is_active;
use crate::candidate::replay::{
    all_inputs, bar_inputs, bars_for, event_before, event_inputs, event_inserted, events_for,
    input_before, ordered_reversals, replay_many, replay_one, reversal_of, symbol_inputs, timeline,
    without_repeats, BodyModel, InputModel, SymbolBars, SymbolEvents,
};
use crate::candidate::rules::{validation_window, EntryModel};
use crate::candidate::types::LtfEventModel;
use crate::detector::{CisdModel, IctStructureModel, MssModel, SmtModel};
use crate::text::{lemma_push_contains, lemma_text_order, text_before};
use crate::types::{duration, BarModel};

verus! {

/// A reversal carries the identity, instrument and direction of its structure, and
/// the time and price of the break.
pub proof fn law_reversals_are_breaks(c: CisdModel, m: MssModel)
    ensures
        reversal_of(IctStructureModel::Cisd(c)) matches Some(e) && e.id == c.id && e.symbol
            == c.symbol && e.direction == c.direction && e.ts == c.break_ts && e.price
            == c.break_price && e.kind is Cisd,
        reversal_of(IctStructureModel::Mss(m)) matches Some(e) && e.id == m.id && e.symbol
            == m.symbol && e.direction == m.direction && e.ts == m.break_ts && e.price
            == m.break_price && e.kind is Mss,
{
}

/// Other structures are no reversals.
pub proof fn law_other_structures_are_no_reversals(s: IctStructureModel)
    ensures
        reversal_of(s) is Some <==> s is Cisd || s is Mss,
{
}

/// Reversals are taken by the time of their break, and at one time by instrument.
pub proof fn law_earlier_reversals_come_first(structures: Seq<IctStructureModel>, i: int, j: int)
    requires
        0 <= i < j < ordered_reversals(structures).len(),
    ensures
        ordered_reversals(structures)[i].ts <= ordered_reversals(structures)[j].ts,
        ordered_reversals(structures)[i].ts == ordered_reversals(structures)[j].ts ==> !text_before(
            ordered_reversals(structures)[j].symbol,
            ordered_reversals(structures)[i].symbol,
        ),
{
    lemma_chronological(structures);
}

proof fn lemma_inserted(list: Seq<LtfEventModel>, e: LtfEventModel)
    requires
        forall|i: int, j: int|
            0 <= i < j < list.len() ==> not_after(#[trigger] list[i], #[trigger] list[j]),
    ensures
        forall|i: int, j: int|
            0 <= i < j < event_inserted(list, e).len() ==> not_after(
                #[trigger] event_inserted(list, e)[i],
                #[trigger] event_inserted(list, e)[j],
            ),
        forall|k: int|
            0 <= k < event_inserted(list, e).len() ==> (
            #[trigger] event_inserted(list, e)[k] == e || list.contains(
                event_inserted(list, e)[k],
            )),
    decreases list.len(),
{
    let r = event_inserted(list, e);
    if list.len() > 0 && event_before(e, list.last()) {
        let rest = list.drop_last();
        let inner = event_inserted(rest, e);
        assert forall|i: int, j: int| 0 <= i < j < rest.len() implies not_after(
            #[trigger] rest[i],
            #[trigger] rest[j],
        ) by {
            assert(not_after(list[i], list[j]));
        }
        lemma_inserted(rest, e);
        assert forall|k: int| 0 <= k < r.len() implies (#[trigger] r[k] == e || list.contains(
            r[k],
        )) by {
            if k < inner.len() {
                assert(r[k] == inner[k]);
                if inner[k] != e {
                    let p = choose|p: int| 0 <= p < rest.len() && rest[p] == inner[k];
                    assert(list[p] == r[k]);
                }
            } else {
                assert(list[list.len() - 1] == r[k]);
            }
        }
        assert forall|i: int, j: int| 0 <= i < j < r.len() implies not_after(
            #[trigger] r[i],
            #[trigger] r[j],
        ) by {
            assert(r[i] == inner[i]);
            if j < inner.len() {
                assert(r[j] == inner[j]);
            } else {
                assert(r[j] == list.last());
                if inner[i] == e {
                    lemma_before_is_not_after(e, list.last());
                } else {
                    let p = choose|p: int| 0 <= p < rest.len() && rest[p] == inner[i];
                    assert(not_after(list[p], list[list.len() - 1]));
                }
            }
        }
    } else {
        assert forall|k: int| 0 <= k < r.len() implies (#[trigger] r[k] == e || list.contains(
            r[k],
        )) by {
            if k < list.len() {
                assert(list[k] == r[k]);
            }
        }
        assert forall|i: int, j: int| 0 <= i < j < r.len() implies not_after(
            #[trigger] r[i],
            #[trigger] r[j],
        ) by {
            if j < list.len() {
                assert(not_after(list[i], list[j]));
            } else {
                let n = list.len() - 1;
                if i < n {
                    assert(not_after(list[i], list[n]));
                }
                lemma_not_before(e, list[n]);
                lemma_not_after_chain(list[i], list[n], e);
            }
        }
    }
}

/// A reversal that may stand before another.
spec fn not_after(a: LtfEventModel, b: LtfEventModel) -> bool {
    a.ts < b.ts || (a.ts == b.ts && !text_before(b.symbol, a.symbol))
}

proof fn lemma_before_is_not_after(a: LtfEventModel, b: LtfEventModel)
    requires
        event_before(a, b),
    ensures
        not_after(a, b),
{
    lemma_text_order(a.symbol, b.symbol, a.symbol);
}

proof fn lemma_not_before(a: LtfEventModel, b: LtfEventModel)
    requires
        !event_before(a, b),
    ensures
        not_after(b, a),
{
}

proof fn lemma_not_after_chain(a: LtfEventModel, b: LtfEventModel, c: LtfEventModel)
    requires
        a == b || not_after(a, b),
        not_after(b, c),
    ensures
        not_after(a, c),
{
    lemma_text_order(c.symbol, a.symbol, b.symbol);
    lemma_text_order(a.symbol, b.symbol, c.symbol);
    lemma_text_order(c.symbol, b.symbol, a.symbol);
    lemma_text_order(b.symbol, c.symbol, a.symbol);
}

proof fn lemma_chronological(structures: Seq<IctStructureModel>)
    ensures
        forall|i: int, j: int|
            0 <= i < j < ordered_reversals(structures).len() ==> not_after(
                #[trigger] ordered_reversals(structures)[i],
                #[trigger] ordered_reversals(structures)[j],
            ),
    decreases structures.len(),
{
    if structures.len() > 0 {
        lemma_chronological(structures.drop_last());
        if let Some(e) = reversal_of(structures.last()) {
            lemma_inserted(ordered_reversals(structures.drop_last()), e);
        }
    }
}

/// Of neighbours with one identity the first stays; no other is dropped.
pub proof fn law_repeated_reversals_count_once(list: Seq<LtfEventModel>, k: int)
    requires
        0 <= k < list.len(),
    ensures
        without_repeats(list).len() <= list.len(),
        exists|i: int|
            0 <= i < without_repeats(list).len() && (#[trigger] without_repeats(list)[i]).id
                == list[k].id,
        forall|i: int|
            0 < i < without_repeats(list).len() ==> apart(without_repeats(list), i),
    decreases list.len(),
{
    let rest = list.drop_last();
    let held = without_repeats(rest);
    let all = without_repeats(list);
    if list.len() == 1 {
        assert(rest =~= Seq::<LtfEventModel>::empty());
        assert(all[0].id == list[k].id);
    } else {
        let m = if k < rest.len() {
            k
        } else {
            rest.len() - 1
        };
        law_repeated_reversals_count_once(rest, m);
        if k < rest.len() {
            assert(rest[k] == list[k]);
            let i = choose|i: int| 0 <= i < held.len() && (#[trigger] held[i]).id == rest[k].id;
            assert(all[i] == held[i]);
        } else {
            assert(all[all.len() - 1].id == list[k].id);
        }
        assert forall|i: int| 0 < i < all.len() implies apart(all, i) by {
            if i < held.len() {
                assert(apart(held, i));
                assert(all[i] == held[i] && all[i - 1] == held[i - 1]);
            }
        }
    }
}

/// A reversal has another identity than the one before it.
pub open spec fn apart(list: Seq<LtfEventModel>, i: int) -> bool {
    list[i - 1].id != list[i].id
}

/// Stored inputs are replayed in market time; at one time candles come before
/// reversals.
pub proof fn law_inputs_come_in_market_time(inputs: Seq<InputModel>, i: int, j: int)
    requires
        0 <= i < j < timeline(inputs).len(),
    ensures
        timeline(inputs)[i].ts() <= timeline(inputs)[j].ts(),
        timeline(inputs)[i].ts() == timeline(inputs)[j].ts() && timeline(inputs)[j].body is Bar
            ==> timeline(inputs)[i].body is Bar,
{
    law_replay_follows_market_time(inputs);
    let r = timeline(inputs);
    assert(!input_before(r[j], r[i]));
}

/// Candles and reversals count from the start of a window up to but not at its end.
pub proof fn law_inputs_lie_in_their_window(
    bars: Seq<BarModel>,
    events: Seq<LtfEventModel>,
    symbol: Seq<char>,
    from: i64,
    end: i64,
    b: BarModel,
    e: LtfEventModel,
)
    ensures
        bar_inputs(bars, symbol, from, end).contains(InputModel { symbol, body: BodyModel::Bar(b) })
            <==> bars.contains(b) && from <= b.ts && b.ts < end,
        event_inputs(events, symbol, from, end).contains(
            InputModel { symbol, body: BodyModel::Reversal(e) },
        ) <==> events.contains(e) && from <= e.ts && e.ts < end,
{
    lemma_bar_inputs(bars, symbol, from, end, b);
    lemma_event_inputs(events, symbol, from, end, e);
}

proof fn lemma_bar_inputs(bars: Seq<BarModel>, symbol: Seq<char>, from: i64, end: i64, b: BarModel)
    ensures
        bar_inputs(bars, symbol, from, end).contains(InputModel { symbol, body: BodyModel::Bar(b) })
            <==> bars.contains(b) && from <= b.ts && b.ts < end,
    decreases bars.len(),
{
    if bars.len() > 0 {
        let rest = bars.drop_last();
        lemma_bar_inputs(rest, symbol, from, end, b);
        lemma_push_contains(rest, bars.last(), b);
        assert(rest.push(bars.last()) =~= bars);
        lemma_push_contains(
            bar_inputs(rest, symbol, from, end),
            InputModel { symbol, body: BodyModel::Bar(bars.last()) },
            InputModel { symbol, body: BodyModel::Bar(b) },
        );
    }
}

proof fn lemma_event_inputs(
    events: Seq<LtfEventModel>,
    symbol: Seq<char>,
    from: i64,
    end: i64,
    e: LtfEventModel,
)
    ensures
        event_inputs(events, symbol, from, end).contains(
            InputModel { symbol, body: BodyModel::Reversal(e) },
        ) <==> events.contains(e) && from <= e.ts && e.ts < end,
    decreases events.len(),
{
    if events.len() > 0 {
        let rest = events.drop_last();
        lemma_event_inputs(rest, symbol, from, end, e);
        lemma_push_contains(rest, events.last(), e);
        assert(rest.push(events.last()) =~= events);
        lemma_push_contains(
            event_inputs(rest, symbol, from, end),
            InputModel { symbol, body: BodyModel::Reversal(events.last()) },
            InputModel { symbol, body: BodyModel::Reversal(e) },
        );
    }
}

/// The inputs of an instrument lie between its second candle and the end of the
/// candle after it: the third one where it is there.
pub proof fn law_replays_stay_in_the_validation_window(
    smt: SmtModel,
    symbol: Seq<char>,
    events: Seq<SymbolEvents>,
    bars: Seq<SymbolBars>,
    i: int,
    n: int,
)
    requires
        chain_at(smt.chains, symbol, i),
        0 <= n < symbol_inputs(smt, symbol, events, bars).len(),
    ensures
        ({
            let chain = smt.chains[i];
            let x = symbol_inputs(smt, symbol, events, bars)[n];
            &&& !(chain.detection_state is Invalidated)
            &&& chain.c2_candle matches Some(c2) && c2.ts <= x.ts()
            &&& chain.c3_candle matches Some(c3) ==> x.ts() < c3.ts + duration(
                smt.comparison_timeframe,
            )
            &&& chain.c3_candle is None ==> x.ts() < (chain.c2_candle->0).ts + duration(
                smt.comparison_timeframe,
            )
            &&& x.symbol == symbol
        }),
{
    reveal(validation_window);
    lemma_chain_at(smt.chains, symbol, i);
    let w = validation_window(smt, symbol)->0;
    let a = bar_inputs(bars_for(bars, symbol), symbol, w.0, w.2);
    let b = event_inputs(events_for(events, symbol), symbol, w.0, w.2);
    lemma_bars_inside(bars_for(bars, symbol), symbol, w.0, w.2);
    lemma_events_inside(events_for(events, symbol), symbol, w.0, w.2);
    let x = symbol_inputs(smt, symbol, events, bars)[n];
    if n < a.len() {
        assert(x == a[n]);
    } else {
        assert(x == b[n - a.len()]);
    }
}

proof fn lemma_bars_inside(bars: Seq<BarModel>, symbol: Seq<char>, from: i64, end: i64)
    ensures
        forall|n: int|
            0 <= n < bar_inputs(bars, symbol, from, end).len() ==> {
                let x = #[trigger] bar_inputs(bars, symbol, from, end)[n];
                from <= x.ts() && x.ts() < end && x.symbol == symbol
            },
    decreases bars.len(),
{
    if bars.len() > 0 {
        lemma_bars_inside(bars.drop_last(), symbol, from, end);
    }
}

proof fn lemma_events_inside(events: Seq<LtfEventModel>, symbol: Seq<char>, from: i64, end: i64)
    ensures
        forall|n: int|
            0 <= n < event_inputs(events, symbol, from, end).len() ==> {
                let x = #[trigger] event_inputs(events, symbol, from, end)[n];
                from <= x.ts() && x.ts() < end && x.symbol == symbol
            },
    decreases events.len(),
{
    if events.len() > 0 {
        lemma_events_inside(events.drop_last(), symbol, from, end);
    }
}

/// What ended or formed outside of any price area is not taken up again.
pub proof fn law_ended_divergences_are_not_replayed(
    s: EngineModel,
    smt: SmtModel,
    events: Seq<SymbolEvents>,
    bars: Seq<SymbolBars>,
    i: int,
)
    requires
        smt.htf_pda_ref is None || (chain_at(smt.chains, smt.sweeper_symbol, i)
            && smt.chains[i].detection_state is Invalidated),
    ensures
        replay_one(s, smt, events, bars).engine == s,
        replay_one(s, smt, events, bars).changes.len() == 0,
{
    if smt.htf_pda_ref is Some {
        lemma_chain_at(smt.chains, smt.sweeper_symbol, i);
    }
}

/// The entry of a divergence is found by its identity.
pub proof fn law_entries_are_found_by_divergence(entries: Seq<EntryModel>, id: Seq<char>)
    ensures
        0 <= position(entries, id) <= entries.len(),
        position(entries, id) < entries.len() ==> entries[position(entries, id)].candidate.smt_id
            == id,
        forall|k: int|
            0 <= k < position(entries, id) ==> (#[trigger] entries[k]).candidate.smt_id != id,
    decreases entries.len(),
{
    if entries.len() > 0 && entries[0].candidate.smt_id != id {
        let rest = entries.drop_first();
        law_entries_are_found_by_divergence(rest, id);
        assert forall|k: int| 0 <= k < position(entries, id) implies (
        #[trigger] entries[k]).candidate.smt_id != id by {
            if k > 0 {
                assert(rest[k - 1] == entries[k]);
            }
        }
    }
}

/// Active candidates are those that neither ended nor expired.
pub proof fn law_active_candidates_are_open(entries: Seq<EntryModel>, k: int)
    requires
        0 <= k < entries.len(),
    ensures
        entries[k].candidate.setup_status is Expired || entries[k].candidate.setup_status
            is Invalidated ==> (forall|n: int|
            0 <= n < active_candidates(entries).len() ==> (
            #[trigger] active_candidates(entries)[n]).setup_status
                != entries[k].candidate.setup_status),
        entries[k].candidate.setup_status is C2Confirmed ==> active_candidates(entries).contains(
            entries[k].candidate,
        ),
    decreases entries.len(),
{
    let rest = entries.drop_last();
    let held = active_candidates(rest);
    let all = active_candidates(entries);
    lemma_only_active(entries);
    lemma_push_contains(held, entries.last().candidate, entries[k].candidate);
    if k < rest.len() {
        assert(rest[k] == entries[k]);
        law_active_candidates_are_open(rest, k);
    }
}

proof fn lemma_only_active(entries: Seq<EntryModel>)
    ensures
        forall|n: int|
            0 <= n < active_candidates(entries).len() ==> is_active(
                #[trigger] active_candidates(entries)[n],
            ),
    decreases entries.len(),
{
    if entries.len() > 0 {
        let held = active_candidates(entries.drop_last());
        let all = active_candidates(entries);
        lemma_only_active(entries.drop_last());
        assert forall|n: int| 0 <= n < all.len() implies is_active(#[trigger] all[n]) by {
            if n < held.len() {
                assert(all[n] == held[n]);
            }
        }
    }
}

/// The list that is filed under an instrument first is its list.
pub proof fn law_lists_are_found_by_instrument(
    book: Seq<SymbolEvents>,
    bars: Seq<SymbolBars>,
    symbol: Seq<char>,
    i: int,
)
    ensures
        0 <= i < book.len() && book[i].symbol@ == symbol && (forall|j: int|
            0 <= j < i ==> (#[trigger] book[j]).symbol@ != symbol) ==> events_for(book, symbol)
            == book[i].events.deep_view(),
        0 <= i < bars.len() && bars[i].symbol@ == symbol && (forall|j: int|
            0 <= j < i ==> (#[trigger] bars[j]).symbol@ != symbol) ==> bars_for(bars, symbol)
            == bars[i].bars.deep_view(),
    decreases i,
{
    if i > 0 {
        if book.len() > 0 {
            let rest = book.drop_first();
            law_lists_are_found_by_instrument(rest, Seq::empty(), symbol, i - 1);
            if 0 <= i < book.len() && (forall|j: int|
                0 <= j < i ==> (#[trigger] book[j]).symbol@ != symbol) {
                assert(book[0].symbol@ != symbol);
                assert(rest[i - 1] == book[i]);
                assert forall|j: int| 0 <= j < i - 1 implies (#[trigger] rest[j]).symbol@
                    != symbol by {
                    assert(rest[j] == book[j + 1]);
                }
            }
        }
        if bars.len() > 0 {
            let rest = bars.drop_first();
            law_lists_are_found_by_instrument(Seq::empty(), rest, symbol, i - 1);
            if 0 <= i < bars.len() && (forall|j: int|
                0 <= j < i ==> (#[trigger] bars[j]).symbol@ != symbol) {
                assert(bars[0].symbol@ != symbol);
                assert(rest[i - 1] == bars[i]);
                assert forall|j: int| 0 <= j < i - 1 implies (#[trigger] rest[j]).symbol@
                    != symbol by {
                    assert(rest[j] == bars[j + 1]);
                }
            }
        }
    }
}

/// The inputs of a divergence are those of all its instruments.
pub proof fn law_every_instrument_is_replayed(
    smt: SmtModel,
    symbols: Seq<Seq<char>>,
    events: Seq<SymbolEvents>,
    bars: Seq<SymbolBars>,
    x: InputModel,
)
    ensures
        all_inputs(smt, symbols, events, bars).contains(x) <==> exists|k: int|
            0 <= k < symbols.len() && symbol_inputs(
                smt,
                #[trigger] symbols[k],
                events,
                bars,
            ).contains(x),
    decreases symbols.len(),
{
    if symbols.len() > 0 {
        let rest = symbols.drop_last();
        let a = all_inputs(smt, rest, events, bars);
        let b = symbol_inputs(smt, symbols.last(), events, bars);
        law_every_instrument_is_replayed(smt, rest, events, bars, x);
        if a.contains(x) {
            let i = choose|i: int| 0 <= i < a.len() && a[i] == x;
            assert((a + b)[i] == x);
            let k = choose|k: int|
                0 <= k < rest.len() && symbol_inputs(
                    smt,
                    #[trigger] rest[k],
                    events,
                    bars,
                ).contains(x);
            assert(symbols[k] == rest[k]);
        }
        if b.contains(x) {
            let i = choose|i: int| 0 <= i < b.len() && b[i] == x;
            assert((a + b)[a.len() + i] == x);
            assert(symbols[symbols.len() - 1] == symbols.last());
        }
        if exists|k: int|
            0 <= k < symbols.len() && symbol_inputs(
                smt,
                #[trigger] symbols[k],
                events,
                bars,
            ).contains(x) {
            let k = choose|k: int|
                0 <= k < symbols.len() && symbol_inputs(
                    smt,
                    #[trigger] symbols[k],
                    events,
                    bars,
                ).contains(x);
            if k < rest.len() {
                assert(rest[k] == symbols[k]);
            }
        }
    }
}

/// A replay of several divergences takes them one after another, and reports what
/// each of them changes.
pub proof fn law_divergences_are_replayed_in_turn(
    s: EngineModel,
    smts: Seq<SmtModel>,
    events: Seq<SymbolEvents>,
    bars: Seq<SymbolBars>,
    smt: SmtModel,
)
    ensures
        replay_many(s, Seq::empty(), events, bars).engine == s,
        ({
            let first = replay_many(s, smts, events, bars);
            let next = replay_one(first.engine, smt, events, bars);
            let both = replay_many(s, smts.push(smt), events, bars);
            both.engine == next.engine && both.changes == first.changes + next.changes
        }),
{
    assert(smts.push(smt).drop_last() =~= smts);
}

} // verus!
