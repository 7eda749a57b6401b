//! What holds of aggregated candles over whole sequences of one-minute events.
use vstd::prelude::*;
use crate::aggregator::{
    acceptable, acceptable_minute, batch_closed, candle_of, close_events, current_after,
    ends_candle, far_from_limits, finished, fresh, lane_closed, lane_events, lanes_events,
    minute_closed, minute_folded, minute_is_settled, previewed, quote_events, quote_is_stale,
    quoted, ring_extended, ring_pushed, step_events, stepped, AggregatorModel, LaneModel,
    HISTORY_RING_SIZE,
};
use crate::boundaries::{
    clock_known, in_era, law_candles_are_in_order, law_candles_open_on_boundaries,
    lemma_openings_fit, on_boundary,
};
use crate::calendar::{aligned, surveyed};
use crate::h4::ascending;
use crate::types::{higher_timeframes, BarEventModel, BarModel, Timeframe};

verus! {

/// The candle opens on a boundary of its timeframe.
pub open spec fn opens_well(bar: BarModel) -> bool {
    on_boundary(bar.tf, bar.ts as int)
}

/// Every candle of the lane opens on a boundary.
pub open spec fn lane_opens_well(lane: LaneModel) -> bool {
    &&& lane.rolling matches Some(r) ==> opens_well(r.bar)
    &&& lane.preview matches Some(b) ==> opens_well(b)
    &&& forall|i: int| 0 <= i < lane.history.len() ==> opens_well(#[trigger] lane.history[i])
}

/// Every candle of the aggregator opens on a boundary, and the clock was read for the
/// quote that may be shown again.
pub open spec fn opens_on_boundaries(s: AggregatorModel) -> bool {
    &&& forall|i: int| 0 <= i < s.lanes.len() ==> lane_opens_well(#[trigger] s.lanes[i])
    &&& s.latest_preview matches Some(b) ==> quote_read(b.ts as int)
}

/// The clock was read for a quote: at its minute, on every higher timeframe.
pub open spec fn quote_read(ts: int) -> bool {
    forall|i: int|
        0 <= i < higher_timeframes().len() ==> surveyed(#[trigger] higher_timeframes()[i], ts)
}

/// The clock was read for a close: at the minute and at the next one.
pub open spec fn close_read(ts: int) -> bool {
    quote_read(ts) && quote_read(ts + 60_000)
}

/// The clock was read for every minute of a batch that is taken.
pub open spec fn batch_read(s: AggregatorModel, bars: Seq<BarModel>) -> bool
    decreases bars.len(),
{
    bars.len() == 0 || (batch_read(s, bars.drop_last()) && (minute_is_settled(
        batch_closed(s, bars.drop_last()),
        bars.last(),
    ) || close_read(bars.last().ts as int)))
}

/// The clock was read for what an event changes.
pub open spec fn event_read(s: AggregatorModel, evt: BarEventModel) -> bool {
    match evt {
        BarEventModel::Historical(bars) => batch_read(s, bars),
        BarEventModel::BarUpdate(bar) => quote_is_stale(s, bar) || quote_read(bar.ts as int),
        BarEventModel::BarClosed(bar) => minute_is_settled(s, bar) || close_read(bar.ts as int),
    }
}

/// The candle that an event of a higher timeframe carries.
pub open spec fn carried(e: BarEventModel) -> BarModel {
    match e {
        BarEventModel::BarUpdate(b) => b,
        BarEventModel::BarClosed(b) => b,
        BarEventModel::Historical(bars) => bars[0],
    }
}

/// An event that an aggregator of the instrument may pass on: one candle of the
/// instrument and of a higher timeframe, which opens on a boundary.
pub open spec fn well_shaped(e: BarEventModel, symbol: Seq<char>) -> bool {
    &&& !(e is Historical)
    &&& carried(e).symbol == symbol
    &&& higher_timeframes().contains(carried(e).tf)
    &&& opens_well(carried(e))
}

/// Every event of the list is [`well_shaped`].
pub open spec fn all_well_shaped(list: Seq<BarEventModel>, symbol: Seq<char>) -> bool {
    forall|i: int| 0 <= i < list.len() ==> well_shaped(#[trigger] list[i], symbol)
}

/// A candle of the lane: of its instrument and timeframe, opened on a boundary.
spec fn good(bar: BarModel, symbol: Seq<char>, tf: Timeframe) -> bool {
    candle_of(bar, symbol, tf) && opens_well(bar)
}

spec fn lane_good(lane: LaneModel, symbol: Seq<char>, tf: Timeframe) -> bool {
    &&& lane.tf == tf
    &&& lane.rolling matches Some(r) ==> good(r.bar, symbol, tf)
    &&& lane.preview matches Some(b) ==> good(b, symbol, tf)
    &&& forall|i: int| 0 <= i < lane.history.len() ==> good(#[trigger] lane.history[i], symbol, tf)
}

spec fn shaped(s: AggregatorModel) -> bool {
    &&& s.lanes.len() == higher_timeframes().len()
    &&& forall|i: int|
        0 <= i < s.lanes.len() ==> lane_good(#[trigger] s.lanes[i], s.symbol, higher_timeframes()[i])
    &&& s.latest_preview matches Some(b) ==> far_from_limits(b.ts as int) && quote_read(b.ts as int)
}

proof fn lemma_current(symbol: Seq<char>, lane: LaneModel, tf: Timeframe, m1: BarModel)
    requires
        lane_good(lane, symbol, tf),
        far_from_limits(m1.ts as int),
        surveyed(tf, m1.ts as int),
    ensures
        good(current_after(symbol, lane, m1).bar, symbol, tf),
        good(previewed(symbol, lane, m1), symbol, tf),
{
    law_candles_open_on_boundaries(tf, m1.ts as int);
    lemma_openings_fit(tf, m1.ts as int);
}

proof fn lemma_ring(history: Seq<BarModel>, bars: Seq<BarModel>, symbol: Seq<char>, tf: Timeframe)
    requires
        forall|i: int| 0 <= i < history.len() ==> good(#[trigger] history[i], symbol, tf),
        forall|i: int| 0 <= i < bars.len() ==> good(#[trigger] bars[i], symbol, tf),
    ensures
        forall|i: int|
            0 <= i < ring_extended(history, bars).len() ==> good(
                #[trigger] ring_extended(history, bars)[i],
                symbol,
                tf,
            ),
    decreases bars.len(),
{
    if bars.len() > 0 {
        let rest = bars.drop_last();
        assert forall|i: int| 0 <= i < rest.len() implies good(#[trigger] rest[i], symbol, tf) by {
            assert(rest[i] == bars[i]);
        }
        lemma_ring(history, rest, symbol, tf);
        let had = ring_extended(history, rest);
        let now = ring_extended(history, bars);
        let last = bars[bars.len() - 1];
        assert forall|i: int| 0 <= i < now.len() implies good(#[trigger] now[i], symbol, tf) by {
            let all = had.push(last);
            let k = if all.len() > HISTORY_RING_SIZE {
                i + all.len() - HISTORY_RING_SIZE
            } else {
                i
            };
            assert(now[i] == all[k]);
            if k < had.len() {
                assert(all[k] == had[k]);
            }
        }
    }
}

proof fn lemma_finished(symbol: Seq<char>, lane: LaneModel, tf: Timeframe, m1: BarModel)
    requires
        lane_good(lane, symbol, tf),
        far_from_limits(m1.ts as int),
        surveyed(tf, m1.ts as int),
    ensures
        forall|i: int|
            0 <= i < finished(symbol, lane, m1).len() ==> good(
                #[trigger] finished(symbol, lane, m1)[i],
                symbol,
                tf,
            ),
{
    lemma_current(symbol, lane, tf, m1);
}

proof fn lemma_lane_closed(symbol: Seq<char>, lane: LaneModel, tf: Timeframe, m1: BarModel)
    requires
        lane_good(lane, symbol, tf),
        higher_timeframes().contains(tf),
        far_from_limits(m1.ts as int),
        surveyed(tf, m1.ts as int),
    ensures
        lane_good(lane_closed(symbol, lane, m1), symbol, tf),
        all_well_shaped(lane_events(symbol, lane, m1), symbol),
{
    lemma_current(symbol, lane, tf, m1);
    lemma_finished(symbol, lane, tf, m1);
    let done = finished(symbol, lane, m1);
    lemma_ring(lane.history, done, symbol, tf);
    let events = lane_events(symbol, lane, m1);
    assert forall|i: int| 0 <= i < events.len() implies well_shaped(#[trigger] events[i], symbol) by {
        if i < done.len() {
            assert(events[i] == BarEventModel::BarClosed(done[i]));
        }
    }
}

proof fn lemma_quoted(s: AggregatorModel, m1: BarModel)
    requires
        shaped(s),
        far_from_limits(m1.ts as int),
        quote_is_stale(s, m1) || quote_read(m1.ts as int),
    ensures
        shaped(quoted(s, m1)),
        all_well_shaped(quote_events(s, m1), s.symbol),
{
    assert forall|i: int| 0 <= i < s.lanes.len() && !quote_is_stale(s, m1) implies good(
        previewed(s.symbol, #[trigger] s.lanes[i], m1),
        s.symbol,
        higher_timeframes()[i],
    ) by {
        assert(surveyed(higher_timeframes()[i], m1.ts as int));
        lemma_current(s.symbol, s.lanes[i], higher_timeframes()[i], m1);
    }
    let after = quoted(s, m1);
    assert forall|i: int| 0 <= i < after.lanes.len() implies lane_good(
        #[trigger] after.lanes[i],
        s.symbol,
        higher_timeframes()[i],
    ) by {
        assert(lane_good(s.lanes[i], s.symbol, higher_timeframes()[i]));
    }
    let events = quote_events(s, m1);
    assert forall|i: int| 0 <= i < events.len() implies well_shaped(#[trigger] events[i], s.symbol) by {
        assert(lane_good(s.lanes[i], s.symbol, higher_timeframes()[i]));
        assert(higher_timeframes().contains(higher_timeframes()[i]));
    }
}

proof fn lemma_lanes_events(s: AggregatorModel, m1: BarModel, n: nat)
    requires
        shaped(s),
        far_from_limits(m1.ts as int),
        quote_read(m1.ts as int),
        n <= s.lanes.len(),
    ensures
        all_well_shaped(lanes_events(s, m1, n), s.symbol),
    decreases n,
{
    if n > 0 {
        lemma_lanes_events(s, m1, (n - 1) as nat);
        assert(higher_timeframes().contains(higher_timeframes()[n - 1]));
        assert(surveyed(higher_timeframes()[n - 1], m1.ts as int));
        lemma_lane_closed(s.symbol, s.lanes[n - 1], higher_timeframes()[n - 1], m1);
        let a = lanes_events(s, m1, (n - 1) as nat);
        let b = lane_events(s.symbol, s.lanes[n - 1], m1);
        lemma_joined(a, b, s.symbol);
    }
}

proof fn lemma_joined(a: Seq<BarEventModel>, b: Seq<BarEventModel>, symbol: Seq<char>)
    requires
        all_well_shaped(a, symbol),
        all_well_shaped(b, symbol),
    ensures
        all_well_shaped(a + b, symbol),
{
    assert forall|i: int| 0 <= i < (a + b).len() implies well_shaped(
        #[trigger] (a + b)[i],
        symbol,
    ) by {
        if i < a.len() {
            assert((a + b)[i] == a[i]);
        } else {
            assert((a + b)[i] == b[i - a.len()]);
        }
    }
}

proof fn lemma_minute_closed(s: AggregatorModel, m1: BarModel)
    requires
        shaped(s),
        far_from_limits(m1.ts as int),
        minute_is_settled(s, m1) || quote_read(m1.ts as int),
    ensures
        shaped(minute_closed(s, m1)),
        minute_closed(s, m1).symbol == s.symbol,
        all_well_shaped(close_events(s, m1), s.symbol),
{
    if !minute_is_settled(s, m1) {
        let folded = minute_folded(s, m1);
        assert forall|i: int| 0 <= i < folded.lanes.len() implies lane_good(
            #[trigger] folded.lanes[i],
            s.symbol,
            higher_timeframes()[i],
        ) by {
            assert(lane_good(s.lanes[i], s.symbol, higher_timeframes()[i]));
            assert(higher_timeframes().contains(higher_timeframes()[i]));
            assert(surveyed(higher_timeframes()[i], m1.ts as int));
            lemma_lane_closed(s.symbol, s.lanes[i], higher_timeframes()[i], m1);
        }
        lemma_lanes_events(s, m1, s.lanes.len());
        match folded.latest_preview {
            Some(b) => {
                lemma_quoted(folded, b);
                lemma_joined(lanes_events(s, m1, s.lanes.len()), quote_events(folded, b), s.symbol);
            },
            None => {
                lemma_joined(lanes_events(s, m1, s.lanes.len()), Seq::empty(), s.symbol);
            },
        }
    }
}

proof fn lemma_batch_closed(s: AggregatorModel, bars: Seq<BarModel>)
    requires
        shaped(s),
        forall|i: int| 0 <= i < bars.len() ==> acceptable_minute(#[trigger] bars[i]),
        batch_read(s, bars),
    ensures
        shaped(batch_closed(s, bars)),
        batch_closed(s, bars).symbol == s.symbol,
    decreases bars.len(),
{
    if bars.len() > 0 {
        let rest = bars.drop_last();
        assert forall|i: int| 0 <= i < rest.len() implies acceptable_minute(
            #[trigger] rest[i],
        ) by {
            assert(rest[i] == bars[i]);
        }
        lemma_batch_closed(s, rest);
        assert(acceptable_minute(bars[bars.len() - 1]));
        lemma_minute_closed(batch_closed(s, rest), bars.last());
    }
}

proof fn lemma_shaped(s: AggregatorModel)
    requires
        s.wf(),
        opens_on_boundaries(s),
    ensures
        shaped(s),
{
    assert forall|i: int| 0 <= i < s.lanes.len() implies lane_good(
        #[trigger] s.lanes[i],
        s.symbol,
        higher_timeframes()[i],
    ) by {
        let lane = s.lanes[i];
        assert(lane_opens_well(lane));
        assert(lane.wf(s.symbol));
        assert forall|k: int| 0 <= k < lane.history.len() implies good(
            #[trigger] lane.history[k],
            s.symbol,
            lane.tf,
        ) by {
            assert(candle_of(lane.history[k], s.symbol, lane.tf));
        }
    }
}

proof fn lemma_opens(s: AggregatorModel)
    requires
        shaped(s),
    ensures
        opens_on_boundaries(s),
{
    assert forall|i: int| 0 <= i < s.lanes.len() implies lane_opens_well(#[trigger] s.lanes[i]) by {
        let lane = s.lanes[i];
        assert(lane_good(lane, s.symbol, higher_timeframes()[i]));
        assert forall|k: int| 0 <= k < lane.history.len() implies opens_well(
            #[trigger] lane.history[k],
        ) by {
            assert(good(lane.history[k], s.symbol, higher_timeframes()[i]));
        }
    }
}

/// Candles open on boundaries of their timeframes, from the start and after every
/// event for which the clock was read, and what is passed on are candles of the
/// instrument on higher timeframes that open on boundaries.
pub proof fn law_candles_have_their_shape(s: AggregatorModel, evt: BarEventModel)
    requires
        s.wf(),
        acceptable(evt),
    ensures
        opens_on_boundaries(fresh(s.symbol)),
        opens_on_boundaries(s) && event_read(s, evt) ==> opens_on_boundaries(stepped(s, evt))
            && all_well_shaped(step_events(s, evt), s.symbol),
{
    if opens_on_boundaries(s) && event_read(s, evt) {
        lemma_shaped(s);
        match evt {
            BarEventModel::Historical(bars) => {
                lemma_batch_closed(s, bars);
            },
            BarEventModel::BarUpdate(bar) => {
                lemma_quoted(s, bar);
            },
            BarEventModel::BarClosed(bar) => {
                lemma_minute_closed(s, bar);
            },
        }
        lemma_opens(stepped(s, evt));
    }
}

/// A quote is answered with updates alone, and no closed candle comes of it.
pub proof fn law_quotes_close_nothing(s: AggregatorModel, m1: BarModel)
    ensures
        forall|i: int|
            0 <= i < quote_events(s, m1).len() ==> #[trigger] quote_events(s, m1)[i] is BarUpdate,
        quoted(s, m1).lanes.len() == s.lanes.len(),
        forall|i: int|
            0 <= i < s.lanes.len() ==> (#[trigger] quoted(s, m1).lanes[i]).history
                == s.lanes[i].history,
{
}

/// What closed minutes have built is the same; quotes may differ.
pub open spec fn same_closed(a: AggregatorModel, b: AggregatorModel) -> bool {
    &&& a.symbol == b.symbol
    &&& a.last_closed_m1_ts == b.last_closed_m1_ts
    &&& a.lanes.len() == b.lanes.len()
    &&& forall|i: int|
        0 <= i < a.lanes.len() ==> same_lane(#[trigger] a.lanes[i], b.lanes[i])
}

/// Two lanes differ at most in what the open minute shows.
pub open spec fn same_lane(a: LaneModel, b: LaneModel) -> bool {
    a.tf == b.tf && a.rolling == b.rolling && a.history == b.history
}

/// The closes among the events.
pub open spec fn closes_among(events: Seq<BarEventModel>) -> Seq<BarEventModel> {
    events.filter(|e: BarEventModel| e is BarClosed)
}

/// State after a sequence of one-minute events.
pub open spec fn fed(s: AggregatorModel, events: Seq<BarEventModel>) -> AggregatorModel
    decreases events.len(),
{
    if events.len() == 0 {
        s
    } else {
        stepped(fed(s, events.drop_last()), events.last())
    }
}

/// The events but for quotes of the open minute.
pub open spec fn without_quotes(events: Seq<BarEventModel>) -> Seq<BarEventModel>
    decreases events.len(),
{
    if events.len() == 0 {
        Seq::empty()
    } else if events.last() is BarUpdate {
        without_quotes(events.drop_last())
    } else {
        without_quotes(events.drop_last()).push(events.last())
    }
}

proof fn lemma_filter_joined(a: Seq<BarEventModel>, b: Seq<BarEventModel>)
    ensures
        closes_among(a + b) == closes_among(a) + closes_among(b),
{
    Seq::filter_distributes_over_add(a, b, |e: BarEventModel| e is BarClosed);
}

proof fn lemma_no_closes(events: Seq<BarEventModel>)
    requires
        forall|i: int| 0 <= i < events.len() ==> #[trigger] events[i] is BarUpdate,
    ensures
        closes_among(events) == Seq::<BarEventModel>::empty(),
    decreases events.len(),
{
    reveal(Seq::filter);
    if events.len() > 0 {
        let rest = events.drop_last();
        assert forall|i: int| 0 <= i < rest.len() implies #[trigger] rest[i] is BarUpdate by {
            assert(rest[i] == events[i]);
        }
        lemma_no_closes(rest);
        assert(events[events.len() - 1] is BarUpdate);
    }
}

proof fn lemma_same_quoted(a: AggregatorModel, m1: BarModel)
    ensures
        same_closed(quoted(a, m1), a),
        closes_among(quote_events(a, m1)) == Seq::<BarEventModel>::empty(),
{
    lemma_no_closes(quote_events(a, m1));
}

proof fn lemma_same_lanes_events(a: AggregatorModel, b: AggregatorModel, m1: BarModel, n: nat)
    requires
        same_closed(a, b),
        n <= a.lanes.len(),
    ensures
        lanes_events(a, m1, n) == lanes_events(b, m1, n),
    decreases n,
{
    if n > 0 {
        lemma_same_lanes_events(a, b, m1, (n - 1) as nat);
        assert(same_lane(a.lanes[n - 1], b.lanes[n - 1]));
    }
}

proof fn lemma_same_minute(a: AggregatorModel, b: AggregatorModel, m1: BarModel)
    requires
        same_closed(a, b),
    ensures
        same_closed(minute_closed(a, m1), minute_closed(b, m1)),
        closes_among(close_events(a, m1)) == closes_among(close_events(b, m1)),
{
    if !minute_is_settled(a, m1) {
        let fa = minute_folded(a, m1);
        let fb = minute_folded(b, m1);
        assert(same_closed(fa, fb)) by {
            assert forall|i: int| 0 <= i < fa.lanes.len() implies same_lane(
                #[trigger] fa.lanes[i],
                fb.lanes[i],
            ) by {
                assert(same_lane(a.lanes[i], b.lanes[i]));
            }
        }
        lemma_same_lanes_events(a, b, m1, a.lanes.len());
        let told = lanes_events(a, m1, a.lanes.len());
        let none = Seq::<BarEventModel>::empty();
        lemma_no_closes(none);
        lemma_filter_joined(told, none);
        let qa = match fa.latest_preview {
            Some(q) => quote_events(fa, q),
            None => none,
        };
        let qb = match fb.latest_preview {
            Some(q) => quote_events(fb, q),
            None => none,
        };
        if let Some(q) = fa.latest_preview {
            lemma_same_quoted(fa, q);
        }
        if let Some(q) = fb.latest_preview {
            lemma_same_quoted(fb, q);
        }
        lemma_filter_joined(told, qa);
        lemma_filter_joined(told, qb);
        let ra = minute_closed(a, m1);
        let rb = minute_closed(b, m1);
        assert forall|i: int| 0 <= i < ra.lanes.len() implies same_lane(
            #[trigger] ra.lanes[i],
            rb.lanes[i],
        ) by {
            assert(same_lane(fa.lanes[i], fb.lanes[i]));
            assert(same_lane(ra.lanes[i], fa.lanes[i]));
            assert(same_lane(rb.lanes[i], fb.lanes[i]));
        }
    }
}

proof fn lemma_same_batch(a: AggregatorModel, b: AggregatorModel, bars: Seq<BarModel>)
    requires
        same_closed(a, b),
    ensures
        same_closed(batch_closed(a, bars), batch_closed(b, bars)),
    decreases bars.len(),
{
    if bars.len() > 0 {
        lemma_same_batch(a, b, bars.drop_last());
        lemma_same_minute(
            batch_closed(a, bars.drop_last()),
            batch_closed(b, bars.drop_last()),
            bars.last(),
        );
    }
}

/// Of two states that closed minutes have built alike, an event makes two such
/// states, and answers with the same closes.
pub proof fn law_closes_depend_on_closes(a: AggregatorModel, b: AggregatorModel, evt: BarEventModel)
    requires
        same_closed(a, b),
    ensures
        same_closed(stepped(a, evt), stepped(b, evt)),
        closes_among(step_events(a, evt)) == closes_among(step_events(b, evt)),
{
    match evt {
        BarEventModel::Historical(bars) => {
            lemma_same_batch(a, b, bars);
        },
        BarEventModel::BarUpdate(bar) => {
            lemma_same_quoted(a, bar);
            lemma_same_quoted(b, bar);
            let qa = quoted(a, bar);
            let qb = quoted(b, bar);
            assert forall|i: int| 0 <= i < qa.lanes.len() implies same_lane(
                #[trigger] qa.lanes[i],
                qb.lanes[i],
            ) by {
                assert(same_lane(a.lanes[i], b.lanes[i]));
                assert(same_lane(qb.lanes[i], b.lanes[i]));
            }
        },
        BarEventModel::BarClosed(bar) => {
            lemma_same_minute(a, b, bar);
        },
    }
}

/// Quotes never change what closed minutes produce: an aggregator that is fed
/// with the events but for quotes builds the same candles.
pub proof fn law_quotes_change_no_candles(s: AggregatorModel, events: Seq<BarEventModel>)
    ensures
        same_closed(fed(s, events), fed(s, without_quotes(events))),
    decreases events.len(),
{
    if events.len() > 0 {
        let rest = events.drop_last();
        let last = events.last();
        law_quotes_change_no_candles(s, rest);
        let a = fed(s, rest);
        let b = fed(s, without_quotes(rest));
        law_closes_depend_on_closes(a, b, last);
        if last is BarUpdate {
            lemma_same_quoted(a, last->BarUpdate_0);
            let q = stepped(a, last);
            assert forall|i: int| 0 <= i < q.lanes.len() implies same_lane(
                #[trigger] q.lanes[i],
                b.lanes[i],
            ) by {
                assert(same_lane(a.lanes[i], b.lanes[i]));
            }
        } else {
            assert(without_quotes(rest).push(last).drop_last() =~= without_quotes(rest));
        }
    }
}

/// At every event of a sequence the closes that are passed on are those that an
/// aggregator without the quotes passes on at the same event.
pub proof fn law_quotes_change_no_closes(s: AggregatorModel, events: Seq<BarEventModel>, k: int)
    requires
        0 <= k < events.len(),
    ensures
        closes_among(step_events(fed(s, events.take(k)), events[k])) == closes_among(
            step_events(fed(s, without_quotes(events.take(k))), events[k]),
        ),
{
    law_quotes_change_no_candles(s, events.take(k));
    law_closes_depend_on_closes(
        fed(s, events.take(k)),
        fed(s, without_quotes(events.take(k))),
        events[k],
    );
}

/// A minute on the minute grid.
pub open spec fn whole_minute(bar: BarModel) -> bool {
    bar.ts % 60_000 == 0
}

/// The minutes that an event closes.
pub open spec fn minutes_of(evt: BarEventModel) -> Seq<BarModel> {
    match evt {
        BarEventModel::Historical(bars) => bars,
        BarEventModel::BarUpdate(bar) => Seq::empty(),
        BarEventModel::BarClosed(bar) => seq![bar],
    }
}

/// The minutes that a sequence of events closes.
pub open spec fn closed_minutes(events: Seq<BarEventModel>) -> Seq<BarModel>
    decreases events.len(),
{
    if events.len() == 0 {
        Seq::empty()
    } else {
        closed_minutes(events.drop_last()) + minutes_of(events.last())
    }
}

proof fn lemma_batches_join(s: AggregatorModel, a: Seq<BarModel>, b: Seq<BarModel>)
    ensures
        batch_closed(s, a + b) == batch_closed(batch_closed(s, a), b),
    decreases b.len(),
{
    if b.len() == 0 {
        assert(a + b =~= a);
    } else {
        lemma_batches_join(s, a, b.drop_last());
        assert((a + b).drop_last() =~= a + b.drop_last());
        assert((a + b).last() == b.last());
    }
}

/// What a sequence of events builds is what its closed minutes build in one batch.
pub proof fn law_minutes_decide(s: AggregatorModel, events: Seq<BarEventModel>)
    ensures
        same_closed(fed(s, events), batch_closed(s, closed_minutes(events))),
    decreases events.len(),
{
    if events.len() > 0 {
        let rest = events.drop_last();
        let last = events.last();
        law_minutes_decide(s, rest);
        let a = fed(s, rest);
        let b = batch_closed(s, closed_minutes(rest));
        lemma_batches_join(s, closed_minutes(rest), minutes_of(last));
        match last {
            BarEventModel::Historical(bars) => {
                lemma_same_batch(a, b, bars);
            },
            BarEventModel::BarUpdate(bar) => {
                lemma_same_quoted(a, bar);
                let q = stepped(a, last);
                assert forall|i: int| 0 <= i < q.lanes.len() implies same_lane(
                    #[trigger] q.lanes[i],
                    b.lanes[i],
                ) by {
                    assert(same_lane(a.lanes[i], b.lanes[i]));
                }
            },
            BarEventModel::BarClosed(bar) => {
                lemma_same_minute(a, b, bar);
                assert(seq![bar].drop_last() =~= Seq::<BarModel>::empty());
                reveal_with_fuel(batch_closed, 2);
            },
        }
    }
}

/// All candles that the minutes finish on the higher timeframe of a position, in the
/// order in which they do.
pub open spec fn all_finished(symbol: Seq<char>, minutes: Seq<BarModel>, n: int) -> Seq<BarModel>
    decreases minutes.len(),
{
    if minutes.len() == 0 {
        Seq::empty()
    } else {
        let before = batch_closed(fresh(symbol), minutes.drop_last());
        let earlier = all_finished(symbol, minutes.drop_last(), n);
        if minute_is_settled(before, minutes.last()) {
            earlier
        } else {
            earlier + finished(symbol, before.lanes[n], minutes.last())
        }
    }
}

/// The newest of a list of candles, as many as a ring holds.
pub open spec fn newest(bars: Seq<BarModel>) -> Seq<BarModel> {
    if bars.len() > HISTORY_RING_SIZE {
        bars.skip(bars.len() - HISTORY_RING_SIZE)
    } else {
        bars
    }
}

proof fn lemma_ring_is_newest(earlier: Seq<BarModel>, bars: Seq<BarModel>)
    ensures
        ring_extended(newest(earlier), bars) == newest(earlier + bars),
    decreases bars.len(),
{
    if bars.len() == 0 {
        assert(earlier + bars =~= earlier);
    } else {
        let rest = bars.drop_last();
        lemma_ring_is_newest(earlier, rest);
        assert(earlier + bars =~= (earlier + rest).push(bars.last()));
        assert(ring_pushed(newest(earlier + rest), bars.last()) =~= newest(
            (earlier + rest).push(bars.last()),
        ));
    }
}

proof fn lemma_batch_frame(symbol: Seq<char>, minutes: Seq<BarModel>)
    ensures
        batch_closed(fresh(symbol), minutes).symbol == symbol,
        batch_closed(fresh(symbol), minutes).lanes.len() == higher_timeframes().len(),
        forall|i: int|
            0 <= i < higher_timeframes().len() ==> (#[trigger] batch_closed(
                fresh(symbol),
                minutes,
            ).lanes[i]).tf == higher_timeframes()[i],
    decreases minutes.len(),
{
    if minutes.len() > 0 {
        lemma_batch_frame(symbol, minutes.drop_last());
        let before = batch_closed(fresh(symbol), minutes.drop_last());
        let after = batch_closed(fresh(symbol), minutes);
        assert forall|i: int| 0 <= i < higher_timeframes().len() implies (
        #[trigger] after.lanes[i]).tf == higher_timeframes()[i] by {
            assert(before.lanes[i].tf == higher_timeframes()[i]);
        }
    }
}

proof fn lemma_history_of_batch(symbol: Seq<char>, minutes: Seq<BarModel>, n: int)
    requires
        0 <= n < higher_timeframes().len(),
    ensures
        batch_closed(fresh(symbol), minutes).lanes[n].history == newest(
            all_finished(symbol, minutes, n),
        ),
    decreases minutes.len(),
{
    if minutes.len() > 0 {
        let rest = minutes.drop_last();
        lemma_history_of_batch(symbol, rest, n);
        lemma_batch_frame(symbol, rest);
        let before = batch_closed(fresh(symbol), rest);
        let m1 = minutes.last();
        if !minute_is_settled(before, m1) {
            lemma_ring_is_newest(
                all_finished(symbol, rest, n),
                finished(symbol, before.lanes[n], m1),
            );
            assert(minute_folded(before, m1).lanes[n] == lane_closed(symbol, before.lanes[n], m1));
        }
    } else {
        assert(fresh(symbol).lanes[n].history =~= newest(all_finished(symbol, minutes, n)));
    }
}

/// The closed candles that are kept of a timeframe are the newest of all that
/// the closed minutes have finished, and no more than the ring holds.
pub proof fn law_history_is_the_newest(symbol: Seq<char>, events: Seq<BarEventModel>, n: int)
    requires
        0 <= n < higher_timeframes().len(),
    ensures
        fed(fresh(symbol), events).lanes[n].history == newest(
            all_finished(symbol, closed_minutes(events), n),
        ),
        fed(fresh(symbol), events).lanes[n].history.len() <= HISTORY_RING_SIZE,
{
    law_minutes_decide(fresh(symbol), events);
    lemma_history_of_batch(symbol, closed_minutes(events), n);
    lemma_batch_frame(symbol, closed_minutes(events));
    let a = fed(fresh(symbol), events);
    let b = batch_closed(fresh(symbol), closed_minutes(events));
    assert(same_lane(a.lanes[n], b.lanes[n]));
}

proof fn lemma_ring_is_suffix(history: Seq<BarModel>, bars: Seq<BarModel>) -> (k: int)
    ensures
        0 <= k <= (history + bars).len(),
        ring_extended(history, bars) == (history + bars).skip(k),
    decreases bars.len(),
{
    if bars.len() == 0 {
        assert((history + bars).skip(0) =~= history);
        0
    } else {
        let rest = bars.drop_last();
        let k = lemma_ring_is_suffix(history, rest);
        let had = (history + rest).skip(k);
        let all = had.push(bars.last());
        assert((history + bars).skip(k) =~= all);
        if all.len() > HISTORY_RING_SIZE {
            let more = all.len() - HISTORY_RING_SIZE;
            assert((history + bars).skip(k + more) =~= all.skip(more));
            k + more
        } else {
            k
        }
    }
}

/// The closed candles of a lane are in the order of time, and the candle that the last
/// closed minute belongs to comes behind them. The clock was read for that minute.
pub open spec fn lane_steady(lane: LaneModel, tf: Timeframe, last: Option<i64>) -> bool {
    &&& lane.tf == tf
    &&& ascending(lane.history)
    &&& match last {
        None => lane.rolling is None && lane.history.len() == 0,
        Some(ts) => {
            let at = aligned(tf, ts as int);
            &&& clock_known(tf, ts as int)
            &&& surveyed(tf, ts + 60_000)
            &&& ts % 60_000 == 0
            &&& lane.rolling matches Some(r) ==> r.bar.ts == at
            &&& lane.rolling is None ==> aligned(tf, ts + 60_000) != at
            &&& forall|i: int|
                0 <= i < lane.history.len() ==> (#[trigger] lane.history[i]).ts <= at && (
                lane.rolling is Some ==> lane.history[i].ts < at)
        },
    }
}

/// Of the closed candles none opens at or after the candle of a later minute.
proof fn lemma_earlier(lane: LaneModel, tf: Timeframe, ts: i64, m: int)
    requires
        lane_steady(lane, tf, Some(ts)),
        ts < m,
        m % 60_000 == 0,
        clock_known(tf, m),
    ensures
        aligned(tf, ts as int) <= aligned(tf, m),
        forall|i: int|
            0 <= i < lane.history.len() ==> (#[trigger] lane.history[i]).ts < aligned(tf, m),
{
    law_candles_are_in_order(tf, ts as int, m);
    if lane.rolling is None {
        assert(ts + 60_000 <= m);
        law_candles_are_in_order(tf, ts as int, ts + 60_000);
        law_candles_are_in_order(tf, ts + 60_000, m);
    }
}

proof fn lemma_lane_steady(
    symbol: Seq<char>,
    lane: LaneModel,
    tf: Timeframe,
    last: Option<i64>,
    m1: BarModel,
)
    requires
        lane_steady(lane, tf, last),
        far_from_limits(m1.ts as int),
        whole_minute(m1),
        clock_known(tf, m1.ts as int),
        surveyed(tf, m1.ts + 60_000),
        last matches Some(ts) ==> ts < m1.ts,
    ensures
        lane_steady(lane_closed(symbol, lane, m1), tf, Some(m1.ts)),
{
    let at = aligned(tf, m1.ts as int);
    lemma_openings_fit(tf, m1.ts as int);
    if let Some(ts) = last {
        lemma_earlier(lane, tf, ts, m1.ts as int);
    }
    let now = current_after(symbol, lane, m1);
    assert(now.bar.ts == at);
    let done = finished(symbol, lane, m1);
    let k = lemma_ring_is_suffix(lane.history, done);
    let all = lane.history + done;
    assert forall|i: int| 0 <= i < done.len() implies (#[trigger] done[i]).ts <= at && (
    !ends_candle(lane, m1) ==> done[i].ts < at) && (i < done.len() - 1 ==> done[i].ts < at) by {
        if ends_candle(lane, m1) && i == done.len() - 1 {
        } else {
        }
    }
    assert(done.len() <= 2);
    assert forall|i: int, j: int| 0 <= i < j < all.len() implies (#[trigger] all[i]).ts < (
    #[trigger] all[j]).ts by {
        if j < lane.history.len() {
            assert(all[i] == lane.history[i] && all[j] == lane.history[j]);
        } else {
            assert(all[j] == done[j - lane.history.len()]);
            if i < lane.history.len() {
                assert(all[i] == lane.history[i]);
                lemma_done_after(symbol, lane, tf, last, m1, i, j - lane.history.len());
            } else {
                assert(all[i] == done[i - lane.history.len()]);
            }
        }
    }
    let after = lane_closed(symbol, lane, m1);
    assert forall|i: int| 0 <= i < after.history.len() implies (#[trigger] after.history[i]).ts
        <= at && (after.rolling is Some ==> after.history[i].ts < at) by {
        assert(after.history[i] == all[i + k]);
    }
    assert(ascending(after.history)) by {
        assert forall|i: int, j: int| 0 <= i < j < after.history.len() implies (
        #[trigger] after.history[i]).ts < (#[trigger] after.history[j]).ts by {
            assert(after.history[i] == all[i + k] && after.history[j] == all[j + k]);
        }
    }
}

proof fn lemma_done_after(
    symbol: Seq<char>,
    lane: LaneModel,
    tf: Timeframe,
    last: Option<i64>,
    m1: BarModel,
    i: int,
    j: int,
)
    requires
        lane_steady(lane, tf, last),
        far_from_limits(m1.ts as int),
        whole_minute(m1),
        clock_known(tf, m1.ts as int),
        last matches Some(ts) ==> ts < m1.ts,
        0 <= i < lane.history.len(),
        0 <= j < finished(symbol, lane, m1).len(),
    ensures
        lane.history[i].ts < finished(symbol, lane, m1)[j].ts,
{
    lemma_openings_fit(tf, m1.ts as int);
    if let Some(ts) = last {
        lemma_earlier(lane, tf, ts, m1.ts as int);
    }
}

/// A minute on the minute grid at which boundaries of the timeframe can be told.
pub open spec fn timely(bar: BarModel, tf: Timeframe) -> bool {
    whole_minute(bar) && in_era(tf, bar.ts as int)
}

/// Minutes that the aggregator can take, on the minute grid, for which the clock was
/// read on the timeframe.
pub open spec fn orderly(minutes: Seq<BarModel>, tf: Timeframe) -> bool {
    forall|i: int|
        0 <= i < minutes.len() ==> acceptable_minute(#[trigger] minutes[i]) && timely(
            minutes[i],
            tf,
        ) && surveyed(tf, minutes[i].ts as int) && surveyed(tf, minutes[i].ts + 60_000)
}

proof fn lemma_batch_steady(symbol: Seq<char>, minutes: Seq<BarModel>, n: int)
    requires
        0 <= n < higher_timeframes().len(),
        orderly(minutes, higher_timeframes()[n]),
    ensures
        ({
            let after = batch_closed(fresh(symbol), minutes);
            lane_steady(after.lanes[n], higher_timeframes()[n], after.last_closed_m1_ts)
        }),
    decreases minutes.len(),
{
    let tf = higher_timeframes()[n];
    if minutes.len() > 0 {
        let rest = minutes.drop_last();
        assert(orderly(rest, tf)) by {
            assert forall|i: int| 0 <= i < rest.len() implies acceptable_minute(
                #[trigger] rest[i],
            ) && timely(rest[i], tf) && surveyed(tf, rest[i].ts as int) && surveyed(
                tf,
                rest[i].ts + 60_000,
            ) by {
                assert(rest[i] == minutes[i]);
            }
        }
        lemma_batch_steady(symbol, rest, n);
        lemma_batch_frame(symbol, rest);
        let before = batch_closed(fresh(symbol), rest);
        let m1 = minutes[minutes.len() - 1];
        assert(acceptable_minute(m1) && timely(m1, tf));
        if !minute_is_settled(before, m1) {
            lemma_lane_steady(symbol, before.lanes[n], tf, before.last_closed_m1_ts, m1);
            let folded = minute_folded(before, m1);
            assert(folded.lanes[n] == lane_closed(symbol, before.lanes[n], m1));
            if let Some(b) = folded.latest_preview {
                lemma_same_quoted(folded, b);
                assert(same_lane(minute_closed(before, m1).lanes[n], folded.lanes[n]));
            }
        }
    }
}

/// Closed candles of a timeframe are kept in the order of time, none twice, however
/// minutes on the minute grid and quotes came in.
pub proof fn law_history_is_in_order(symbol: Seq<char>, events: Seq<BarEventModel>, n: int)
    requires
        0 <= n < higher_timeframes().len(),
    ensures
        orderly(closed_minutes(events), higher_timeframes()[n]) ==> ascending(
            fed(fresh(symbol), events).lanes[n].history,
        ),
{
    if orderly(closed_minutes(events), higher_timeframes()[n]) {
        law_minutes_decide(fresh(symbol), events);
        lemma_batch_steady(symbol, closed_minutes(events), n);
        lemma_batch_frame(symbol, closed_minutes(events));
        let a = fed(fresh(symbol), events);
        let b = batch_closed(fresh(symbol), closed_minutes(events));
        assert(same_lane(a.lanes[n], b.lanes[n]));
    }
}

proof fn lemma_step_shaped(s: AggregatorModel, evt: BarEventModel)
    requires
        shaped(s),
        acceptable(evt),
        event_read(s, evt),
    ensures
        shaped(stepped(s, evt)),
        stepped(s, evt).symbol == s.symbol,
{
    match evt {
        BarEventModel::Historical(bars) => {
            lemma_batch_closed(s, bars);
        },
        BarEventModel::BarUpdate(bar) => {
            lemma_quoted(s, bar);
        },
        BarEventModel::BarClosed(bar) => {
            lemma_minute_closed(s, bar);
        },
    }
}

/// The clock was read for what the events change.
pub open spec fn feed_read(s: AggregatorModel, events: Seq<BarEventModel>) -> bool
    decreases events.len(),
{
    events.len() == 0 || (feed_read(s, events.drop_last()) && event_read(
        fed(s, events.drop_last()),
        events.last(),
    ))
}

proof fn lemma_fed_shaped(symbol: Seq<char>, events: Seq<BarEventModel>)
    requires
        forall|i: int| 0 <= i < events.len() ==> acceptable(#[trigger] events[i]),
        feed_read(fresh(symbol), events),
    ensures
        shaped(fed(fresh(symbol), events)),
        fed(fresh(symbol), events).symbol == symbol,
    decreases events.len(),
{
    if events.len() > 0 {
        let rest = events.drop_last();
        assert forall|i: int| 0 <= i < rest.len() implies acceptable(#[trigger] rest[i]) by {
            assert(rest[i] == events[i]);
        }
        lemma_fed_shaped(symbol, rest);
        assert(acceptable(events[events.len() - 1]));
        lemma_step_shaped(fed(fresh(symbol), rest), events.last());
    }
}

/// Closed candles that are kept of a timeframe are candles of the instrument and
/// of that timeframe, and open on its boundaries.
pub proof fn law_history_has_its_shape(symbol: Seq<char>, events: Seq<BarEventModel>, n: int)
    requires
        0 <= n < higher_timeframes().len(),
        forall|i: int| 0 <= i < events.len() ==> acceptable(#[trigger] events[i]),
    ensures
        feed_read(fresh(symbol), events) ==> ({
            let history = fed(fresh(symbol), events).lanes[n].history;
            forall|i: int|
                0 <= i < history.len() ==> candle_of(
                    #[trigger] history[i],
                    symbol,
                    higher_timeframes()[n],
                ) && opens_well(history[i])
        }),
{
    if feed_read(fresh(symbol), events) {
        lemma_fed_shaped(symbol, events);
        let lane = fed(fresh(symbol), events).lanes[n];
        assert(lane_good(lane, symbol, higher_timeframes()[n]));
        assert forall|i: int| 0 <= i < lane.history.len() implies candle_of(
            #[trigger] lane.history[i],
            symbol,
            higher_timeframes()[n],
        ) && opens_well(lane.history[i]) by {
            assert(good(lane.history[i], symbol, higher_timeframes()[n]));
        }
    }
}

/// The closed candles of the higher timeframe of a position are in the order of time.
pub open spec fn in_order(s: AggregatorModel, n: int) -> bool {
    lane_steady(s.lanes[n], higher_timeframes()[n], s.last_closed_m1_ts)
}

/// Every minute that an event closes is on the minute grid, where boundaries of the
/// timeframe can be told.
pub open spec fn closes_timely(evt: BarEventModel, tf: Timeframe) -> bool {
    forall|i: int| 0 <= i < minutes_of(evt).len() ==> timely(#[trigger] minutes_of(evt)[i], tf)
}

proof fn lemma_order_of_minute(s: AggregatorModel, m1: BarModel, n: int)
    requires
        s.lanes.len() == higher_timeframes().len(),
        0 <= n < higher_timeframes().len(),
        in_order(s, n),
        far_from_limits(m1.ts as int),
        timely(m1, higher_timeframes()[n]),
        minute_is_settled(s, m1) || close_read(m1.ts as int),
    ensures
        in_order(minute_closed(s, m1), n),
        minute_closed(s, m1).lanes.len() == s.lanes.len(),
{
    let tf = higher_timeframes()[n];
    if !minute_is_settled(s, m1) {
        assert(surveyed(tf, m1.ts as int) && surveyed(tf, m1.ts + 60_000));
        lemma_lane_steady(s.symbol, s.lanes[n], tf, s.last_closed_m1_ts, m1);
        let folded = minute_folded(s, m1);
        assert(folded.lanes[n] == lane_closed(s.symbol, s.lanes[n], m1));
        if let Some(b) = folded.latest_preview {
            lemma_same_quoted(folded, b);
            assert(same_lane(minute_closed(s, m1).lanes[n], folded.lanes[n]));
        }
    }
}

proof fn lemma_order_of_batch(s: AggregatorModel, bars: Seq<BarModel>, n: int)
    requires
        s.lanes.len() == higher_timeframes().len(),
        0 <= n < higher_timeframes().len(),
        in_order(s, n),
        forall|i: int|
            0 <= i < bars.len() ==> acceptable_minute(#[trigger] bars[i]) && timely(
                bars[i],
                higher_timeframes()[n],
            ),
        batch_read(s, bars),
    ensures
        in_order(batch_closed(s, bars), n),
        batch_closed(s, bars).lanes.len() == s.lanes.len(),
    decreases bars.len(),
{
    if bars.len() > 0 {
        let rest = bars.drop_last();
        assert forall|i: int| 0 <= i < rest.len() implies acceptable_minute(#[trigger] rest[i])
            && timely(rest[i], higher_timeframes()[n]) by {
            assert(rest[i] == bars[i]);
        }
        lemma_order_of_batch(s, rest, n);
        assert(acceptable_minute(bars[bars.len() - 1]));
        lemma_order_of_minute(batch_closed(s, rest), bars.last(), n);
    }
}

/// Closed candles are in the order of time from the start, and stay so with every event
/// for which the clock was read, where its minutes lie on the minute grid.
pub proof fn law_events_keep_the_order(s: AggregatorModel, evt: BarEventModel, n: int)
    requires
        s.wf(),
        acceptable(evt),
        0 <= n < higher_timeframes().len(),
    ensures
        in_order(fresh(s.symbol), n),
        in_order(s, n) && event_read(s, evt) && closes_timely(evt, higher_timeframes()[n])
            ==> in_order(stepped(s, evt), n),
{
    if in_order(s, n) && event_read(s, evt) && closes_timely(evt, higher_timeframes()[n]) {
        match evt {
            BarEventModel::Historical(bars) => {
                assert forall|i: int| 0 <= i < bars.len() implies acceptable_minute(
                    #[trigger] bars[i],
                ) && timely(bars[i], higher_timeframes()[n]) by {
                    assert(timely(minutes_of(evt)[i], higher_timeframes()[n]));
                }
                lemma_order_of_batch(s, bars, n);
            },
            BarEventModel::BarUpdate(bar) => {
                lemma_same_quoted(s, bar);
                assert(same_lane(quoted(s, bar).lanes[n], s.lanes[n]));
            },
            BarEventModel::BarClosed(bar) => {
                assert(timely(minutes_of(evt)[0], higher_timeframes()[n]));
                lemma_order_of_minute(s, bar, n);
            },
        }
    }
}

} // verus!
