//! What a built candle says of the minutes that it is made of.
use vstd::prelude::*;
use crate::aggregator::{
    close_events, current_after, ends_candle, finished, lane_closed, lane_events, lanes_events,
    merged, minute_closed, minute_is_settled, previewed, publishable, quote_events, quoted,
    ring_extended, ring_pushed, started, HISTORY_RING_SIZE, AggregatorModel, LaneModel,
    RollingModel,
};
use crate::calendar::{aligned, expected_opens};
use crate::types::{BarEventModel, BarModel, Timeframe};

verus! {

/// Minutes in market order, each once.
pub open spec fn successive(minutes: Seq<BarModel>) -> bool {
    forall|i: int, j: int|
        0 <= i < j < minutes.len() ==> (#[trigger] minutes[i]).ts < (#[trigger] minutes[j]).ts
}

/// The volumes of the minutes, added up.
pub open spec fn volume_of(minutes: Seq<BarModel>) -> int
    decreases minutes.len(),
{
    if minutes.len() == 0 {
        0
    } else {
        volume_of(minutes.drop_last()) + minutes.last().volume
    }
}

/// No sum of volumes on the way leaves its integer.
pub open spec fn addable(minutes: Seq<BarModel>) -> bool {
    forall|n: int|
        0 <= n <= minutes.len() ==> i128::MIN <= volume_of(#[trigger] minutes.take(n)) <= i128::MAX
}

/// The candle that begins with the first of the minutes and takes the others
/// in, one by one.
pub open spec fn made(symbol: Seq<char>, tf: Timeframe, at: int, minutes: Seq<BarModel>) -> RollingModel
    decreases minutes.len(),
{
    if minutes.len() <= 1 {
        started(symbol, tf, at, minutes[0])
    } else {
        merged(made(symbol, tf, at, minutes.drop_last()), minutes.last())
    }
}

/// The candle of some minutes: it opens with the first and closes with the
/// last, its high is the highest of their highs, its low the lowest of their
/// lows, and its volume the sum of theirs.
pub open spec fn sums_up(bar: BarModel, minutes: Seq<BarModel>) -> bool {
    &&& bar.open == minutes.first().open
    &&& bar.close == minutes.last().close
    &&& forall|i: int| 0 <= i < minutes.len() ==> (#[trigger] minutes[i]).high <= bar.high
    &&& exists|i: int| 0 <= i < minutes.len() && (#[trigger] minutes[i]).high == bar.high
    &&& forall|i: int| 0 <= i < minutes.len() ==> (#[trigger] minutes[i]).low >= bar.low
    &&& exists|i: int| 0 <= i < minutes.len() && (#[trigger] minutes[i]).low == bar.low
    &&& bar.volume == volume_of(minutes)
}

/// The minutes follow each other without a hole.
pub open spec fn gapless(minutes: Seq<BarModel>) -> bool {
    forall|i: int|
        0 <= i < minutes.len() ==> (#[trigger] minutes[i]).ts == minutes[0].ts + 60_000 * i
}

proof fn lemma_prefix(minutes: Seq<BarModel>)
    requires
        minutes.len() > 0,
    ensures
        successive(minutes) ==> successive(minutes.drop_last()),
        addable(minutes) ==> addable(minutes.drop_last()),
        addable(minutes) ==> i128::MIN <= volume_of(minutes) <= i128::MAX,
{
    let rest = minutes.drop_last();
    if successive(minutes) {
        assert forall|i: int, j: int| 0 <= i < j < rest.len() implies (#[trigger] rest[i]).ts < (
        #[trigger] rest[j]).ts by {
            assert(rest[i] == minutes[i] && rest[j] == minutes[j]);
        }
    }
    if addable(minutes) {
        assert forall|n: int| 0 <= n <= rest.len() implies i128::MIN <= volume_of(
            #[trigger] rest.take(n),
        ) <= i128::MAX by {
            assert(rest.take(n) =~= minutes.take(n));
        }
        assert(minutes.take(minutes.len() as int) =~= minutes);
    }
}

/// A candle is made of its minutes: it opens with the first, closes with the
/// last, reaches from their lowest low to their highest high, and holds their
/// volume; and what is known of its sources is true of them.
pub proof fn law_a_candle_sums_its_minutes_up(
    symbol: Seq<char>,
    tf: Timeframe,
    at: i64,
    minutes: Seq<BarModel>,
)
    requires
        minutes.len() > 0,
        successive(minutes),
        addable(minutes),
    ensures
        ({
            let r = made(symbol, tf, at as int, minutes);
            &&& sums_up(r.bar, minutes)
            &&& r.bar.symbol == symbol && r.bar.tf == tf && r.bar.ts == at
            &&& r.first_m1_ts == minutes.first().ts
            &&& r.last_m1_ts == minutes.last().ts
            &&& r.minute_count == minutes.len()
            &&& r.contiguous == gapless(minutes)
            &&& r.last_source == minutes.last()
        }),
    decreases minutes.len(),
{
    let r = made(symbol, tf, at as int, minutes);
    if minutes.len() == 1 {
        assert(minutes.drop_last() =~= Seq::<BarModel>::empty());
        assert(volume_of(minutes) == minutes[0].volume) by {
            reveal_with_fuel(volume_of, 2);
        }
        assert(minutes[0].high == r.bar.high && minutes[0].low == r.bar.low);
    } else {
        let rest = minutes.drop_last();
        let last = minutes.last();
        let n = rest.len() as int;
        lemma_prefix(minutes);
        law_a_candle_sums_its_minutes_up(symbol, tf, at, rest);
        let before = made(symbol, tf, at as int, rest);
        assert(rest.last() == minutes[n - 1]);
        assert(minutes[n - 1].ts < minutes[n].ts);
        assert(minutes[0] == rest[0]);
        let h = choose|i: int| 0 <= i < rest.len() && (#[trigger] rest[i]).high == before.bar.high;
        let l = choose|i: int| 0 <= i < rest.len() && (#[trigger] rest[i]).low == before.bar.low;
        assert(minutes[h] == rest[h] && minutes[l] == rest[l]);
        assert(minutes[n] == last);
        assert forall|i: int| 0 <= i < minutes.len() implies (#[trigger] minutes[i]).high
            <= r.bar.high && minutes[i].low >= r.bar.low by {
            if i < n {
                assert(minutes[i] == rest[i]);
            }
        }
        if gapless(minutes) {
            assert forall|i: int| 0 <= i < rest.len() implies (#[trigger] rest[i]).ts == rest[0].ts
                + 60_000 * i by {
                assert(rest[i] == minutes[i]);
            }
            assert(minutes[n].ts == minutes[0].ts + 60_000 * n);
            assert(rest[n - 1].ts == rest[0].ts + 60_000 * (n - 1));
        }
        if r.contiguous {
            assert forall|i: int| 0 <= i < minutes.len() implies (#[trigger] minutes[i]).ts
                == minutes[0].ts + 60_000 * i by {
                if i < n {
                    assert(minutes[i] == rest[i]);
                } else {
                    assert(rest[n - 1].ts == rest[0].ts + 60_000 * (n - 1));
                }
            }
        }
    }
}

/// An accepted report of a minute widens a candle to its extremes and no
/// further, and leaves its open; a report older than the latest minute changes
/// no price and no volume.
pub proof fn law_a_report_widens_a_candle(acc: RollingModel, m1: BarModel)
    ensures
        ({
            let r = merged(acc, m1).bar;
            &&& r.symbol == acc.bar.symbol && r.tf == acc.bar.tf && r.ts == acc.bar.ts
            &&& r.open == acc.bar.open
            &&& m1.ts < acc.last_m1_ts ==> r == acc.bar && !merged(acc, m1).contiguous
            &&& m1.ts >= acc.last_m1_ts ==> {
                &&& r.close == m1.close
                &&& r.low <= m1.low && r.low <= acc.bar.low
                &&& r.low == m1.low || r.low == acc.bar.low
                &&& r.high >= m1.high && r.high >= acc.bar.high
                &&& r.high == m1.high || r.high == acc.bar.high
            }
        }),
{
}

/// A lane after some closed minutes, one after the other.
pub open spec fn lane_after(symbol: Seq<char>, lane: LaneModel, minutes: Seq<BarModel>) -> LaneModel
    decreases minutes.len(),
{
    if minutes.len() == 0 {
        lane
    } else {
        lane_closed(symbol, lane_after(symbol, lane, minutes.drop_last()), minutes.last())
    }
}

/// Minutes of one candle that opens at `at`; only the last may end it.
pub open spec fn of_one_candle(tf: Timeframe, at: int, minutes: Seq<BarModel>) -> bool {
    &&& forall|i: int| 0 <= i < minutes.len() ==> aligned(tf, (#[trigger] minutes[i]).ts as int) == at
    &&& forall|i: int|
        0 <= i < minutes.len() - 1 ==> aligned(tf, (#[trigger] minutes[i]).ts + 60_000) == at
}

proof fn lemma_lane_after(symbol: Seq<char>, lane: LaneModel, at: i64, minutes: Seq<BarModel>)
    requires
        minutes.len() > 0,
        lane.rolling matches Some(r) ==> r.bar.ts != at,
        of_one_candle(lane.tf, at as int, minutes),
    ensures
        lane_after(symbol, lane, minutes.drop_last()).tf == lane.tf,
        current_after(
            symbol,
            lane_after(symbol, lane, minutes.drop_last()),
            minutes.last(),
        ) == made(symbol, lane.tf, at as int, minutes),
        made(symbol, lane.tf, at as int, minutes).bar.ts == at,
    decreases minutes.len(),
{
    let rest = minutes.drop_last();
    let n = rest.len() as int;
    assert(minutes[n] == minutes.last());
    assert(aligned(lane.tf, minutes[n].ts as int) == at);
    if n > 0 {
        assert forall|i: int| 0 <= i < rest.len() implies aligned(
            lane.tf,
            (#[trigger] rest[i]).ts as int,
        ) == at by {
            assert(rest[i] == minutes[i]);
        }
        assert forall|i: int| 0 <= i < rest.len() - 1 implies aligned(
            lane.tf,
            (#[trigger] rest[i]).ts + 60_000,
        ) == at by {
            assert(rest[i] == minutes[i]);
        }
        lemma_lane_after(symbol, lane, at, rest);
        let before = lane_after(symbol, lane, rest.drop_last());
        assert(minutes[n - 1] == rest.last());
        assert(aligned(lane.tf, minutes[n - 1].ts + 60_000) == at);
        assert(aligned(lane.tf, minutes[n - 1].ts as int) == at);
        assert(!ends_candle(before, rest.last()));
    }
}

/// A timeframe turns the closed minutes of one candle into that candle: while
/// it is open it sums up the minutes so far, and the minute that ends it closes
/// exactly the candle that sums up all of them, where it may be published.
pub proof fn law_minutes_become_their_candle(
    symbol: Seq<char>,
    lane: LaneModel,
    at: i64,
    minutes: Seq<BarModel>,
)
    requires
        minutes.len() > 0,
        successive(minutes),
        addable(minutes),
        lane.rolling matches Some(r) ==> r.bar.ts != at,
        of_one_candle(lane.tf, at as int, minutes),
    ensures
        ({
            let before = lane_after(symbol, lane, minutes.drop_last());
            let after = lane_after(symbol, lane, minutes);
            let next = aligned(lane.tf, minutes.last().ts + 60_000);
            let now = made(symbol, lane.tf, at as int, minutes);
            let events = lane_events(symbol, before, minutes.last());
            &&& next == at ==> {
                &&& after.rolling == Some(now)
                &&& sums_up(after.rolling->0.bar, minutes)
                &&& events.last() == BarEventModel::BarUpdate(now.bar)
            }
            &&& next != at && publishable(symbol, lane.tf, now, next) ==> {
                &&& after.rolling is None
                &&& after.history.len() > 0
                &&& sums_up(after.history.last(), minutes)
                &&& after.history.last().ts == at && after.history.last().tf == lane.tf
                &&& after.history.last().symbol == symbol
                &&& events.last() == BarEventModel::BarClosed(after.history.last())
            }
            &&& next != at && !publishable(symbol, lane.tf, now, next) ==> after.rolling is None
            &&& after.preview is None
        }),
{
    lemma_lane_after(symbol, lane, at, minutes);
    law_a_candle_sums_its_minutes_up(symbol, lane.tf, at, minutes);
    let before = lane_after(symbol, lane, minutes.drop_last());
    let m1 = minutes.last();
    assert(minutes[minutes.len() - 1] == m1);
    assert(aligned(lane.tf, m1.ts as int) == at);
    let now = made(symbol, lane.tf, at as int, minutes);
    let done = finished(symbol, before, m1);
    let next = aligned(lane.tf, m1.ts + 60_000);
    if next != at && publishable(symbol, lane.tf, now, next) {
        assert(done.last() == now.bar);
        let had = ring_extended(before.history, done.drop_last());
        lemma_ring_last(had, now.bar);
        let events = lane_events(symbol, before, m1);
        assert(events.len() == done.len());
        assert(events[events.len() - 1] == BarEventModel::BarClosed(done[done.len() - 1]));
    }
}

proof fn lemma_ring_last(history: Seq<BarModel>, bar: BarModel)
    ensures
        ring_pushed(history, bar).len() > 0,
        ring_pushed(history, bar).last() == bar,
        ring_pushed(history, bar).len() <= HISTORY_RING_SIZE,
        history.len() < HISTORY_RING_SIZE ==> ring_pushed(history, bar) == history.push(bar),
        history.len() == HISTORY_RING_SIZE ==> ring_pushed(history, bar)
            == history.drop_first().push(bar),
{
    let all = history.push(bar);
    if all.len() > HISTORY_RING_SIZE {
        let k = all.len() - HISTORY_RING_SIZE;
        assert(all.skip(k).last() == bar);
        if history.len() == HISTORY_RING_SIZE {
            assert(all.skip(1) =~= history.drop_first().push(bar));
        }
    }
}

/// Fifteen hundred closed candles are kept; beyond that each new one drops the
/// oldest.
pub proof fn law_the_oldest_candle_makes_room(history: Seq<BarModel>, bar: BarModel)
    requires
        history.len() <= 1500,
    ensures
        ring_pushed(history, bar).last() == bar,
        history.len() < 1500 ==> ring_pushed(history, bar) == history.push(bar),
        history.len() == 1500 ==> ring_pushed(history, bar) == history.drop_first().push(bar),
{
    lemma_ring_last(history, bar);
}

/// From five minutes to four hours a candle is published only where its minutes
/// are those that the market was expected to have, without a hole and from
/// first to last; longer candles are always published.
pub proof fn law_published_candles_have_every_minute(
    symbol: Seq<char>,
    tf: Timeframe,
    at: i64,
    minutes: Seq<BarModel>,
    next: int,
)
    requires
        minutes.len() > 0,
        successive(minutes),
        addable(minutes),
    ensures
        ({
            let wanted = expected_opens(symbol, Timeframe::M1, at as int, next);
            let short = tf is M5 || tf is M15 || tf is M30 || tf is H1 || tf is H4;
            let whole = wanted.len() == minutes.len() && wanted.first() == minutes.first().ts
                && wanted.last() == minutes.last().ts && gapless(minutes);
            publishable(symbol, tf, made(symbol, tf, at as int, minutes), next) == (short ==> whole)
        }),
{
    law_a_candle_sums_its_minutes_up(symbol, tf, at, minutes);
}

/// A quote of a new minute shows the candle as if the minute had closed: with
/// its close, and widened to its extremes; on its own where it begins a candle.
pub proof fn law_a_preview_shows_the_open_minute(symbol: Seq<char>, lane: LaneModel, m1: BarModel)
    requires
        i64::MIN <= aligned(lane.tf, m1.ts as int) <= i64::MAX,
        lane.rolling matches Some(r) ==> r.last_m1_ts < m1.ts && i128::MIN <= r.bar.volume
            + m1.volume <= i128::MAX,
    ensures
        ({
            let at = aligned(lane.tf, m1.ts as int);
            let shown = previewed(symbol, lane, m1);
            let goes_on = lane.rolling is Some && lane.rolling->0.bar.ts == at;
            let had = lane.rolling->0.bar;
            &&& shown.close == m1.close
            &&& shown.low <= m1.low && shown.high >= m1.high
            &&& goes_on ==> shown.open == had.open && shown.volume == had.volume + m1.volume
                && shown.ts == had.ts && shown.low <= had.low && shown.high >= had.high && (
            shown.low == m1.low || shown.low == had.low) && (shown.high == m1.high || shown.high
                == had.high)
            &&& !goes_on ==> shown.open == m1.open && shown.high == m1.high && shown.low == m1.low
                && shown.volume == m1.volume && shown.ts == at && shown.tf == lane.tf
                && shown.symbol == symbol
        }),
{
}

proof fn lemma_lanes_events(s: AggregatorModel, m1: BarModel, n: nat, k: int, e: BarEventModel)
    requires
        0 <= k < n <= s.lanes.len(),
        lane_events(s.symbol, s.lanes[k], m1).contains(e),
    ensures
        lanes_events(s, m1, n).contains(e),
    decreases n,
{
    let before = lanes_events(s, m1, (n - 1) as nat);
    let now = lane_events(s.symbol, s.lanes[n - 1], m1);
    if k < n - 1 {
        lemma_lanes_events(s, m1, (n - 1) as nat, k, e);
        let p = choose|p: int| 0 <= p < before.len() && before[p] == e;
        assert((before + now)[p] == e);
    } else {
        let p = choose|p: int| 0 <= p < now.len() && now[p] == e;
        assert((before + now)[before.len() + p] == e);
    }
}

/// A closed minute that is newer than every closed one reaches each timeframe
/// by itself, and what it does there is passed on; an older one does nothing.
pub proof fn law_a_closed_minute_reaches_every_timeframe(
    s: AggregatorModel,
    m1: BarModel,
    k: int,
    e: BarEventModel,
)
    requires
        0 <= k < s.lanes.len(),
    ensures
        ({
            let fresh = s.last_closed_m1_ts is None || s.last_closed_m1_ts->0 < m1.ts;
            let after = minute_closed(s, m1);
            &&& fresh ==> {
                &&& after.last_closed_m1_ts == Some(m1.ts)
                &&& after.lanes[k].rolling == lane_closed(s.symbol, s.lanes[k], m1).rolling
                &&& after.lanes[k].history == lane_closed(s.symbol, s.lanes[k], m1).history
                &&& lane_events(s.symbol, s.lanes[k], m1).contains(e) ==> close_events(
                    s,
                    m1,
                ).contains(e)
            }
            &&& !fresh ==> after == s && close_events(s, m1).len() == 0
        }),
{
    if !minute_is_settled(s, m1) && lane_events(s.symbol, s.lanes[k], m1).contains(e) {
        lemma_lanes_events(s, m1, s.lanes.len(), k, e);
        let all = lanes_events(s, m1, s.lanes.len());
        let p = choose|p: int| 0 <= p < all.len() && all[p] == e;
        assert(close_events(s, m1)[p] == e);
    }
}

/// A quote is shown on every timeframe unless its minute was closed or a later
/// minute quoted before.
pub proof fn law_a_quote_is_shown_on_every_timeframe(s: AggregatorModel, m1: BarModel, k: int)
    requires
        0 <= k < s.lanes.len(),
    ensures
        ({
            let late = (s.last_closed_m1_ts is Some && m1.ts <= s.last_closed_m1_ts->0) || (
            s.latest_preview is Some && m1.ts < s.latest_preview->0.ts);
            &&& late ==> quoted(s, m1) == s && quote_events(s, m1).len() == 0
            &&& !late ==> {
                &&& quoted(s, m1).lanes[k].preview == Some(previewed(s.symbol, s.lanes[k], m1))
                &&& quote_events(s, m1).len() == s.lanes.len()
                &&& quote_events(s, m1)[k] == BarEventModel::BarUpdate(
                    previewed(s.symbol, s.lanes[k], m1),
                )
                &&& quoted(s, m1).latest_preview == Some(m1)
            }
        }),
{
}

} // verus!
