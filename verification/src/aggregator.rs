//! Multi-timeframe aggregation of one-minute candles.
//!
//! One-minute events go in, candles of every higher timeframe come out. The
//! authoritative state is built from closed minutes only; quotes of the open
//! minute are shown as previews on top of it.
use vstd::prelude::*;
use crate::aggregator_laws::{
    all_well_shaped, batch_read, close_read, closes_timely, event_read, in_order,
    law_candles_have_their_shape, law_events_keep_the_order, opens_on_boundaries, opens_well,
    quote_read, timely,
};
use crate::calendar::{
    aligned, expected_market_bar_opens, expected_opens, next_boundary, next_window_boundary,
    on_clock, surveyed, CLOCK_MARGIN_MS, DAY_MS,
};
use crate::h4::ascending;
use crate::types::{
    copy_bars, higher_timeframes, within, Bar, BarEvent, BarEventModel, BarModel, Timeframe,
    MINUTE_VOLUME_LIMIT,
};

verus! {

/// How many closed candles are kept per timeframe.
pub const HISTORY_RING_SIZE: usize = 1500;

/// A timestamp whose candle boundaries, and the ones after them, are on the
/// clock.
pub open spec fn far_from_limits(ts: int) -> bool {
    on_clock(ts - CLOCK_MARGIN_MS) && on_clock(ts + CLOCK_MARGIN_MS)
}

/// A minute whose boundaries are on the clock and whose volume can be added up.
pub open spec fn takeable(bar: BarModel) -> bool {
    far_from_limits(bar.ts as int) && within(bar.volume as int, MINUTE_VOLUME_LIMIT as int)
}

/// A candle under construction with what is known of its source minutes.
pub struct RollingBar {
    bar: Bar,
    first_m1_ts: i64,
    last_m1_ts: i64,
    minute_count: u64,
    contiguous: bool,
    last_source: Bar,
}

/// Mathematical content of a [`RollingBar`].
pub struct RollingModel {
    pub bar: BarModel,
    pub first_m1_ts: i64,
    pub last_m1_ts: i64,
    pub minute_count: int,
    pub contiguous: bool,
    pub last_source: BarModel,
}

impl View for RollingBar {
    type V = RollingModel;

    closed spec fn view(&self) -> RollingModel {
        RollingModel {
            bar: self.bar@,
            first_m1_ts: self.first_m1_ts,
            last_m1_ts: self.last_m1_ts,
            minute_count: self.minute_count as int,
            contiguous: self.contiguous,
            last_source: self.last_source@,
        }
    }
}

impl RollingModel {
    /// Source minutes came in order and lie in one candle, so there are at most as
    /// many of them as milliseconds between the first and the last, and the volume is
    /// at most as large as that many minutes can make it.
    pub open spec fn wf(self) -> bool {
        &&& far_from_limits(self.first_m1_ts as int)
        &&& far_from_limits(self.last_m1_ts as int)
        &&& on_clock(self.bar.ts as int)
        &&& on_clock(self.bar.ts + CLOCK_MARGIN_MS)
        &&& 1 <= self.minute_count <= self.last_m1_ts - self.first_m1_ts + 1
        &&& self.bar.ts <= self.first_m1_ts
        &&& self.last_m1_ts <= self.bar.ts + 33 * DAY_MS
        &&& within(self.last_source.volume as int, MINUTE_VOLUME_LIMIT as int)
        &&& within(
            self.bar.volume - self.last_source.volume,
            (self.minute_count - 1) * MINUTE_VOLUME_LIMIT,
        )
    }
}

/// A candle that has just begun with its first minute.
pub open spec fn started(symbol: Seq<char>, tf: Timeframe, ts: int, src: BarModel) -> RollingModel {
    RollingModel {
        bar: BarModel { symbol, tf, ts: ts as i64, ..src },
        first_m1_ts: src.ts,
        last_m1_ts: src.ts,
        minute_count: 1,
        contiguous: true,
        last_source: src,
    }
}

/// A candle after one more report of a minute. A report of the latest minute
/// replaces that minute's volume; an older one only breaks contiguity.
pub open spec fn merged(acc: RollingModel, m1: BarModel) -> RollingModel {
    if m1.ts < acc.last_m1_ts {
        RollingModel { contiguous: false, ..acc }
    } else {
        let repeated = m1.ts == acc.last_m1_ts;
        let replaced: int = if repeated { acc.last_source.volume as int } else { 0 };
        RollingModel {
            bar: BarModel {
                high: if m1.high > acc.bar.high { m1.high } else { acc.bar.high },
                low: if m1.low < acc.bar.low { m1.low } else { acc.bar.low },
                close: m1.close,
                volume: (acc.bar.volume + m1.volume - replaced) as i128,
                ..acc.bar
            },
            last_m1_ts: m1.ts,
            minute_count: if repeated { acc.minute_count } else { acc.minute_count + 1 },
            contiguous: acc.contiguous && (repeated || m1.ts == acc.last_m1_ts + 60_000),
            last_source: m1,
            ..acc
        }
    }
}

/// Whether a timeframe is published only when every expected minute was seen.
pub open spec fn needs_every_minute(tf: Timeframe) -> bool {
    tf is M5 || tf is M15 || tf is M30 || tf is H1 || tf is H4
}

/// Whether a finished candle may be published.
pub open spec fn publishable(symbol: Seq<char>, tf: Timeframe, r: RollingModel, next: int) -> bool {
    let minutes = expected_opens(symbol, Timeframe::M1, r.bar.ts as int, next);
    needs_every_minute(tf) ==> {
        &&& minutes.len() > 0
        &&& r.contiguous
        &&& r.first_m1_ts == minutes.first()
        &&& r.last_m1_ts == minutes.last()
        &&& r.minute_count == minutes.len()
    }
}

/// Closed candles after one more, with the oldest dropped beyond the limit.
pub open spec fn ring_pushed(history: Seq<BarModel>, bar: BarModel) -> Seq<BarModel> {
    let all = history.push(bar);
    if all.len() > HISTORY_RING_SIZE {
        all.skip(all.len() - HISTORY_RING_SIZE)
    } else {
        all
    }
}

fn new_rolling_at(symbol: &str, tf: Timeframe, aligned_ts: i64, src: &Bar) -> (r: RollingBar)
    ensures
        r@ == started(symbol@, tf, aligned_ts as int, src@),
{
    RollingBar {
        bar: Bar {
            symbol: crate::text::owned(symbol),
            tf,
            ts: aligned_ts,
            open: src.open,
            high: src.high,
            low: src.low,
            close: src.close,
            volume: src.volume,
        },
        first_m1_ts: src.ts,
        last_m1_ts: src.ts,
        minute_count: 1,
        contiguous: true,
        last_source: src.clone(),
    }
}

fn merge_source(acc: &mut RollingBar, m1: &Bar)
    requires
        old(acc)@.wf(),
        takeable(m1@),
        m1.ts <= old(acc)@.bar.ts + 33 * DAY_MS,
    ensures
        final(acc)@ == merged(old(acc)@, m1@),
        final(acc)@.wf(),
{
    if m1.ts < acc.last_m1_ts {
        acc.contiguous = false;
        return;
    }
    let mut volume: i128 = acc.bar.volume + m1.volume;
    if m1.ts == acc.last_m1_ts {
        volume = volume - acc.last_source.volume;
    } else {
        if m1.ts != acc.last_m1_ts + 60_000 {
            acc.contiguous = false;
        }
        acc.minute_count = acc.minute_count + 1;
    }
    acc.bar.volume = volume;
    if m1.high > acc.bar.high {
        acc.bar.high = m1.high;
    }
    if m1.low < acc.bar.low {
        acc.bar.low = m1.low;
    }
    acc.bar.close = m1.close;
    acc.last_m1_ts = m1.ts;
    acc.last_source = m1.clone();
}

fn requires_complete_minutes(tf: Timeframe) -> (r: bool)
    ensures
        r == needs_every_minute(tf),
{
    matches!(
        tf,
        Timeframe::M5 | Timeframe::M15 | Timeframe::M30 | Timeframe::H1 | Timeframe::H4
    )
}

fn window_is_publishable(symbol: &str, tf: Timeframe, rolling: &RollingBar, next_window: i64) -> (r:
    bool)
    requires
        next_window - rolling@.bar.ts <= i64::MAX,
    ensures
        r == publishable(symbol@, tf, rolling@, next_window as int),
{
    if !requires_complete_minutes(tf) {
        return true;
    }
    let minutes = expected_market_bar_opens(symbol, Timeframe::M1, rolling.bar.ts, next_window);
    if minutes.len() == 0 {
        return false;
    }
    rolling.contiguous && rolling.first_m1_ts == minutes[0] && rolling.last_m1_ts == minutes[minutes.len()
        - 1] && rolling.minute_count == minutes.len() as u64
}

/// State of one timeframe.
pub struct Lane {
    tf: Timeframe,
    rolling: Option<RollingBar>,
    preview: Option<Bar>,
    history: Vec<Bar>,
}

/// Mathematical content of a [`Lane`].
pub struct LaneModel {
    pub tf: Timeframe,
    /// The candle built from closed minutes.
    pub rolling: Option<RollingModel>,
    /// The candle as the open minute shows it.
    pub preview: Option<BarModel>,
    /// Closed candles, oldest first.
    pub history: Seq<BarModel>,
}

impl View for Lane {
    type V = LaneModel;

    closed spec fn view(&self) -> LaneModel {
        LaneModel {
            tf: self.tf,
            rolling: match self.rolling {
                Some(r) => Some(r@),
                None => None,
            },
            preview: self.preview.deep_view(),
            history: self.history.deep_view(),
        }
    }
}

impl DeepView for Lane {
    type V = LaneModel;

    open spec fn deep_view(&self) -> LaneModel {
        self@
    }
}

/// A candle of the instrument and the timeframe.
pub open spec fn candle_of(bar: BarModel, symbol: Seq<char>, tf: Timeframe) -> bool {
    bar.symbol == symbol && bar.tf == tf
}

impl LaneModel {
    /// Every candle of the lane is one of the instrument and of the lane's
    /// timeframe, and no more closed ones are kept than the ring holds.
    pub open spec fn wf(self, symbol: Seq<char>) -> bool {
        &&& self.rolling matches Some(r) ==> r.wf() && candle_of(r.bar, symbol, self.tf)
        &&& self.preview matches Some(b) ==> candle_of(b, symbol, self.tf)
        &&& self.history.len() <= HISTORY_RING_SIZE
        &&& forall|i: int|
            0 <= i < self.history.len() ==> candle_of(#[trigger] self.history[i], symbol, self.tf)
    }
}

/// The candle that the open minute `m1` shows on a lane.
pub open spec fn previewed(symbol: Seq<char>, lane: LaneModel, m1: BarModel) -> BarModel {
    let at = aligned(lane.tf, m1.ts as int);
    let base = match lane.rolling {
        Some(r) => if r.bar.ts == at {
            r
        } else {
            started(symbol, lane.tf, at, m1)
        },
        None => started(symbol, lane.tf, at, m1),
    };
    merged(base, m1).bar
}

/// Candles that a closed minute `m1` finishes on a lane: a stale earlier
/// candle, and the current one where `m1` is its last minute. Only publishable
/// ones are in the list.
pub open spec fn finished(symbol: Seq<char>, lane: LaneModel, m1: BarModel) -> Seq<BarModel> {
    let stale = match lane.rolling {
        Some(r) => if r.bar.ts != aligned(lane.tf, m1.ts as int) && publishable(
            symbol,
            lane.tf,
            r,
            next_boundary(lane.tf, r.bar.ts as int),
        ) {
            seq![r.bar]
        } else {
            Seq::empty()
        },
        None => Seq::empty(),
    };
    let next = aligned(lane.tf, m1.ts + 60_000);
    let now = current_after(symbol, lane, m1);
    if next != aligned(lane.tf, m1.ts as int) && publishable(symbol, lane.tf, now, next) {
        stale.push(now.bar)
    } else {
        stale
    }
}

/// The candle that holds `m1` once `m1` is merged into it.
pub open spec fn current_after(symbol: Seq<char>, lane: LaneModel, m1: BarModel) -> RollingModel {
    let at = aligned(lane.tf, m1.ts as int);
    match lane.rolling {
        Some(r) => if r.bar.ts == at {
            merged(r, m1)
        } else {
            started(symbol, lane.tf, at, m1)
        },
        None => started(symbol, lane.tf, at, m1),
    }
}

/// Whether `m1` is the last minute of its candle on the lane.
pub open spec fn ends_candle(lane: LaneModel, m1: BarModel) -> bool {
    aligned(lane.tf, m1.ts + 60_000) != aligned(lane.tf, m1.ts as int)
}

/// Closed candles after all of `bars`.
pub open spec fn ring_extended(history: Seq<BarModel>, bars: Seq<BarModel>) -> Seq<BarModel>
    decreases bars.len(),
{
    if bars.len() == 0 {
        history
    } else {
        ring_pushed(ring_extended(history, bars.drop_last()), bars.last())
    }
}

/// A lane after the closed minute `m1`.
pub open spec fn lane_closed(symbol: Seq<char>, lane: LaneModel, m1: BarModel) -> LaneModel {
    LaneModel {
        tf: lane.tf,
        rolling: if ends_candle(lane, m1) {
            None
        } else {
            Some(current_after(symbol, lane, m1))
        },
        preview: None,
        history: ring_extended(lane.history, finished(symbol, lane, m1)),
    }
}

/// What a lane says about the closed minute `m1`.
pub open spec fn lane_events(symbol: Seq<char>, lane: LaneModel, m1: BarModel) -> Seq<BarEventModel> {
    let closed = finished(symbol, lane, m1).map_values(|b: BarModel| BarEventModel::BarClosed(b));
    if ends_candle(lane, m1) {
        closed
    } else {
        closed.push(BarEventModel::BarUpdate(current_after(symbol, lane, m1).bar))
    }
}

impl Lane {
    fn push_history(&mut self, bar: Bar)
        requires
            old(self)@.history.len() <= HISTORY_RING_SIZE,
        ensures
            final(self)@ == (LaneModel {
                history: ring_pushed(old(self)@.history, bar@),
                ..old(self)@
            }),
            final(self)@.history.len() <= HISTORY_RING_SIZE,
    {
        self.history.push(bar);
        if self.history.len() > HISTORY_RING_SIZE {
            let _ = self.history.remove(0);
        }
        assert(self.history.deep_view() =~= ring_pushed(old(self)@.history, bar@));
    }

    fn close(&mut self, symbol: &str, m1: &Bar, out: &mut Vec<BarEvent>)
        requires
            old(self)@.wf(symbol@),
            takeable(m1@),
        ensures
            final(self)@ == lane_closed(symbol@, old(self)@, m1@),
            final(self)@.wf(symbol@),
            final(out).deep_view() == old(out).deep_view() + lane_events(symbol@, old(self)@, m1@),
            surveyed(old(self)@.tf, m1.ts as int),
            surveyed(old(self)@.tf, m1.ts + 60_000),
    {
        let tf: Timeframe = self.tf;
        let ghost lane0 = self@;
        let ghost out0 = out.deep_view();
        let ghost history0 = self@.history;
        let ghost mut stale: Seq<BarModel> = Seq::empty();
        let cur_window: i64 = tf.boundary_align(m1.ts);
        let next_window: i64 = tf.boundary_align(m1.ts + 60_000);
        self.preview = None;
        let previous = self.rolling.take();
        let current = match previous {
            Some(prev) => {
                if prev.bar.ts == cur_window {
                    let mut acc = prev;
                    merge_source(&mut acc, m1);
                    acc
                } else {
                    let end: i64 = next_window_boundary(tf, prev.bar.ts);
                    if window_is_publishable(symbol, tf, &prev, end) {
                        self.push_history(prev.bar.clone());
                        proof {
                            stale = seq![prev@.bar];
                            assert(stale.drop_last() =~= Seq::<BarModel>::empty());
                        }
                        out.push(BarEvent::BarClosed(prev.bar));
                    }
                    new_rolling_at(symbol, tf, cur_window, m1)
                }
            },
            None => new_rolling_at(symbol, tf, cur_window, m1),
        };
        assert(self@.history == ring_extended(history0, stale)) by {
            reveal_with_fuel(ring_extended, 3);
        }
        assert(current@ == current_after(symbol@, lane0, m1@));
        assert(out.deep_view() =~= out0 + stale.map_values(
            |b: BarModel| BarEventModel::BarClosed(b),
        ));
        if next_window != cur_window {
            if window_is_publishable(symbol, tf, &current, next_window) {
                self.push_history(current.bar.clone());
                proof {
                    assert(stale.push(current@.bar).drop_last() =~= stale);
                }
                out.push(BarEvent::BarClosed(current.bar));
            }
        } else {
            out.push(BarEvent::BarUpdate(current.bar.clone()));
            self.rolling = Some(current);
        }
        assert(out.deep_view() =~= out0 + lane_events(symbol@, lane0, m1@));
    }

    fn show(&mut self, symbol: &str, m1: &Bar) -> (r: BarEvent)
        requires
            old(self)@.wf(symbol@),
            takeable(m1@),
        ensures
            final(self)@ == (LaneModel {
                preview: Some(previewed(symbol@, old(self)@, m1@)),
                ..old(self)@
            }),
            final(self)@.wf(symbol@),
            r@ == BarEventModel::BarUpdate(previewed(symbol@, old(self)@, m1@)),
            surveyed(old(self)@.tf, m1.ts as int),
    {
        let at: i64 = self.tf.boundary_align(m1.ts);
        let mut preview = match &self.rolling {
            Some(r) => if r.bar.ts == at {
                r.copy()
            } else {
                new_rolling_at(symbol, self.tf, at, m1)
            },
            None => new_rolling_at(symbol, self.tf, at, m1),
        };
        merge_source(&mut preview, m1);
        self.preview = Some(preview.bar.clone());
        BarEvent::BarUpdate(preview.bar)
    }
}

impl RollingBar {
    fn copy(&self) -> (r: Self)
        ensures
            r@ == self@,
    {
        RollingBar {
            bar: self.bar.clone(),
            first_m1_ts: self.first_m1_ts,
            last_m1_ts: self.last_m1_ts,
            minute_count: self.minute_count,
            contiguous: self.contiguous,
            last_source: self.last_source.clone(),
        }
    }
}

/// One instrument's candles on every timeframe above one minute.
pub struct SymbolAggregator {
    symbol: String,
    lanes: Vec<Lane>,
    latest_preview: Option<Bar>,
    last_closed_m1_ts: Option<i64>,
}

/// Mathematical content of a [`SymbolAggregator`].
pub struct AggregatorModel {
    pub symbol: Seq<char>,
    /// One lane per higher timeframe, shortest first.
    pub lanes: Seq<LaneModel>,
    /// The newest quote of a minute that has not closed.
    pub latest_preview: Option<BarModel>,
    pub last_closed_m1_ts: Option<i64>,
}

impl View for SymbolAggregator {
    type V = AggregatorModel;

    closed spec fn view(&self) -> AggregatorModel {
        AggregatorModel {
            symbol: self.symbol@,
            lanes: self.lanes.deep_view(),
            latest_preview: self.latest_preview.deep_view(),
            last_closed_m1_ts: self.last_closed_m1_ts,
        }
    }
}

impl AggregatorModel {
    pub open spec fn wf(self) -> bool {
        &&& self.lanes.len() == higher_timeframes().len()
        &&& forall|i: int|
            0 <= i < self.lanes.len() ==> (#[trigger] self.lanes[i]).tf == higher_timeframes()[i]
                && self.lanes[i].wf(self.symbol)
        &&& self.latest_preview matches Some(b) ==> takeable(b)
    }

    /// The lane of a timeframe; one minute has none.
    pub open spec fn lane(self, tf: Timeframe) -> Option<LaneModel> {
        match tf {
            Timeframe::M1 => None,
            Timeframe::M5 => Some(self.lanes[0]),
            Timeframe::M15 => Some(self.lanes[1]),
            Timeframe::M30 => Some(self.lanes[2]),
            Timeframe::H1 => Some(self.lanes[3]),
            Timeframe::H4 => Some(self.lanes[4]),
            Timeframe::D1 => Some(self.lanes[5]),
            Timeframe::W1 => Some(self.lanes[6]),
            Timeframe::MN1 => Some(self.lanes[7]),
        }
    }
}

/// The state before any event.
pub open spec fn fresh(symbol: Seq<char>) -> AggregatorModel {
    AggregatorModel {
        symbol,
        lanes: higher_timeframes().map_values(
            |tf: Timeframe|
                LaneModel { tf, rolling: None, preview: None, history: Seq::empty() },
        ),
        latest_preview: None,
        last_closed_m1_ts: None,
    }
}

/// A quote is out of date when its minute has closed or a later minute was
/// already quoted.
pub open spec fn quote_is_stale(s: AggregatorModel, m1: BarModel) -> bool {
    (s.last_closed_m1_ts matches Some(ts) && m1.ts <= ts) || (s.latest_preview matches Some(b)
        && m1.ts < b.ts)
}

/// State after a quote of the open minute.
pub open spec fn quoted(s: AggregatorModel, m1: BarModel) -> AggregatorModel {
    if quote_is_stale(s, m1) {
        s
    } else {
        AggregatorModel {
            latest_preview: Some(m1),
            lanes: s.lanes.map_values(
                |l: LaneModel| LaneModel { preview: Some(previewed(s.symbol, l, m1)), ..l },
            ),
            ..s
        }
    }
}

/// Events for a quote of the open minute.
pub open spec fn quote_events(s: AggregatorModel, m1: BarModel) -> Seq<BarEventModel> {
    if quote_is_stale(s, m1) {
        Seq::empty()
    } else {
        s.lanes.map_values(
            |l: LaneModel| BarEventModel::BarUpdate(previewed(s.symbol, l, m1)),
        )
    }
}

/// A minute is settled once it or a later one was closed.
pub open spec fn minute_is_settled(s: AggregatorModel, m1: BarModel) -> bool {
    s.last_closed_m1_ts matches Some(ts) && m1.ts <= ts
}

/// State after a closed minute, before a newer quote is shown again.
pub open spec fn minute_folded(s: AggregatorModel, m1: BarModel) -> AggregatorModel {
    AggregatorModel {
        last_closed_m1_ts: Some(m1.ts),
        latest_preview: match s.latest_preview {
            Some(b) => if b.ts <= m1.ts {
                None
            } else {
                Some(b)
            },
            None => None,
        },
        lanes: s.lanes.map_values(|l: LaneModel| lane_closed(s.symbol, l, m1)),
        ..s
    }
}

/// Events of the first `n` lanes for a closed minute.
pub open spec fn lanes_events(s: AggregatorModel, m1: BarModel, n: nat) -> Seq<BarEventModel>
    decreases n,
{
    if n == 0 {
        Seq::empty()
    } else {
        lanes_events(s, m1, (n - 1) as nat) + lane_events(s.symbol, s.lanes[n - 1], m1)
    }
}

/// State after a closed minute.
pub open spec fn minute_closed(s: AggregatorModel, m1: BarModel) -> AggregatorModel {
    if minute_is_settled(s, m1) {
        s
    } else {
        let folded = minute_folded(s, m1);
        match folded.latest_preview {
            Some(b) => quoted(folded, b),
            None => folded,
        }
    }
}

/// Events for a closed minute: each lane in turn, then the quotes of a newer
/// open minute.
pub open spec fn close_events(s: AggregatorModel, m1: BarModel) -> Seq<BarEventModel> {
    if minute_is_settled(s, m1) {
        Seq::empty()
    } else {
        let folded = minute_folded(s, m1);
        lanes_events(s, m1, s.lanes.len()) + match folded.latest_preview {
            Some(b) => quote_events(folded, b),
            None => Seq::empty(),
        }
    }
}

/// State after a batch of closed minutes.
pub open spec fn batch_closed(s: AggregatorModel, bars: Seq<BarModel>) -> AggregatorModel
    decreases bars.len(),
{
    if bars.len() == 0 {
        s
    } else {
        minute_closed(batch_closed(s, bars.drop_last()), bars.last())
    }
}

/// State after a one-minute event.
pub open spec fn stepped(s: AggregatorModel, evt: BarEventModel) -> AggregatorModel {
    match evt {
        BarEventModel::Historical(bars) => batch_closed(s, bars),
        BarEventModel::BarUpdate(bar) => quoted(s, bar),
        BarEventModel::BarClosed(bar) => minute_closed(s, bar),
    }
}

/// Higher-timeframe events for a one-minute event. A batch of history warms
/// the state up silently.
pub open spec fn step_events(s: AggregatorModel, evt: BarEventModel) -> Seq<BarEventModel> {
    match evt {
        BarEventModel::Historical(bars) => Seq::empty(),
        BarEventModel::BarUpdate(bar) => quote_events(s, bar),
        BarEventModel::BarClosed(bar) => close_events(s, bar),
    }
}

/// A one-minute candle that the aggregator can take.
pub open spec fn acceptable_minute(bar: BarModel) -> bool {
    bar.tf is M1 && takeable(bar)
}

/// An event whose candles are all acceptable.
pub open spec fn acceptable(evt: BarEventModel) -> bool {
    match evt {
        BarEventModel::Historical(bars) => forall|i: int|
            0 <= i < bars.len() ==> acceptable_minute(#[trigger] bars[i]),
        BarEventModel::BarUpdate(bar) => acceptable_minute(bar),
        BarEventModel::BarClosed(bar) => acceptable_minute(bar),
    }
}

/// The open candle of a timeframe: the preview where there is one, else the
/// candle built from closed minutes.
pub open spec fn open_candle(a: AggregatorModel, tf: Timeframe) -> Option<BarModel> {
    match a.lane(tf) {
        Some(lane) => match lane.preview {
            Some(b) => Some(b),
            None => match lane.rolling {
                Some(rolling) => Some(rolling.bar),
                None => None,
            },
        },
        None => None,
    }
}

impl SymbolAggregator {
    /// An aggregator that has seen nothing.
    pub fn new(symbol: &str) -> (r: Self)
        ensures
            r@ == fresh(symbol@),
            r@.wf(),
            opens_on_boundaries(r@),
            forall|n: int| 0 <= n < higher_timeframes().len() ==> #[trigger] in_order(r@, n),
    {
        let tfs = Timeframe::higher_than_m1();
        let mut lanes: Vec<Lane> = Vec::new();
        let mut i: usize = 0;
        while i < tfs.len()
            invariant
                i <= tfs.len(),
                tfs@ == higher_timeframes(),
                lanes.len() == i,
                forall|k: int|
                    0 <= k < i ==> (#[trigger] lanes@[k])@ == (LaneModel {
                        tf: tfs@[k],
                        rolling: None,
                        preview: None,
                        history: Seq::empty(),
                    }),
            decreases tfs.len() - i,
        {
            let lane = Lane { tf: tfs[i], rolling: None, preview: None, history: Vec::new() };
            assert(lane@.history =~= Seq::<BarModel>::empty());
            lanes.push(lane);
            i += 1;
        }
        let r = SymbolAggregator {
            symbol: crate::text::owned(symbol),
            lanes,
            latest_preview: None,
            last_closed_m1_ts: None,
        };
        assert(r@.lanes =~= fresh(symbol@).lanes);
        r
    }

    /// The instrument.
    pub fn symbol(&self) -> (r: &str)
        ensures
            r@ == self@.symbol,
    {
        self.symbol.as_str()
    }

    fn lane_index(&self, tf: Timeframe) -> (r: Option<usize>)
        requires
            self@.wf(),
        ensures
            r is None <==> self@.lane(tf) is None,
            r matches Some(i) ==> i < self.lanes.len() && Some(self.lanes@[i as int]@)
                == self@.lane(tf),
    {
        assert(self.lanes.deep_view().len() == 8);
        match tf {
            Timeframe::M1 => None,
            Timeframe::M5 => Some(0),
            Timeframe::M15 => Some(1),
            Timeframe::M30 => Some(2),
            Timeframe::H1 => Some(3),
            Timeframe::H4 => Some(4),
            Timeframe::D1 => Some(5),
            Timeframe::W1 => Some(6),
            Timeframe::MN1 => Some(7),
        }
    }

    /// Closed candles of a timeframe, oldest first.
    pub fn history(&self, tf: Timeframe) -> (r: Vec<Bar>)
        requires
            self@.wf(),
        ensures
            r.deep_view() == match self@.lane(tf) {
                Some(lane) => lane.history,
                None => Seq::empty(),
            },
            r.len() <= HISTORY_RING_SIZE,
            forall|i: int|
                0 <= i < r.len() ==> candle_of(#[trigger] r.deep_view()[i], self@.symbol, tf),
            opens_on_boundaries(self@) ==> forall|i: int|
                0 <= i < r.len() ==> opens_well(#[trigger] r.deep_view()[i]),
            forall|n: int|
                0 <= n < higher_timeframes().len() && tf == higher_timeframes()[n]
                    && #[trigger] in_order(self@, n) ==> ascending(r.deep_view()),
    {
        match self.lane_index(tf) {
            Some(i) => copy_bars(&self.lanes[i].history),
            None => {
                let r: Vec<Bar> = Vec::new();
                assert(r.deep_view() =~= Seq::<BarModel>::empty());
                r
            },
        }
    }

    /// The open candle of a timeframe.
    pub fn current(&self, tf: Timeframe) -> (r: Option<&Bar>)
        requires
            self@.wf(),
        ensures
            r.deep_view() == open_candle(self@, tf),
    {
        match self.lane_index(tf) {
            Some(i) => {
                let lane = &self.lanes[i];
                match &lane.preview {
                    Some(b) => Some(b),
                    None => match &lane.rolling {
                        Some(rolling) => Some(&rolling.bar),
                        None => None,
                    },
                }
            },
            None => None,
        }
    }

    /// Feeds one event and returns the higher-timeframe events to pass on.
    pub fn on_m1_event(&mut self, evt: &BarEvent) -> (r: Vec<BarEvent>)
        requires
            old(self)@.wf(),
            acceptable(evt@),
        ensures
            final(self)@ == stepped(old(self)@, evt@),
            r.deep_view() == step_events(old(self)@, evt@),
            final(self)@.wf(),
            opens_on_boundaries(old(self)@) ==> opens_on_boundaries(final(self)@)
                && all_well_shaped(r.deep_view(), old(self)@.symbol),
            forall|n: int|
                0 <= n < higher_timeframes().len() && in_order(old(self)@, n) && closes_timely(
                    evt@,
                    higher_timeframes()[n],
                ) ==> #[trigger] in_order(final(self)@, n),
            event_read(old(self)@, evt@),
    {
        let ghost s0 = self@;
        proof {
            law_candles_have_their_shape(s0, evt@);
            assert forall|n: int|
                0 <= n < higher_timeframes().len() && in_order(s0, n) && event_read(s0, evt@)
                    && closes_timely(evt@, higher_timeframes()[n]) implies #[trigger] in_order(
                stepped(s0, evt@),
                n,
            ) by {
                law_events_keep_the_order(s0, evt@, n);
            }
        }
        match evt {
            BarEvent::Historical(bars) => {
                let mut i: usize = 0;
                assert(bars.deep_view().take(0) =~= Seq::<BarModel>::empty());
                assert forall|k: int| 0 <= k < bars.len() implies acceptable_minute(
                    (#[trigger] bars@[k])@,
                ) by {
                    assert(evt@ == BarEventModel::Historical(bars.deep_view()));
                    assert(acceptable_minute(bars.deep_view()[k]));
                }
                while i < bars.len()
                    invariant
                        i <= bars.len(),
                        self@.wf(),
                        forall|k: int|
                            0 <= k < bars.len() ==> acceptable_minute((#[trigger] bars@[k])@),
                        self@ == batch_closed(old(self)@, bars.deep_view().take(i as int)),
                        batch_read(old(self)@, bars.deep_view().take(i as int)),
                    decreases bars.len() - i,
                {
                    let _ = self.fold_closed_m1(&bars[i]);
                    proof {
                        let now = bars.deep_view().take(i + 1);
                        assert(now.drop_last() =~= bars.deep_view().take(i as int));
                        assert(now.last() == bars@[i as int]@);
                    }
                    i += 1;
                }
                assert(bars.deep_view().take(bars.len() as int) =~= bars.deep_view());
                let r: Vec<BarEvent> = Vec::new();
                assert(r.deep_view() =~= Seq::<BarEventModel>::empty());
                r
            },
            BarEvent::BarUpdate(bar) => self.fold_update_m1(bar),
            BarEvent::BarClosed(bar) => self.fold_closed_m1(bar),
        }
    }

    /// Feeds one closed minute, as a restart does from stored history.
    pub fn warm_start_with_closed(&mut self, bar: &Bar) -> (r: Vec<BarEvent>)
        requires
            old(self)@.wf(),
            acceptable_minute(bar@),
        ensures
            final(self)@ == minute_closed(old(self)@, bar@),
            r.deep_view() == close_events(old(self)@, bar@),
            final(self)@.wf(),
            opens_on_boundaries(old(self)@) ==> opens_on_boundaries(final(self)@)
                && all_well_shaped(r.deep_view(), old(self)@.symbol),
            forall|n: int|
                0 <= n < higher_timeframes().len() && in_order(old(self)@, n) && timely(
                    bar@,
                    higher_timeframes()[n],
                ) ==> #[trigger] in_order(final(self)@, n),
            event_read(old(self)@, BarEventModel::BarClosed(bar@)),
    {
        let ghost s0 = self@;
        let ghost evt = BarEventModel::BarClosed(bar@);
        proof {
            law_candles_have_their_shape(s0, evt);
            assert forall|n: int|
                0 <= n < higher_timeframes().len() && in_order(s0, n) && event_read(s0, evt)
                    && timely(bar@, higher_timeframes()[n]) implies #[trigger] in_order(
                stepped(s0, evt),
                n,
            ) by {
                law_events_keep_the_order(s0, evt, n);
            }
        }
        self.fold_closed_m1(bar)
    }

    fn fold_update_m1(&mut self, m1: &Bar) -> (r: Vec<BarEvent>)
        requires
            old(self)@.wf(),
            takeable(m1@),
        ensures
            final(self)@ == quoted(old(self)@, m1@),
            r.deep_view() == quote_events(old(self)@, m1@),
            final(self)@.wf(),
            quote_is_stale(old(self)@, m1@) || quote_read(m1.ts as int),
    {
        let mut out: Vec<BarEvent> = Vec::new();
        let settled: bool = match self.last_closed_m1_ts {
            Some(ts) => m1.ts <= ts,
            None => false,
        };
        let superseded: bool = match &self.latest_preview {
            Some(b) => m1.ts < b.ts,
            None => false,
        };
        if settled || superseded {
            assert(out.deep_view() =~= Seq::<BarEventModel>::empty());
            return out;
        }
        let ghost s0 = self@;
        self.latest_preview = Some(m1.clone());
        let mut i: usize = 0;
        while i < self.lanes.len()
            invariant
                i <= self.lanes.len(),
                s0.wf(),
                takeable(m1@),
                self.symbol@ == s0.symbol,
                self.last_closed_m1_ts == s0.last_closed_m1_ts,
                self.latest_preview.deep_view() == Some(m1@),
                self.lanes.len() == s0.lanes.len(),
                out.len() == i,
                forall|k: int|
                    0 <= k < i ==> (#[trigger] self.lanes@[k])@ == (LaneModel {
                        preview: Some(previewed(s0.symbol, s0.lanes[k], m1@)),
                        ..s0.lanes[k]
                    }) && self.lanes@[k]@.wf(s0.symbol),
                forall|k: int|
                    i <= k < self.lanes.len() ==> (#[trigger] self.lanes@[k])@ == s0.lanes[k],
                forall|k: int|
                    0 <= k < i ==> (#[trigger] out@[k])@ == BarEventModel::BarUpdate(
                        previewed(s0.symbol, s0.lanes[k], m1@),
                    ),
                forall|k: int|
                    0 <= k < i ==> surveyed(#[trigger] higher_timeframes()[k], m1.ts as int),
            decreases self.lanes.len() - i,
        {
            assert(self.lanes@[i as int]@ == s0.lanes[i as int]);
            assert(s0.lanes[i as int].tf == higher_timeframes()[i as int]);
            let event = self.lanes[i].show(self.symbol.as_str(), m1);
            out.push(event);
            i += 1;
        }
        assert(self@.lanes =~= quoted(s0, m1@).lanes);
        assert forall|k: int| 0 <= k < self@.lanes.len() implies (#[trigger] self@.lanes[k]).tf
            == higher_timeframes()[k] && self@.lanes[k].wf(s0.symbol) by {
            assert(self.lanes@[k]@ == self@.lanes[k]);
            assert(s0.lanes[k].tf == higher_timeframes()[k]);
        }
        assert(out.deep_view() =~= quote_events(s0, m1@));
        out
    }

    fn fold_closed_m1(&mut self, m1: &Bar) -> (r: Vec<BarEvent>)
        requires
            old(self)@.wf(),
            takeable(m1@),
        ensures
            final(self)@ == minute_closed(old(self)@, m1@),
            r.deep_view() == close_events(old(self)@, m1@),
            final(self)@.wf(),
            minute_is_settled(old(self)@, m1@) || close_read(m1.ts as int),
    {
        let mut out: Vec<BarEvent> = Vec::new();
        assert(out.deep_view() =~= Seq::<BarEventModel>::empty());
        let settled: bool = match self.last_closed_m1_ts {
            Some(ts) => m1.ts <= ts,
            None => false,
        };
        if settled {
            return out;
        }
        let ghost s0 = self@;
        self.last_closed_m1_ts = Some(m1.ts);
        let overtaken: bool = match &self.latest_preview {
            Some(b) => b.ts <= m1.ts,
            None => false,
        };
        if overtaken {
            self.latest_preview = None;
        }
        let ghost kept = self.latest_preview.deep_view();
        let mut i: usize = 0;
        while i < self.lanes.len()
            invariant
                i <= self.lanes.len(),
                s0.wf(),
                takeable(m1@),
                self.symbol@ == s0.symbol,
                self.last_closed_m1_ts == Some(m1.ts),
                self.latest_preview.deep_view() == kept,
                self.lanes.len() == s0.lanes.len(),
                forall|k: int|
                    0 <= k < i ==> (#[trigger] self.lanes@[k])@ == lane_closed(
                        s0.symbol,
                        s0.lanes[k],
                        m1@,
                    ) && self.lanes@[k]@.wf(s0.symbol),
                forall|k: int|
                    i <= k < self.lanes.len() ==> (#[trigger] self.lanes@[k])@ == s0.lanes[k],
                out.deep_view() == lanes_events(s0, m1@, i as nat),
                forall|k: int|
                    0 <= k < i ==> surveyed(#[trigger] higher_timeframes()[k], m1.ts as int)
                        && surveyed(higher_timeframes()[k], m1.ts + 60_000),
            decreases self.lanes.len() - i,
        {
            assert(self.lanes@[i as int]@ == s0.lanes[i as int]);
            assert(s0.lanes[i as int].tf == higher_timeframes()[i as int]);
            self.lanes[i].close(self.symbol.as_str(), m1, &mut out);
            i += 1;
        }
        let ghost folded = minute_folded(s0, m1@);
        assert(self@.lanes =~= folded.lanes);
        assert(self@ == folded);
        assert forall|k: int| 0 <= k < folded.lanes.len() implies (
        #[trigger] folded.lanes[k]).tf == higher_timeframes()[k] && folded.lanes[k].wf(s0.symbol) by {
            assert(self.lanes@[k]@ == lane_closed(s0.symbol, s0.lanes[k], m1@));
            assert(s0.lanes[k].tf == higher_timeframes()[k]);
        }
        let again = self.latest_preview.clone();
        match again {
            Some(b) => {
                assert(b@ == folded.latest_preview->0);
                let mut more = self.fold_update_m1(&b);
                let ghost a = out.deep_view();
                let ghost c = more.deep_view();
                out.append(&mut more);
                assert(out.deep_view() =~= a + c);
            },
            None => {
                assert(out.deep_view() =~= close_events(s0, m1@));
            },
        }
        out
    }
}

/// A quote of the open minute never changes what closed minutes have built.
pub proof fn law_quote_keeps_closed_state(s: AggregatorModel, m1: BarModel)
    ensures
        quoted(s, m1).last_closed_m1_ts == s.last_closed_m1_ts,
        quoted(s, m1).lanes.len() == s.lanes.len(),
        forall|i: int|
            0 <= i < s.lanes.len() ==> (#[trigger] quoted(s, m1).lanes[i]).rolling
                == s.lanes[i].rolling && quoted(s, m1).lanes[i].history == s.lanes[i].history,
{
}

/// A minute that was settled by a close of it or of a later minute changes
/// nothing and is answered with nothing, as a close and as a quote.
pub proof fn law_settled_minute_is_ignored(s: AggregatorModel, m1: BarModel)
    requires
        minute_is_settled(s, m1),
    ensures
        minute_closed(s, m1) == s,
        close_events(s, m1) == Seq::<BarEventModel>::empty(),
        quoted(s, m1) == s,
        quote_events(s, m1) == Seq::<BarEventModel>::empty(),
{
}

/// Feeding the same closed minute twice is the same as feeding it once.
pub proof fn law_repeated_close_is_idempotent(s: AggregatorModel, m1: BarModel)
    ensures
        minute_closed(minute_closed(s, m1), m1) == minute_closed(s, m1),
        close_events(minute_closed(s, m1), m1) == Seq::<BarEventModel>::empty(),
{
}

/// The last closed minute never moves back.
pub proof fn law_close_never_moves_back(s: AggregatorModel, m1: BarModel)
    ensures
        minute_closed(s, m1).last_closed_m1_ts is Some,
        minute_closed(s, m1).last_closed_m1_ts->0 >= m1.ts,
        s.last_closed_m1_ts matches Some(ts) ==> minute_closed(s, m1).last_closed_m1_ts->0 >= ts,
{
}

/// A report of the latest minute replaces the earlier report of it: the
/// volume, the count and the close are those of the last report alone.
pub proof fn law_repeated_minute_replaces(acc: RollingModel, a: BarModel, b: BarModel)
    requires
        a.ts >= acc.last_m1_ts,
        a.ts == b.ts,
        i128::MIN <= acc.bar.volume + a.volume - (if a.ts == acc.last_m1_ts {
            acc.last_source.volume as int
        } else {
            0
        }) <= i128::MAX,
    ensures
        merged(merged(acc, a), b).bar.volume == merged(acc, b).bar.volume,
        merged(merged(acc, a), b).bar.close == b.close,
        merged(merged(acc, a), b).minute_count == merged(acc, b).minute_count,
        merged(merged(acc, a), b).contiguous == merged(acc, b).contiguous,
{
}

/// The candle is that of some publishable state of construction.
pub open spec fn rightly_published(symbol: Seq<char>, tf: Timeframe, bar: BarModel) -> bool {
    exists|r: RollingModel, next: int| #[trigger]
        publishable(symbol, tf, r, next) && r.bar == bar
}

/// Every candle that a closed minute finishes may be published: on the
/// timeframes that need every minute, none is missing in it.
pub proof fn law_only_publishable_candles_close(symbol: Seq<char>, lane: LaneModel, m1: BarModel)
    ensures
        finished(symbol, lane, m1).len() <= 2,
        forall|i: int|
            0 <= i < finished(symbol, lane, m1).len() ==> rightly_published(
                symbol,
                lane.tf,
                #[trigger] finished(symbol, lane, m1)[i],
            ),
{
    let all = finished(symbol, lane, m1);
    assert forall|i: int| 0 <= i < all.len() implies rightly_published(
        symbol,
        lane.tf,
        #[trigger] all[i],
    ) by {
        let now = current_after(symbol, lane, m1);
        let next = aligned(lane.tf, m1.ts + 60_000);
        if ends_candle(lane, m1) && publishable(symbol, lane.tf, now, next) && i == all.len() - 1 {
            assert(now.bar == all[i]);
        } else {
            let r = lane.rolling->0;
            assert(publishable(symbol, lane.tf, r, next_boundary(lane.tf, r.bar.ts as int)));
            assert(r.bar == all[i]);
        }
    }
}

/// What a close leaves behind does not depend on quotes that came before it.
pub proof fn law_quotes_do_not_change_closes(s: AggregatorModel, quote: BarModel, m1: BarModel)
    ensures
        minute_closed(quoted(s, quote), m1).last_closed_m1_ts == minute_closed(
            s,
            m1,
        ).last_closed_m1_ts,
        forall|i: int|
            0 <= i < s.lanes.len() ==> (#[trigger] minute_closed(quoted(s, quote), m1).lanes[i]).rolling
                == minute_closed(s, m1).lanes[i].rolling && minute_closed(
                quoted(s, quote),
                m1,
            ).lanes[i].history == minute_closed(s, m1).lanes[i].history,
{
}

} // verus!
