//! What a chart is shown: provider candles on the canonical grid, the steps
//! that answer a chart request, and the rows that come out.
use vstd::prelude::*;
use crate::aggregator::far_from_limits;
use crate::calendar::{aligned, next_boundary, next_window_boundary};
use crate::h4::{
    aggregate_h4_from_h1, aggregate_h4_with_native_fallback, ascending, canonical_rows, complete,
    has_incomplete_h4_window, incomplete, opens_at, summable, timed,
};
use crate::history::{
    by_time, chart_history_needs_provider_refresh, dated, finalized_history_bars,
    fixed_aggregate_rows_need_fill, forex_name, is_forex_symbol, modest, needs_fill, needs_refresh,
    over, replacing, upper_of, Replacement, ReplacementModel,
};
use crate::sorting::{placed, sorted_by};
use crate::text::owned;
use crate::types::{
    clamped, copy_bars, saturating_difference, tagged, Bar, BarModel, Timeframe,
};

verus! {

/// Most candles that are asked of the provider at once.
pub const PROVIDER_DEPTH: usize = 5_000;

/// A period that follows the calendar.
pub open spec fn on_calendar(tf: Timeframe) -> bool {
    tf is D1 || tf is W1 || tf is MN1
}

fn is_on_calendar(tf: Timeframe) -> (r: bool)
    ensures
        r == on_calendar(tf),
{
    matches!(tf, Timeframe::D1 | Timeframe::W1 | Timeframe::MN1)
}

/// A candle moved to the start of its canonical window.
pub open spec fn windowed(bar: BarModel) -> BarModel {
    BarModel { ts: aligned(bar.tf, bar.ts as int) as i64, ..bar }
}

/// Two reports of one logical candle as one: the range covers both, the close
/// is the later one, and the volume is not counted twice.
pub open spec fn joined_bar(held: BarModel, bar: BarModel) -> BarModel {
    BarModel {
        high: if held.high >= bar.high {
            held.high
        } else {
            bar.high
        },
        low: if held.low <= bar.low {
            held.low
        } else {
            bar.low
        },
        close: bar.close,
        volume: if held.volume >= bar.volume {
            held.volume
        } else {
            bar.volume
        },
        ..held
    }
}

/// A candle filed among candles in ascending order.
pub open spec fn filed_bar(list: Seq<BarModel>, bar: BarModel) -> Seq<BarModel>
    decreases list.len(),
{
    if list.len() == 0 || list.last().ts < bar.ts {
        list.push(bar)
    } else if list.last().ts == bar.ts {
        list.drop_last().push(joined_bar(list.last(), bar))
    } else {
        filed_bar(list.drop_last(), bar).push(list.last())
    }
}

/// All candles filed on their canonical windows.
pub open spec fn filed_bars(bars: Seq<BarModel>) -> Seq<BarModel>
    decreases bars.len(),
{
    if bars.len() == 0 {
        Seq::empty()
    } else {
        filed_bar(filed_bars(bars.drop_last()), windowed(bars.last()))
    }
}

/// Provider candles as they are stored: calendar candles sit on the New York
/// grid, one per window, and all others stay as they are.
pub open spec fn on_grid(bars: Seq<BarModel>) -> Seq<BarModel> {
    if bars.len() > 0 && on_calendar(bars[0].tf) {
        filed_bars(bars)
    } else {
        bars
    }
}

fn file_bar(list: &mut Vec<Bar>, bar: Bar)
    requires
        timed(old(list).deep_view()),
        far_from_limits(bar.ts as int),
    ensures
        final(list).deep_view() == filed_bar(old(list).deep_view(), bar@),
        timed(final(list).deep_view()),
    decreases old(list).len(),
{
    let ghost before = list.deep_view();
    if list.len() == 0 || list[list.len() - 1].ts < bar.ts {
        assert(list.len() > 0 ==> before.last() == list@.last()@);
        list.push(bar);
        assert(list.deep_view() =~= before.push(bar@));
        return;
    }
    assert(before.last() == list@.last()@);
    assert(far_from_limits(before[before.len() - 1].ts as int));
    let ghost top = list@.last()@;
    match list.pop() {
        None => {},
        Some(held) => {
            assert(list.deep_view() =~= before.drop_last());
            assert(timed(list.deep_view())) by {
                assert forall|i: int| 0 <= i < list.len() implies far_from_limits(
                    (#[trigger] list.deep_view()[i]).ts as int,
                ) by {
                    assert(before[i] == list.deep_view()[i]);
                }
            }
            if held.ts == bar.ts {
                let joined = Bar {
                    symbol: held.symbol,
                    tf: held.tf,
                    ts: held.ts,
                    open: held.open,
                    high: if held.high >= bar.high {
                        held.high
                    } else {
                        bar.high
                    },
                    low: if held.low <= bar.low {
                        held.low
                    } else {
                        bar.low
                    },
                    close: bar.close,
                    volume: if held.volume >= bar.volume {
                        held.volume
                    } else {
                        bar.volume
                    },
                };
                let ghost rest = list.deep_view();
                let ghost m = joined@;
                list.push(joined);
                assert(list.deep_view() =~= rest.push(m));
            } else {
                file_bar(list, bar);
                let ghost rest = list.deep_view();
                let ghost m = held@;
                list.push(held);
                assert(list.deep_view() =~= rest.push(m));
            }
        },
    }
}

/// Moves provider calendar candles onto the New York grid.
pub fn canonicalize_provider_calendar_bars(bars: Vec<Bar>) -> (r: Vec<Bar>)
    requires
        dated(bars.deep_view()),
    ensures
        r.deep_view() == on_grid(bars.deep_view()),
        timed(r.deep_view()),
{
    if bars.len() == 0 {
        return bars;
    }
    assert(bars.deep_view()[0] == bars@[0]@);
    if !is_on_calendar(bars[0].tf) {
        assert forall|i: int| 0 <= i < bars.len() implies far_from_limits(
            (#[trigger] bars.deep_view()[i]).ts as int,
        ) by {
            assert(modest(bars.deep_view()[i].ts as int));
        }
        return bars;
    }
    let mut out: Vec<Bar> = Vec::new();
    let mut i: usize = 0;
    assert(out.deep_view() =~= Seq::<BarModel>::empty());
    while i < bars.len()
        invariant
            i <= bars.len(),
            dated(bars.deep_view()),
            timed(out.deep_view()),
            out.deep_view() == filed_bars(bars.deep_view().take(i as int)),
        decreases bars.len() - i,
    {
        proof {
            let now = bars.deep_view().take(i + 1);
            assert(now.drop_last() =~= bars.deep_view().take(i as int));
            assert(now.last() == bars@[i as int]@);
            assert(modest(bars.deep_view()[i as int].ts as int));
        }
        let window: i64 = bars[i].tf.boundary_align(bars[i].ts);
        let mut bar = bars[i].clone();
        bar.ts = window;
        assert(bar@ == windowed(bars@[i as int]@));
        file_bar(&mut out, bar);
        i += 1;
    }
    assert(bars.deep_view().take(i as int) =~= bars.deep_view());
    out
}

/// How a provider snapshot is stored.
#[derive(Debug)]
pub enum Storing {
    Nothing,
    /// The rows replace every stored candle of a range.
    Replace(Replacement),
    /// The rows are added.
    Insert(Vec<Bar>),
}

/// Mathematical content of a [`Storing`].
pub enum StoringModel {
    Nothing,
    Replace(ReplacementModel),
    Insert(Seq<BarModel>),
}

impl View for Storing {
    type V = StoringModel;

    open spec fn view(&self) -> StoringModel {
        match *self {
            Storing::Nothing => StoringModel::Nothing,
            Storing::Replace(x) => StoringModel::Replace(x@),
            Storing::Insert(rows) => StoringModel::Insert(rows.deep_view()),
        }
    }
}

/// The final candles of a provider snapshot on the canonical grid.
pub open spec fn snapshot_rows(fetched: Seq<BarModel>, now: int) -> Seq<BarModel> {
    on_grid(sorted_by(over(fetched, now), by_time()))
}

/// How a provider snapshot is stored: calendar rows replace the range that
/// they cover, so that no off-grid duplicate survives beside them, and all
/// other rows are added.
pub open spec fn storing(tf: Timeframe, rows: Seq<BarModel>) -> StoringModel {
    if !on_calendar(tf) {
        StoringModel::Insert(rows)
    } else if rows.len() == 0 {
        StoringModel::Nothing
    } else {
        StoringModel::Replace(
            ReplacementModel {
                tf,
                from: rows[0].ts,
                to: clamped(next_boundary(tf, rows.last().ts as int) - 1) as i64,
                rows,
            },
        )
    }
}

proof fn lemma_over_dated(bars: Seq<BarModel>, now: int)
    requires
        dated(bars),
    ensures
        dated(over(bars, now)),
    decreases bars.len(),
{
    if bars.len() > 0 {
        assert forall|i: int| 0 <= i < bars.drop_last().len() implies modest(
            (#[trigger] bars.drop_last()[i]).ts as int,
        ) by {
            assert(bars[i] == bars.drop_last()[i]);
        }
        lemma_over_dated(bars.drop_last(), now);
        assert(modest(bars[bars.len() - 1].ts as int));
    }
}

proof fn lemma_placed_dated(x: BarModel, list: Seq<BarModel>)
    requires
        dated(list),
        modest(x.ts as int),
    ensures
        dated(placed(x, list, by_time())),
    decreases list.len(),
{
    if list.len() > 0 {
        let tail = list.drop_first();
        assert(modest(list[0].ts as int));
        assert forall|i: int| 0 <= i < tail.len() implies modest(
            (#[trigger] tail[i]).ts as int,
        ) by {
            assert(tail[i] == list[i + 1]);
        }
        lemma_placed_dated(x, tail);
        let rest = placed(x, tail, by_time());
        assert forall|i: int| 0 <= i < (seq![x] + list).len() implies modest(
            (#[trigger] (seq![x] + list)[i]).ts as int,
        ) by {
            if i > 0 {
                assert((seq![x] + list)[i] == list[i - 1]);
            }
        }
        assert forall|i: int| 0 <= i < (seq![list[0]] + rest).len() implies modest(
            (#[trigger] (seq![list[0]] + rest)[i]).ts as int,
        ) by {
            if i > 0 {
                assert((seq![list[0]] + rest)[i] == rest[i - 1]);
            }
        }
    }
}

proof fn lemma_sorted_dated(list: Seq<BarModel>)
    requires
        dated(list),
    ensures
        dated(sorted_by(list, by_time())),
    decreases list.len(),
{
    if list.len() > 0 {
        let tail = list.drop_first();
        assert(modest(list[0].ts as int));
        assert forall|i: int| 0 <= i < tail.len() implies modest(
            (#[trigger] tail[i]).ts as int,
        ) by {
            assert(tail[i] == list[i + 1]);
        }
        lemma_sorted_dated(tail);
        lemma_placed_dated(list[0], sorted_by(tail, by_time()));
    }
}

/// Plans how a provider snapshot of one pair is stored.
pub fn persist_chart_provider_history(tf: Timeframe, fetched: &[Bar], history_now: i64) -> (r:
    Storing)
    requires
        dated(fetched.deep_view()),
    ensures
        r@ == storing(tf, snapshot_rows(fetched.deep_view(), history_now as int)),
{
    proof {
        lemma_over_dated(fetched.deep_view(), history_now as int);
        lemma_sorted_dated(over(fetched.deep_view(), history_now as int));
    }
    let finalized = finalized_history_bars(fetched, history_now);
    let rows = canonicalize_provider_calendar_bars(finalized);
    if !is_on_calendar(tf) {
        return Storing::Insert(rows);
    }
    if rows.len() == 0 {
        return Storing::Nothing;
    }
    let ghost list = rows.deep_view();
    assert(list[0] == rows@[0]@);
    assert(list.last() == rows@[rows.len() - 1]@);
    assert(far_from_limits(list[list.len() - 1].ts as int));
    let from: i64 = rows[0].ts;
    let end: i64 = next_window_boundary(tf, rows[rows.len() - 1].ts);
    let to: i64 = saturating_difference(end, 1);
    Storing::Replace(Replacement { tf, from, to, rows })
}

proof fn lemma_filed_ascending(list: Seq<BarModel>, bar: BarModel)
    requires
        ascending(list),
    ensures
        ascending(filed_bar(list, bar)),
        filed_bar(list, bar).len() > 0,
        filed_bar(list, bar).last().ts == if list.len() > 0 && list.last().ts > bar.ts {
            list.last().ts
        } else {
            bar.ts
        },
    decreases list.len(),
{
    if list.len() > 0 && list.last().ts > bar.ts {
        let rest = list.drop_last();
        assert(ascending(rest));
        lemma_filed_ascending(rest, bar);
        if rest.len() > 0 {
            assert(rest.last().ts < list.last().ts);
        }
        let inner = filed_bar(rest, bar);
        assert(inner.last().ts < list.last().ts);
        assert forall|i: int, j: int|
            0 <= i < j < inner.push(list.last()).len() implies #[trigger] inner.push(
            list.last(),
        )[i].ts < #[trigger] inner.push(list.last())[j].ts by {
            if j == inner.len() && i < inner.len() - 1 {
                assert(inner[i].ts < inner[inner.len() - 1].ts);
            }
        }
    } else if list.len() > 0 && list.last().ts == bar.ts {
        let now = list.drop_last().push(joined_bar(list.last(), bar));
        assert forall|i: int, j: int| 0 <= i < j < now.len() implies #[trigger] now[i].ts
            < #[trigger] now[j].ts by {
            assert(list[i].ts < list[j].ts);
        }
    } else {
        let now = list.push(bar);
        assert forall|i: int, j: int| 0 <= i < j < now.len() implies #[trigger] now[i].ts
            < #[trigger] now[j].ts by {
            if j == list.len() && i < list.len() - 1 {
                assert(list[i].ts < list[list.len() - 1].ts);
            }
        }
    }
}

/// Calendar candles come out once per window, oldest first.
pub proof fn law_calendar_candles_are_unique(bars: Seq<BarModel>)
    ensures
        ascending(filed_bars(bars)),
    decreases bars.len(),
{
    if bars.len() > 0 {
        law_calendar_candles_are_unique(bars.drop_last());
        lemma_filed_ascending(filed_bars(bars.drop_last()), windowed(bars.last()));
    }
}

/// Plans how rebuilt four-hour candles are stored: they replace the range that
/// they cover, and older candles stay.
pub fn persist_canonical_h4_slice(bars: &Vec<Bar>) -> (r: Option<Replacement>)
    ensures
        match r {
            Some(x) => replacing(Timeframe::H4, bars.deep_view()) == seq![x@],
            None => bars.len() == 0,
        },
{
    if bars.len() == 0 {
        return None;
    }
    assert(bars.deep_view()[0] == bars@[0]@);
    assert(bars.deep_view().last() == bars@[bars.len() - 1]@);
    let rows = copy_bars(bars);
    let from: i64 = bars[0].ts;
    let to: i64 = bars[bars.len() - 1].ts;
    Some(Replacement { tf: Timeframe::H4, from, to, rows })
}

/// A chart request after its arguments have been read.
#[derive(Debug, Clone, Copy)]
pub struct ChartRequest {
    pub tf: Timeframe,
    pub want: usize,
    pub force_fresh: bool,
    /// The four-hour candles of a currency pair are rebuilt from its hours.
    pub rebuild: bool,
}

/// Reads the arguments of a chart request.
pub fn chart_request(symbol: &str, tf: &str, limit: i64, force_fresh: Option<bool>) -> (r: Result<
    ChartRequest,
    String,
>)
    requires
        limit <= usize::MAX,
    ensures
        match r {
            Ok(x) => tagged(tf@) == Some(x.tf) && x.want == (if limit > 1 {
                limit as int
            } else {
                1
            }) && x.force_fresh == (force_fresh == Some(true)) && x.rebuild == (x.tf is H4
                && forex_name(upper_of(symbol@))),
            Err(e) => tagged(tf@) is None && e@ == "unknown tf: "@ + tf@,
        },
{
    match Timeframe::from_tag(tf) {
        None => {
            let mut e = owned("unknown tf: ");
            e.append(tf);
            Err(e)
        },
        Some(period) => {
            let want: usize = if limit > 1 {
                limit as usize
            } else {
                1
            };
            let fresh = match force_fresh {
                Some(x) => x,
                None => false,
            };
            let four_hours = matches!(period, Timeframe::H4);
            let rebuild = if four_hours {
                is_forex_symbol(symbol)
            } else {
                false
            };
            Ok(ChartRequest { tf: period, want, force_fresh: fresh, rebuild })
        },
    }
}

/// How many candles a request asks of the provider.
pub open spec fn provider_depth(want: int) -> int {
    if want < PROVIDER_DEPTH {
        want
    } else {
        PROVIDER_DEPTH as int
    }
}

/// How many candles a request asks of the provider.
pub fn depth_of(want: usize) -> (r: usize)
    ensures
        r == provider_depth(want as int),
{
    if want < PROVIDER_DEPTH {
        want
    } else {
        PROVIDER_DEPTH
    }
}

/// What is done next for a chart request.
#[derive(Debug, Clone, Copy, PartialEq, Eq, Structural)]
pub enum ChartStep {
    /// Ask the provider for this many candles, store them, and read again.
    Fetch(usize),
    /// Fill missing candles from stored minutes and read again.
    Fill,
    /// Read the stored rows.
    Read,
    /// Show the rows.
    Show,
}

/// How far a chart request has come.
#[derive(Debug, Clone, Copy, PartialEq, Eq, Structural)]
pub enum ChartStage {
    /// Nothing has been read.
    Opened,
    /// Stored rows were read, and nothing was filled.
    Read,
    /// Missing candles were filled.
    Filled,
    /// The provider was asked because of what was read.
    Refreshed,
}

/// The next step of a chart request. The provider is asked at most once: at
/// the start where a fresh batch is demanded, else after holes were filled
/// from stored minutes and the rows are still not complete.
pub open spec fn next_chart_step(
    request: ChartRequest,
    stage: ChartStage,
    symbol: Seq<char>,
    rows: Seq<BarModel>,
    now: int,
) -> ChartStep {
    let fetch = ChartStep::Fetch(provider_depth(request.want as int) as usize);
    let fillable = request.tf is M5 || request.tf is M15 || request.tf is M30 || request.tf is H1;
    match stage {
        ChartStage::Opened => if request.force_fresh {
            fetch
        } else {
            ChartStep::Read
        },
        ChartStage::Refreshed => ChartStep::Show,
        _ => if stage is Read && fillable && needs_fill(rows, symbol, request.tf, now) {
            ChartStep::Fill
        } else if !request.force_fresh && needs_refresh(rows, request.want as int, now) {
            fetch
        } else {
            ChartStep::Show
        },
    }
}

/// Decides the next step of a chart request.
pub fn chart_step(
    request: ChartRequest,
    stage: ChartStage,
    symbol: &str,
    rows: &Vec<Bar>,
    now_ms: i64,
) -> (r: ChartStep)
    requires
        dated(rows.deep_view()),
        modest(now_ms as int),
    ensures
        r == next_chart_step(request, stage, symbol@, rows.deep_view(), now_ms as int),
{
    let depth: usize = depth_of(request.want);
    match stage {
        ChartStage::Opened => if request.force_fresh {
            ChartStep::Fetch(depth)
        } else {
            ChartStep::Read
        },
        ChartStage::Refreshed => ChartStep::Show,
        _ => {
            let fillable = matches!(
                request.tf,
                Timeframe::M5 | Timeframe::M15 | Timeframe::M30 | Timeframe::H1
            );
            if stage == ChartStage::Read && fillable && fixed_aggregate_rows_need_fill(
                rows.as_slice(),
                symbol,
                request.tf,
                now_ms,
            ) {
                return ChartStep::Fill;
            }
            if !request.force_fresh && chart_history_needs_provider_refresh(
                rows.as_slice(),
                request.want,
                now_ms,
            ) {
                return ChartStep::Fetch(depth);
            }
            ChartStep::Show
        },
    }
}

/// A request that demands a fresh batch asks the provider at the start alone,
/// and any other request never at the start; no request asks after the
/// provider was asked because of what was read.
pub proof fn law_the_provider_is_asked_once(
    request: ChartRequest,
    stage: ChartStage,
    symbol: Seq<char>,
    rows: Seq<BarModel>,
    now: int,
)
    ensures
        next_chart_step(request, stage, symbol, rows, now) is Fetch && request.force_fresh
            ==> stage is Opened,
        next_chart_step(request, stage, symbol, rows, now) is Fetch && !request.force_fresh
            ==> stage is Read || stage is Filled,
        next_chart_step(request, stage, symbol, rows, now) is Fill ==> stage is Read,
{
}

/// A candle as a chart draws it.
#[derive(Debug)]
pub struct ChartBar {
    pub bar: Bar,
    pub closed: bool,
}

/// Mathematical content of a [`ChartBar`].
pub struct ChartBarModel {
    pub bar: BarModel,
    pub closed: bool,
}

impl View for ChartBar {
    type V = ChartBarModel;

    open spec fn view(&self) -> ChartBarModel {
        ChartBarModel { bar: self.bar@, closed: self.closed }
    }
}

impl DeepView for ChartBar {
    type V = ChartBarModel;

    open spec fn deep_view(&self) -> ChartBarModel {
        self@
    }
}

/// Closed candles as a chart draws them.
pub open spec fn closed_rows(rows: Seq<BarModel>) -> Seq<ChartBarModel> {
    Seq::new(rows.len(), |i: int| ChartBarModel { bar: rows[i], closed: true })
}

/// The last `want` rows.
pub open spec fn newest(rows: Seq<BarModel>, want: int) -> Seq<BarModel> {
    if rows.len() <= want {
        rows
    } else {
        rows.skip(rows.len() - want)
    }
}

/// What a chart draws: the newest closed candles, and the open candle behind
/// them unless the last closed one has its time.
pub open spec fn chart_view(rows: Seq<BarModel>, want: int, open: Option<BarModel>) -> Seq<
    ChartBarModel,
> {
    let closed = newest(rows, want);
    match open {
        Some(bar) => if closed.len() > 0 && closed.last().ts == bar.ts {
            closed_rows(closed)
        } else {
            closed_rows(closed).push(ChartBarModel { bar, closed: false })
        },
        None => closed_rows(closed),
    }
}

/// Builds what a chart draws.
pub fn chart_rows(rows: &Vec<Bar>, want: usize, open: Option<&Bar>) -> (r: Vec<ChartBar>)
    ensures
        r.deep_view() == chart_view(
            rows.deep_view(),
            want as int,
            match open {
                Some(bar) => Some(bar@),
                None => None,
            },
        ),
{
    let start: usize = if rows.len() <= want {
        0
    } else {
        rows.len() - want
    };
    let ghost closed = newest(rows.deep_view(), want as int);
    assert(closed =~= rows.deep_view().skip(start as int));
    let mut out: Vec<ChartBar> = Vec::new();
    let mut i: usize = start;
    assert(out.deep_view() =~= closed_rows(closed).take(0));
    while i < rows.len()
        invariant
            start <= i <= rows.len(),
            closed == rows.deep_view().skip(start as int),
            out.deep_view() == closed_rows(closed).take(i - start),
        decreases rows.len() - i,
    {
        let ghost before = out.deep_view();
        out.push(ChartBar { bar: rows[i].clone(), closed: true });
        assert(closed[i - start] == rows@[i as int]@);
        assert(out.deep_view() =~= before.push(closed_rows(closed)[i - start]));
        assert(out.deep_view() =~= closed_rows(closed).take(i - start + 1));
        i += 1;
    }
    assert(out.deep_view() =~= closed_rows(closed));
    match open {
        Some(bar) => {
            let covered = rows.len() > start && rows[rows.len() - 1].ts == bar.ts;
            proof {
                if rows.len() > start {
                    assert(closed.last() == rows@[rows.len() - 1]@);
                }
            }
            if !covered {
                let ghost before = out.deep_view();
                out.push(ChartBar { bar: bar.clone(), closed: false });
                assert(out.deep_view() =~= before.push(
                    ChartBarModel { bar: bar@, closed: false },
                ));
            }
        },
        None => {},
    }
    out
}

/// How many hours are read to rebuild `want` four-hour candles.
pub open spec fn hours_needed(want: int) -> int {
    if 4 * want + 8 < PROVIDER_DEPTH {
        4 * want + 8
    } else {
        PROVIDER_DEPTH as int
    }
}

/// How many hours are read to rebuild `want` four-hour candles.
pub fn count_hours(want: usize) -> (r: usize)
    ensures
        r == hours_needed(want as int),
{
    if want < 1_248 {
        4 * want + 8
    } else {
        PROVIDER_DEPTH
    }
}

/// Whether the hours of a currency pair are fetched before its four-hour
/// candles are rebuilt.
pub fn wants_hours(
    allow_network: bool,
    force_fresh: bool,
    h1: &Vec<Bar>,
    want: usize,
    now_ms: i64,
) -> (r: bool)
    requires
        dated(h1.deep_view()),
        modest(now_ms as int),
    ensures
        r == (allow_network && (force_fresh || needs_refresh(
            h1.deep_view(),
            hours_needed(want as int),
            now_ms as int,
        ))),
{
    if !allow_network {
        return false;
    }
    if force_fresh {
        return true;
    }
    chart_history_needs_provider_refresh(h1.as_slice(), count_hours(want), now_ms)
}

/// No row stands in for a window with missing hours.
pub open spec fn hours_alone(
    h1: Seq<BarModel>,
    symbol: Seq<char>,
    now: int,
    rows: Seq<BarModel>,
) -> bool {
    forall|i: int|
        0 <= i < rows.len() ==> complete(h1, symbol, now, (#[trigger] rows[i]).ts as int)
}

/// Rebuilt four-hour candles, and whether provider candles are still wanted.
#[derive(Debug)]
pub struct RebuiltH4 {
    pub rows: Vec<Bar>,
    pub fetch_native: bool,
}

fn has_time(bars: &Vec<Bar>, ts: i64) -> (r: bool)
    ensures
        r == opens_at(bars.deep_view(), ts as int),
{
    let mut i: usize = 0;
    while i < bars.len()
        invariant
            i <= bars.len(),
            forall|k: int| 0 <= k < i ==> (#[trigger] bars.deep_view()[k]).ts != ts,
        decreases bars.len() - i,
    {
        assert(bars.deep_view()[i as int] == bars@[i as int]@);
        if bars[i].ts == ts {
            return true;
        }
        i += 1;
    }
    false
}

/// Rebuilds the four-hour candles of a currency pair. Provider candles are
/// wanted where the hours have a hole and none of the stored provider candles
/// could stand in for it.
pub fn forex_h4_history(
    h1: &Vec<Bar>,
    native_h4: &Vec<Bar>,
    symbol: &str,
    history_now: i64,
    allow_network: bool,
) -> (r: RebuiltH4)
    requires
        timed(h1.deep_view()),
        timed(native_h4.deep_view()),
        summable(h1.deep_view()),
    ensures
        canonical_rows(
            h1.deep_view(),
            native_h4.deep_view(),
            symbol@,
            history_now as int,
            r.rows.deep_view(),
        ),
        r.fetch_native == (allow_network && incomplete(
            h1.deep_view(),
            symbol@,
            history_now as int,
        ) && hours_alone(h1.deep_view(), symbol@, history_now as int, r.rows.deep_view())),
{
    let strict = aggregate_h4_from_h1(h1.as_slice(), symbol, history_now);
    let rows = aggregate_h4_with_native_fallback(
        h1.as_slice(),
        native_h4.as_slice(),
        symbol,
        history_now,
    );
    if !allow_network || !has_incomplete_h4_window(h1.as_slice(), symbol, history_now) {
        return RebuiltH4 { rows, fetch_native: false };
    }
    let ghost hs = h1.deep_view();
    let ghost now = history_now as int;
    let ghost all = rows.deep_view();
    assert forall|k: int| 0 <= k < strict.len() implies complete(
        hs,
        symbol@,
        now,
        (#[trigger] strict@[k]).ts as int,
    ) by {
        assert(strict.deep_view()[k] == strict@[k]@);
    }
    let mut i: usize = 0;
    let mut alone = true;
    while i < rows.len()
        invariant
            i <= rows.len(),
            all == rows.deep_view(),
            alone == (forall|k: int|
                0 <= k < i ==> complete(hs, symbol@, now, (#[trigger] all[k]).ts as int)),
            forall|k: int|
                0 <= k < strict.len() ==> complete(
                    hs,
                    symbol@,
                    now,
                    (#[trigger] strict@[k]).ts as int,
                ),
            forall|window: int|
                complete(hs, symbol@, now, window) ==> #[trigger] opens_at(
                    strict.deep_view(),
                    window,
                ),
        decreases rows.len() - i,
    {
        assert(all[i as int] == rows@[i as int]@);
        let there = has_time(&strict, rows[i].ts);
        proof {
            if there {
                let k = choose|k: int|
                    0 <= k < strict.deep_view().len() && (#[trigger] strict.deep_view()[k]).ts
                        == rows@[i as int].ts;
                assert(strict.deep_view()[k] == strict@[k]@);
            }
            assert(there == complete(hs, symbol@, now, all[i as int].ts as int));
        }
        if !there {
            alone = false;
        }
        i += 1;
    }
    RebuiltH4 { rows, fetch_native: alone }
}

/// The common start of several histories: none where one of them is empty, so
/// that a missing history hides nothing.
pub open spec fn common_start(firsts: Seq<Option<i64>>) -> int
    decreases firsts.len(),
{
    if firsts.len() == 0 {
        0
    } else {
        let rest = common_start(firsts.drop_last());
        match firsts.last() {
            Some(ts) => if ts > rest {
                ts as int
            } else {
                rest
            },
            None => rest,
        }
    }
}

/// The time from which on every history can show something. `firsts` holds
/// the oldest time of each history that has one.
pub fn get_history_cutoff(tf: &str, firsts: &Vec<Option<i64>>) -> (r: Result<i64, String>)
    ensures
        match r {
            Ok(ts) => tagged(tf@) is Some && ts == (if firsts@.contains(None) {
                0
            } else {
                common_start(firsts@)
            }),
            Err(e) => tagged(tf@) is None && e@ == "unknown tf: "@ + tf@,
        },
{
    if Timeframe::from_tag(tf).is_none() {
        let mut e = owned("unknown tf: ");
        e.append(tf);
        return Err(e);
    }
    let mut start: i64 = 0;
    let mut i: usize = 0;
    while i < firsts.len()
        invariant
            tagged(tf@) is Some,
            i <= firsts.len(),
            forall|k: int| 0 <= k < i ==> #[trigger] firsts@[k] is Some,
            start == common_start(firsts@.take(i as int)),
        decreases firsts.len() - i,
    {
        proof {
            let now = firsts@.take(i + 1);
            assert(now.drop_last() =~= firsts@.take(i as int));
            assert(now.last() == firsts@[i as int]);
        }
        match firsts[i] {
            None => {
                assert(firsts@[i as int] is None);
                assert(firsts@.contains(None));
                return Ok(0);
            },
            Some(ts) => {
                if ts > start {
                    start = ts;
                }
            },
        }
        i += 1;
    }
    assert(firsts@.take(i as int) =~= firsts@);
    Ok(start)
}

/// The cutoff is never before the epoch, and no history starts after it.
pub proof fn law_cutoff_is_the_latest_start(firsts: Seq<Option<i64>>)
    ensures
        common_start(firsts) >= 0,
        forall|i: int|
            0 <= i < firsts.len() ==> (#[trigger] firsts[i] matches Some(ts) ==> ts
                <= common_start(firsts)),
        common_start(firsts) == 0 || firsts.contains(Some(common_start(firsts) as i64)),
    decreases firsts.len(),
{
    if firsts.len() > 0 {
        let rest = firsts.drop_last();
        law_cutoff_is_the_latest_start(rest);
        assert forall|i: int| 0 <= i < firsts.len() implies (#[trigger] firsts[i] matches Some(ts)
            ==> ts <= common_start(firsts)) by {
            if i < rest.len() {
                assert(rest[i] == firsts[i]);
            }
        }
        if common_start(firsts) != 0 {
            if common_start(firsts) == common_start(rest) {
                let k = choose|k: int|
                    0 <= k < rest.len() && rest[k] == Some(common_start(rest) as i64);
                assert(firsts[k] == rest[k]);
            } else {
                assert(firsts[firsts.len() - 1] == Some(common_start(firsts) as i64));
            }
        }
    }
}

} // verus!
