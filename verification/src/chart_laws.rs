//! What charts show, and how the history behind them is stored.
use vstd::prelude::*;
use crate::calendar::{aligned, next_boundary};
use crate::candidate::close_laws::{chain_at, lemma_chain_at};
use crate::charts::{
    chart_view, filed_bar, filed_bars, hours_needed, joined_bar, law_calendar_candles_are_unique,
    next_chart_step, on_calendar, on_grid, snapshot_rows, storing, windowed, ChartRequest,
    ChartStage, ChartStep, StoringModel,
};
use crate::detector::{FvgModel, IctStructureModel, SmtModel};
use crate::h4::ascending;
use crate::history::{by_time, needs_fill, needs_refresh, over};
use crate::history_laws::law_only_finished_candles_are_final;
use crate::sorting::{law_sorting, sorted_by, strict_weak};
use crate::structures::{drawn, end_stamped, id_of, left_at, use_stamped, with_new, without_smts};
use crate::text::lemma_push_contains;
use crate::types::{BarModel, Timeframe};

verus! {

/// A candle covers the range and the volume of another.
pub open spec fn covers(r: BarModel, x: BarModel) -> bool {
    r.high >= x.high && r.low <= x.low && r.volume >= x.volume
}

/// Where a filed candle stands.
proof fn lemma_filed_here(list: Seq<BarModel>, bar: BarModel) -> (i: int)
    ensures
        0 <= i < filed_bar(list, bar).len(),
        filed_bar(list, bar)[i].ts == bar.ts,
        covers(filed_bar(list, bar)[i], bar),
        filed_bar(list, bar)[i].close == bar.close,
    decreases list.len(),
{
    if list.len() == 0 || list.last().ts < bar.ts {
        list.len() as int
    } else if list.last().ts == bar.ts {
        list.len() - 1
    } else {
        lemma_filed_here(list.drop_last(), bar)
    }
}

/// Where a held candle stands once another is filed.
proof fn lemma_kept_there(list: Seq<BarModel>, bar: BarModel, k: int) -> (i: int)
    requires
        0 <= k < list.len(),
    ensures
        0 <= i < filed_bar(list, bar).len(),
        filed_bar(list, bar)[i].ts == list[k].ts,
        covers(filed_bar(list, bar)[i], list[k]),
    decreases list.len(),
{
    if list.last().ts <= bar.ts {
        k
    } else if k == list.len() - 1 {
        filed_bar(list.drop_last(), bar).len() as int
    } else {
        assert(list.drop_last()[k] == list[k]);
        lemma_kept_there(list.drop_last(), bar, k)
    }
}

/// Where a candle comes from: it is the filed one, a held one, or both joined.
proof fn lemma_filed_from(list: Seq<BarModel>, bar: BarModel, i: int) -> (k: int)
    requires
        0 <= i < filed_bar(list, bar).len(),
    ensures
        filed_bar(list, bar)[i] == bar || (0 <= k < list.len() && (filed_bar(list, bar)[i]
            == list[k] || (list[k].ts == bar.ts && filed_bar(list, bar)[i] == joined_bar(
            list[k],
            bar,
        )))),
    decreases list.len(),
{
    if list.len() == 0 || list.last().ts <= bar.ts {
        i
    } else {
        let inner = filed_bar(list.drop_last(), bar);
        if i < inner.len() {
            lemma_filed_from(list.drop_last(), bar, i)
        } else {
            list.len() - 1
        }
    }
}

/// Some report of a window has a price.
pub open spec fn reported_high(bars: Seq<BarModel>, r: BarModel) -> bool {
    exists|k: int|
        0 <= k < bars.len() && aligned((#[trigger] bars[k]).tf, bars[k].ts as int) as i64 == r.ts
            && bars[k].high == r.high
}

/// Some report of a window has a price.
pub open spec fn reported_low(bars: Seq<BarModel>, r: BarModel) -> bool {
    exists|k: int|
        0 <= k < bars.len() && aligned((#[trigger] bars[k]).tf, bars[k].ts as int) as i64 == r.ts
            && bars[k].low == r.low
}

/// Provider candles of a calendar period become one per window, which covers every
/// report of it.
pub proof fn law_a_window_covers_its_reports(bars: Seq<BarModel>, k: int) -> (i: int)
    requires
        0 <= k < bars.len(),
        on_calendar(bars[0].tf),
    ensures
        ascending(on_grid(bars)),
        0 <= i < on_grid(bars).len(),
        on_grid(bars)[i].ts == aligned(bars[k].tf, bars[k].ts as int) as i64,
        covers(on_grid(bars)[i], bars[k]),
{
    law_calendar_candles_are_unique(bars);
    lemma_report_covered(bars, k)
}

proof fn lemma_report_covered(bars: Seq<BarModel>, k: int) -> (i: int)
    requires
        0 <= k < bars.len(),
    ensures
        0 <= i < filed_bars(bars).len(),
        filed_bars(bars)[i].ts == aligned(bars[k].tf, bars[k].ts as int) as i64,
        covers(filed_bars(bars)[i], bars[k]),
    decreases bars.len(),
{
    let rest = bars.drop_last();
    let bar = windowed(bars.last());
    if k < rest.len() {
        assert(rest[k] == bars[k]);
        let h = lemma_report_covered(rest, k);
        lemma_kept_there(filed_bars(rest), bar, h)
    } else {
        lemma_filed_here(filed_bars(rest), bar)
    }
}

/// The highest and the lowest price of a window are ones that were reported of it.
pub proof fn law_no_price_is_invented(bars: Seq<BarModel>, i: int)
    requires
        bars.len() > 0,
        on_calendar(bars[0].tf),
        0 <= i < on_grid(bars).len(),
    ensures
        reported_high(bars, on_grid(bars)[i]),
        reported_low(bars, on_grid(bars)[i]),
{
    lemma_reported(bars, i);
}

proof fn lemma_still_reported(bars: Seq<BarModel>, x: BarModel)
    requires
        bars.len() > 0,
        reported_high(bars.drop_last(), x),
        reported_low(bars.drop_last(), x),
    ensures
        reported_high(bars, x),
        reported_low(bars, x),
{
    let rest = bars.drop_last();
    let k = choose|k: int|
        0 <= k < rest.len() && aligned((#[trigger] rest[k]).tf, rest[k].ts as int) as i64 == x.ts
            && rest[k].high == x.high;
    assert(bars[k] == rest[k]);
    let l = choose|k: int|
        0 <= k < rest.len() && aligned((#[trigger] rest[k]).tf, rest[k].ts as int) as i64 == x.ts
            && rest[k].low == x.low;
    assert(bars[l] == rest[l]);
}

proof fn lemma_reported(bars: Seq<BarModel>, i: int)
    requires
        0 <= i < filed_bars(bars).len(),
    ensures
        reported_high(bars, filed_bars(bars)[i]),
        reported_low(bars, filed_bars(bars)[i]),
    decreases bars.len(),
{
    if bars.len() > 0 {
        let rest = bars.drop_last();
        let held = filed_bars(rest);
        let bar = windowed(bars.last());
        let r = filed_bars(bars)[i];
        assert(bars[bars.len() - 1] == bars.last());
        assert(reported_high(bars, bar) && reported_low(bars, bar));
        let k = lemma_filed_from(held, bar, i);
        if r != bar {
            lemma_reported(rest, k);
            lemma_still_reported(bars, held[k]);
            if r != held[k] {
                lemma_same_high(
                    bars,
                    if held[k].high >= bar.high {
                        held[k]
                    } else {
                        bar
                    },
                    r,
                );
                lemma_same_low(
                    bars,
                    if held[k].low <= bar.low {
                        held[k]
                    } else {
                        bar
                    },
                    r,
                );
            }
        }
    }
}

/// The last report of a window says its close.
pub proof fn law_the_last_report_says_the_close(bars: Seq<BarModel>) -> (i: int)
    requires
        bars.len() > 0,
        on_calendar(bars[0].tf),
    ensures
        0 <= i < on_grid(bars).len(),
        on_grid(bars)[i].ts == aligned(bars.last().tf, bars.last().ts as int) as i64,
        on_grid(bars)[i].close == bars.last().close,
{
    lemma_filed_here(filed_bars(bars.drop_last()), windowed(bars.last()))
}

proof fn lemma_same_high(bars: Seq<BarModel>, a: BarModel, b: BarModel)
    requires
        reported_high(bars, a),
        a.ts == b.ts,
        a.high == b.high,
    ensures
        reported_high(bars, b),
{
    let k = choose|k: int|
        0 <= k < bars.len() && aligned((#[trigger] bars[k]).tf, bars[k].ts as int) as i64 == a.ts
            && bars[k].high == a.high;
    assert(bars[k].high == b.high);
}

proof fn lemma_same_low(bars: Seq<BarModel>, a: BarModel, b: BarModel)
    requires
        reported_low(bars, a),
        a.ts == b.ts,
        a.low == b.low,
    ensures
        reported_low(bars, b),
{
    let k = choose|k: int|
        0 <= k < bars.len() && aligned((#[trigger] bars[k]).tf, bars[k].ts as int) as i64 == a.ts
            && bars[k].low == a.low;
    assert(bars[k].low == b.low);
}

/// Of a snapshot of a fixed period exactly the finished candles are kept, in the
/// order of their times.
pub proof fn law_snapshots_keep_finished_candles(fetched: Seq<BarModel>, now: int, x: BarModel, i: int, j: int)
    requires
        forall|k: int| 0 <= k < fetched.len() ==> !on_calendar((#[trigger] fetched[k]).tf),
    ensures
        ({
            let rows = snapshot_rows(fetched, now);
            &&& rows.contains(x) <==> fetched.contains(x) && next_boundary(
                x.tf,
                aligned(x.tf, x.ts as int),
            ) <= now
            &&& 0 <= i < j < rows.len() ==> rows[i].ts <= rows[j].ts
        }),
{
    let kept = over(fetched, now);
    let before = by_time();
    assert(strict_weak(before));
    law_sorting(kept, before);
    let r = sorted_by(kept, before);
    law_only_finished_candles_are_final(fetched, now, x);
    broadcast use vstd::seq_lib::group_to_multiset_ensures;

    assert(r.contains(x) <==> r.to_multiset().count(x) > 0);
    assert(kept.contains(x) <==> kept.to_multiset().count(x) > 0);
    if r.len() > 0 {
        law_only_finished_candles_are_final(fetched, now, r[0]);
        assert(r.contains(r[0]));
        assert(r.to_multiset().count(r[0]) > 0);
        assert(kept.contains(r[0]));
        let k = choose|k: int| 0 <= k < fetched.len() && fetched[k] == r[0];
        assert(!on_calendar(fetched[k].tf));
    }
    assert(snapshot_rows(fetched, now) == r);
    if 0 <= i < j < r.len() {
        assert(!before(r[j], r[i]));
    }
}

/// Calendar candles replace everything from the first of them to the end of the
/// last one's window; candles of other periods are added.
pub proof fn law_calendar_candles_replace_their_range(tf: Timeframe, rows: Seq<BarModel>)
    ensures
        tf is D1 || tf is W1 || tf is MN1 ==> (rows.len() == 0 ==> storing(tf, rows) is Nothing),
        (tf is D1 || tf is W1 || tf is MN1) && rows.len() > 0 ==> (storing(
            tf,
            rows,
        ) matches StoringModel::Replace(x) && x.tf == tf && x.rows == rows && x.from == rows[0].ts
            && (next_boundary(tf, rows.last().ts as int) <= i64::MAX && next_boundary(
            tf,
            rows.last().ts as int,
        ) > i64::MIN ==> x.to + 1 == next_boundary(tf, rows.last().ts as int))),
        !(tf is D1 || tf is W1 || tf is MN1) ==> storing(tf, rows) == StoringModel::Insert(rows),
{
}

/// A fresh batch is fetched before anything else; otherwise stored rows are read,
/// filled once where minutes can fill them, and fetched where they are still not
/// complete; what was fetched is shown.
pub proof fn law_a_chart_is_completed_before_it_is_shown(
    request: ChartRequest,
    symbol: Seq<char>,
    rows: Seq<BarModel>,
    now: int,
)
    ensures
        ({
            let step = |stage: ChartStage| next_chart_step(request, stage, symbol, rows, now);
            let short = needs_refresh(rows, request.want as int, now);
            let holes = needs_fill(rows, symbol, request.tf, now) && (request.tf is M5
                || request.tf is M15 || request.tf is M30 || request.tf is H1);
            &&& request.force_fresh ==> step(ChartStage::Opened) is Fetch
            &&& !request.force_fresh ==> step(ChartStage::Opened) is Read
            &&& step(ChartStage::Refreshed) is Show
            &&& holes ==> step(ChartStage::Read) is Fill
            &&& !request.force_fresh && short && !holes ==> step(ChartStage::Read) is Fetch
            &&& !request.force_fresh && short ==> step(ChartStage::Filled) is Fetch
            &&& !short ==> step(ChartStage::Filled) is Show
            &&& !short && !holes ==> step(ChartStage::Read) is Show
            &&& step(ChartStage::Opened) matches ChartStep::Fetch(n) ==> n <= 5_000 && n
                <= request.want && (n == 5_000 || n == request.want)
            &&& step(ChartStage::Filled) matches ChartStep::Fetch(n) ==> n <= 5_000 && n
                <= request.want && (n == 5_000 || n == request.want)
        }),
{
}

/// A chart shows the newest closed candles in their order, and the open candle
/// behind them where it is a new one.
pub proof fn law_a_chart_ends_with_the_newest_candles(
    rows: Seq<BarModel>,
    want: int,
    open: Option<BarModel>,
    i: int,
)
    requires
        want > 0,
    ensures
        ({
            let r = chart_view(rows, want, open);
            let n = if rows.len() < want {
                rows.len() as int
            } else {
                want
            };
            let fresh = open is Some && !(rows.len() > 0 && rows.last().ts == (open->0).ts);
            &&& r.len() == n + if fresh {
                1int
            } else {
                0
            }
            &&& 0 <= i < n ==> r[i].closed && r[i].bar == rows[rows.len() - n + i]
            &&& fresh ==> !r.last().closed && r.last().bar == open->0
        }),
{
    if rows.len() > want {
        let cut = rows.skip(rows.len() - want);
        assert(cut.last() == rows.last());
    }
}

/// Four-hour candles are rebuilt from four hours each and eight to spare, as far
/// as the provider goes.
pub proof fn law_enough_hours_are_read(want: int)
    ensures
        4 * want + 8 <= 5_000 ==> hours_needed(want) == 4 * want + 8,
        4 * want + 8 >= 5_000 ==> hours_needed(want) == 5_000,
{
}

/// A pane draws the divergences that have a chain on its instrument and its
/// period as context or comparison.
pub proof fn law_panes_draw_their_divergences(
    smts: Seq<SmtModel>,
    symbol: Seq<char>,
    tf: Timeframe,
    x: SmtModel,
)
    ensures
        drawn(smts, symbol, tf).contains(IctStructureModel::SmtDivergence(x)) <==> smts.contains(x)
            && (x.context_timeframe == tf || x.comparison_timeframe == tf) && exists|i: int|
            0 <= i < x.chains.len() && (#[trigger] x.chains[i]).symbol == symbol,
        drawn(smts, symbol, tf).len() <= smts.len(),
    decreases smts.len(),
{
    if smts.len() > 0 {
        let rest = smts.drop_last();
        law_panes_draw_their_divergences(rest, symbol, tf, x);
        lemma_push_contains(rest, smts.last(), x);
        lemma_push_contains(
            drawn(rest, symbol, tf),
            IctStructureModel::SmtDivergence(smts.last()),
            IctStructureModel::SmtDivergence(x),
        );
        assert(rest.push(smts.last()) =~= smts);
    }
}

/// A divergence in its third candle left a price area at a time.
pub open spec fn leaves(smt: SmtModel, id: Seq<char>, ts: i64) -> bool {
    &&& smt.htf_pda_ref matches Some(pda) && pda.id == id && pda.exit_ts == Some(ts)
    &&& exists|i: int| #[trigger]
        chain_at(smt.chains, smt.sweeper_symbol, i) && smt.chains[i].detection_state is C3Entry
}

/// A gap ends when a divergence in its third candle left it; of several the last
/// one counts. Nothing else of a gap changes, and other gaps stay open.
pub proof fn law_used_gaps_end(gap: FvgModel, smts: Seq<SmtModel>, k: int, ts: i64)
    requires
        0 <= k < smts.len(),
        leaves(smts[k], gap.id, ts),
        forall|j: int|
            k < j < smts.len() ==> !((#[trigger] smts[j]).htf_pda_ref matches Some(pda) && pda.id
                == gap.id),
    ensures
        end_stamped(IctStructureModel::Fvg(gap), smts) == IctStructureModel::Fvg(
            FvgModel { consumed_exit_ts: Some(ts), ..gap },
        ),
    decreases smts.len(),
{
    lemma_left(smts, gap.id, k, ts);
}

proof fn lemma_left(smts: Seq<SmtModel>, id: Seq<char>, k: int, ts: i64)
    requires
        0 <= k < smts.len(),
        leaves(smts[k], id, ts),
        forall|j: int|
            k < j < smts.len() ==> !((#[trigger] smts[j]).htf_pda_ref matches Some(pda) && pda.id
                == id),
    ensures
        left_at(smts, id) == Some(ts),
    decreases smts.len(),
{
    let rest = smts.drop_last();
    if k < rest.len() {
        assert(!(smts[smts.len() - 1].htf_pda_ref matches Some(pda) && pda.id == id));
        assert(rest[k] == smts[k]);
        assert forall|j: int| k < j < rest.len() implies !((
        #[trigger] rest[j]).htf_pda_ref matches Some(pda) && pda.id == id) by {
            assert(rest[j] == smts[j]);
        }
        lemma_left(rest, id, k, ts);
    } else {
        let smt = smts[k];
        let i = choose|i: int| #[trigger]
            chain_at(smt.chains, smt.sweeper_symbol, i) && smt.chains[i].detection_state is C3Entry;
        lemma_chain_at(smt.chains, smt.sweeper_symbol, i);
    }
}

/// A gap that no divergence with its identity left stays as it is.
pub proof fn law_unused_gaps_stay(gap: FvgModel, smts: Seq<SmtModel>)
    requires
        forall|j: int|
            0 <= j < smts.len() ==> !((#[trigger] smts[j]).htf_pda_ref matches Some(pda) && pda.id
                == gap.id && pda.exit_ts is Some),
    ensures
        end_stamped(IctStructureModel::Fvg(gap), smts) == IctStructureModel::Fvg(gap),
    decreases smts.len(),
{
    if smts.len() > 0 {
        let rest = smts.drop_last();
        assert forall|j: int| 0 <= j < rest.len() implies !((
        #[trigger] rest[j]).htf_pda_ref matches Some(pda) && pda.id == gap.id
            && pda.exit_ts is Some) by {
            assert(rest[j] == smts[j]);
        }
        law_unused_gaps_stay(gap, rest);
        assert(!(smts[smts.len() - 1].htf_pda_ref matches Some(pda) && pda.id == gap.id
            && pda.exit_ts is Some));
    }
}

/// A gap ends where it is used up or where it was left, whichever comes first.
pub proof fn law_the_earlier_end_counts(gap: FvgModel, ts: i64)
    ensures
        use_stamped(IctStructureModel::Fvg(gap), None) == IctStructureModel::Fvg(gap),
        use_stamped(IctStructureModel::Fvg(gap), Some(ts)) matches IctStructureModel::Fvg(g)
            && g.consumed_exit_ts matches Some(end) && end <= ts && (end == ts
            || gap.consumed_exit_ts == Some(end)) && (gap.consumed_exit_ts matches Some(held)
            ==> end <= held) && g.id == gap.id && g.price_low == gap.price_low && g.price_high
            == gap.price_high,
{
}

/// Cached structures are shown without their divergences, which are drawn anew.
pub proof fn law_divergences_are_drawn_anew(list: Seq<IctStructureModel>, x: IctStructureModel)
    ensures
        without_smts(list).contains(x) <==> list.contains(x) && !(x is SmtDivergence),
    decreases list.len(),
{
    if list.len() > 0 {
        let rest = list.drop_last();
        law_divergences_are_drawn_anew(rest, x);
        lemma_push_contains(rest, list.last(), x);
        lemma_push_contains(without_smts(rest), list.last(), x);
        assert(rest.push(list.last()) =~= list);
    }
}

/// What is added to live structures is stored, and has an identity that they lack.
pub proof fn law_only_missing_structures_are_added(
    list: Seq<IctStructureModel>,
    rows: Seq<IctStructureModel>,
    k: int,
)
    ensures
        list.len() <= with_new(list, rows).len() <= list.len() + rows.len(),
        list.len() <= k < with_new(list, rows).len() ==> rows.contains(with_new(list, rows)[k]),
        list.len() <= k < with_new(list, rows).len() ==> forall|j: int|
            0 <= j < k ==> id_of(#[trigger] with_new(list, rows)[j])
                != id_of(with_new(list, rows)[k]),
    decreases rows.len(),
{
    if rows.len() > 0 {
        let rest = rows.drop_last();
        let held = with_new(list, rest);
        let all = with_new(list, rows);
        law_only_missing_structures_are_added(list, rest, k);
        if list.len() <= k < all.len() {
            if k < held.len() {
                assert(all[k] == held[k]);
                let p = choose|p: int| 0 <= p < rest.len() && rest[p] == held[k];
                assert(rows[p] == all[k]);
                assert forall|j: int| 0 <= j < k implies id_of(
                    #[trigger] all[j],
                ) != id_of(all[k]) by {
                    assert(all[j] == held[j]);
                }
            } else {
                assert(all[k] == rows[rows.len() - 1]);
                assert forall|j: int| 0 <= j < k implies id_of(
                    #[trigger] all[j],
                ) != id_of(all[k]) by {
                    assert(all[j] == held[j]);
                }
            }
        }
    }
}

} // verus!
