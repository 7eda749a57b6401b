//! Replaying and auditing stored divergences: which candles are replayed, and
//! what is done with rows whose evidence no longer holds.
use vstd::prelude::*;
use crate::candidate::rules::{sweeper_detection_state, sweeper_state_of};
use crate::detector::{
    CandleRef, SmtDetectionState, SmtDivergence, SmtInvalidationReason, SmtModel,
};
use crate::smt::public::{find_last_smt, last_smt};
use crate::sorting::{sorted_by, stable_sort};
use crate::text::{text_before, text_lt};
use crate::types::{Bar, BarModel, Timeframe};

verus! {

/// How many candles may emit divergences.
pub const DETECTION_LIMIT: usize = 1_100;

/// How many candles are read where older ones are needed as context.
pub const CONTEXT_LIMIT: usize = 1_500;

/// The first candle at or after a time.
pub open spec fn first_from(bars: Seq<BarModel>, start: i64) -> nat
    decreases bars.len(),
{
    if bars.len() == 0 || bars[0].ts >= start {
        0
    } else {
        1 + first_from(bars.drop_first(), start)
    }
}

/// Where detection starts: at a time where one is given, and otherwise as far
/// from the end as the limit says. Older candles are context only.
pub open spec fn detection_start(
    bars: Seq<BarModel>,
    event_start: Option<i64>,
    limit: int,
) -> int {
    match event_start {
        Some(start) => first_from(bars, start) as int,
        None => if bars.len() > limit {
            bars.len() - limit
        } else {
            0
        },
    }
}

proof fn lemma_first_from(bars: Seq<BarModel>, start: i64)
    ensures
        first_from(bars, start) <= bars.len(),
        forall|i: int| 0 <= i < first_from(bars, start) ==> (#[trigger] bars[i]).ts < start,
        first_from(bars, start) < bars.len() ==> bars[first_from(bars, start) as int].ts >= start,
    decreases bars.len(),
{
    if bars.len() > 0 && bars[0].ts < start {
        let tail = bars.drop_first();
        lemma_first_from(tail, start);
        assert forall|i: int| 0 <= i < first_from(bars, start) implies (#[trigger] bars[i]).ts
            < start by {
            if i > 0 {
                assert(tail[i - 1] == bars[i]);
            }
        }
    }
}

/// Finds where detection starts.
pub fn replay_detection_start_index(
    bars: &[Bar],
    event_start: Option<i64>,
    detection_limit: usize,
) -> (r: usize)
    ensures
        r == detection_start(bars.deep_view(), event_start, detection_limit as int),
        r <= bars.len(),
{
    match event_start {
        Some(start) => {
            let mut i: usize = 0;
            let ghost goal = first_from(bars.deep_view(), start);
            assert(bars.deep_view().skip(0) =~= bars.deep_view());
            while i < bars.len() && bars[i].ts < start
                invariant
                    i <= bars.len(),
                    goal == first_from(bars.deep_view(), start),
                    goal == i + first_from(bars.deep_view().skip(i as int), start),
                decreases bars.len() - i,
            {
                proof {
                    let rest = bars.deep_view().skip(i as int);
                    assert(rest[0] == bars@[i as int]@);
                    assert(rest.drop_first() =~= bars.deep_view().skip(i + 1));
                }
                i += 1;
            }
            proof {
                let rest = bars.deep_view().skip(i as int);
                if i < bars.len() {
                    assert(rest[0] == bars@[i as int]@);
                }
            }
            i
        },
        None => if bars.len() > detection_limit {
            bars.len() - detection_limit
        } else {
            0
        },
    }
}

/// Detection takes every candle from its start on, and every candle before a
/// given time is context.
pub proof fn law_context_never_emits(bars: Seq<BarModel>, event_start: Option<i64>, limit: int)
    requires
        limit >= 0,
    ensures
        ({
            let n = detection_start(bars, event_start, limit);
            &&& 0 <= n <= bars.len()
            &&& bars.take(n) + bars.skip(n) == bars
            &&& event_start matches Some(start) ==> (forall|i: int|
                0 <= i < n ==> (#[trigger] bars[i]).ts < start)
        }),
{
    let n = detection_start(bars, event_start, limit);
    match event_start {
        Some(start) => lemma_first_from(bars, start),
        None => {},
    }
    assert(bars.take(n) + bars.skip(n) =~= bars);
}

/// The latest of the first times, if each history has one.
pub open spec fn latest_start(firsts: Seq<Option<i64>>) -> Option<i64>
    decreases firsts.len(),
{
    if firsts.len() == 0 {
        None
    } else if firsts.len() == 1 {
        firsts[0]
    } else {
        match (latest_start(firsts.drop_last()), firsts.last()) {
            (Some(a), Some(b)) => if b >= a {
                Some(b)
            } else {
                Some(a)
            },
            _ => None,
        }
    }
}

/// The common left edge of several histories: a divergence must be visible on
/// every instrument, so the latest edge counts, and there is none while one
/// history is missing.
pub fn common_detection_start(firsts: &Vec<Option<i64>>) -> (r: Option<i64>)
    ensures
        r == latest_start(firsts@),
{
    if firsts.len() == 0 {
        return None;
    }
    let mut best: Option<i64> = firsts[0];
    let mut i: usize = 1;
    assert(firsts@.take(1) =~= seq![firsts@[0]]);
    while i < firsts.len()
        invariant
            1 <= i <= firsts.len(),
            best == latest_start(firsts@.take(i as int)),
        decreases firsts.len() - i,
    {
        proof {
            let now = firsts@.take(i + 1);
            assert(now.drop_last() =~= firsts@.take(i as int));
            assert(now.last() == firsts@[i as int]);
        }
        best = match (best, firsts[i]) {
            (Some(a), Some(b)) => if b >= a {
                Some(b)
            } else {
                Some(a)
            },
            _ => None,
        };
        i += 1;
    }
    assert(firsts@.take(i as int) =~= firsts@);
    best
}

/// One pass of a replay.
#[derive(Debug, Clone, Copy, PartialEq, Eq, Structural)]
pub struct ReplayPass {
    pub tf: Timeframe,
    /// How many candles are read per instrument.
    pub load_limit: usize,
    /// Where detection starts.
    pub event_start: Option<i64>,
}

/// The passes of a replay: half hours and hours with older context, and four
/// hours only where their history covers every instrument. Hours are compared
/// on half hours and four hours on hours, so their detection starts where
/// those histories do.
pub open spec fn passes(h4_covered: bool, m30_start: Option<i64>, h1_start: Option<i64>) -> Seq<
    ReplayPass,
> {
    let fine = seq![
        ReplayPass { tf: Timeframe::M30, load_limit: CONTEXT_LIMIT, event_start: None },
        ReplayPass { tf: Timeframe::H1, load_limit: CONTEXT_LIMIT, event_start: m30_start },
    ];
    if h4_covered {
        fine.push(
            ReplayPass { tf: Timeframe::H4, load_limit: DETECTION_LIMIT, event_start: h1_start },
        )
    } else {
        fine
    }
}

/// Plans the passes of a replay.
pub fn replay_passes(h4_covered: bool, m30_start: Option<i64>, h1_start: Option<i64>) -> (r: Vec<
    ReplayPass,
>)
    ensures
        r@ == passes(h4_covered, m30_start, h1_start),
{
    let mut out: Vec<ReplayPass> = Vec::new();
    out.push(ReplayPass { tf: Timeframe::M30, load_limit: CONTEXT_LIMIT, event_start: None });
    out.push(ReplayPass { tf: Timeframe::H1, load_limit: CONTEXT_LIMIT, event_start: m30_start });
    if h4_covered {
        out.push(
            ReplayPass { tf: Timeframe::H4, load_limit: DETECTION_LIMIT, event_start: h1_start },
        );
    }
    assert(out@ =~= passes(h4_covered, m30_start, h1_start));
    out
}

/// One task of a replay.
#[derive(Debug, Clone, Copy, PartialEq, Eq, Structural)]
pub enum ReplayTask {
    /// Feed the stored candles of one period.
    Feed(ReplayPass),
    /// Complete the chains of stored rows.
    RepairChains,
    /// Give ended rows without a reason those that the candles prove.
    BackfillReasons,
    /// Rewrite ended rows with their canonical evidence.
    RewriteEnded,
    /// End live divergences whose evidence no longer holds.
    AuditLive,
    /// Compute the chart geometry of all rows anew.
    Redraw,
}

/// All tasks of a replay, in order: the candles come first, stored rows are
/// mended where the group is known, live divergences are audited on what was
/// mended, and what is drawn comes last.
pub open spec fn replay_plan(planned: Seq<ReplayPass>, grouped: bool) -> Seq<ReplayTask> {
    let feeds = planned.map_values(|p: ReplayPass| ReplayTask::Feed(p));
    let mends = if grouped {
        seq![ReplayTask::RepairChains, ReplayTask::BackfillReasons, ReplayTask::RewriteEnded]
    } else {
        Seq::empty()
    };
    feeds + mends + seq![ReplayTask::AuditLive, ReplayTask::Redraw]
}

/// Plans a replay. Nothing is done while another replay runs. `h4_issue` says
/// why four-hour candles cannot be replayed, and `m30_firsts` and `h1_firsts`
/// where the history of each instrument begins.
pub fn replay_tasks(
    running: bool,
    grouped: bool,
    h4_issue: &Option<String>,
    m30_firsts: &Vec<Option<i64>>,
    h1_firsts: &Vec<Option<i64>>,
) -> (r: Vec<ReplayTask>)
    ensures
        r@ == if running {
            Seq::empty()
        } else {
            replay_plan(
                passes(*h4_issue is None, latest_start(m30_firsts@), latest_start(h1_firsts@)),
                grouped,
            )
        },
{
    let mut out: Vec<ReplayTask> = Vec::new();
    if running {
        return out;
    }
    let m30_start = common_detection_start(m30_firsts);
    let h1_start = common_detection_start(h1_firsts);
    let planned = replay_passes(h4_issue.is_none(), m30_start, h1_start);
    let mut i: usize = 0;
    while i < planned.len()
        invariant
            i <= planned.len(),
            out@ == planned@.take(i as int).map_values(|p: ReplayPass| ReplayTask::Feed(p)),
        decreases planned.len() - i,
    {
        out.push(ReplayTask::Feed(planned[i]));
        assert(out@ =~= planned@.take(i + 1).map_values(|p: ReplayPass| ReplayTask::Feed(p)));
        i += 1;
    }
    assert(planned@.take(i as int) =~= planned@);
    if grouped {
        out.push(ReplayTask::RepairChains);
        out.push(ReplayTask::BackfillReasons);
        out.push(ReplayTask::RewriteEnded);
    }
    out.push(ReplayTask::AuditLive);
    out.push(ReplayTask::Redraw);
    assert(out@ =~= replay_plan(planned@, grouped));
    out
}

/// No divergence is judged before every candle was fed, and the geometry is
/// computed last.
pub proof fn law_audits_follow_every_candle(planned: Seq<ReplayPass>, grouped: bool, i: int, j: int)
    requires
        0 <= i < replay_plan(planned, grouped).len(),
        0 <= j < replay_plan(planned, grouped).len(),
        replay_plan(planned, grouped)[i] is Feed,
        !(replay_plan(planned, grouped)[j] is Feed),
    ensures
        i < j,
        replay_plan(planned, grouped).last() is Redraw,
        replay_plan(planned, grouped)[replay_plan(planned, grouped).len() - 2] is AuditLive,
{
}

/// Candles are replayed by time, and at one time by the name of their
/// instrument.
pub open spec fn replay_order() -> spec_fn(BarModel, BarModel) -> bool {
    |a: BarModel, b: BarModel|
        a.ts < b.ts || (a.ts == b.ts && text_before(a.symbol, b.symbol))
}

/// The context candles of several histories, one history after another.
pub open spec fn context_of(
    histories: Seq<Seq<BarModel>>,
    event_start: Option<i64>,
    limit: int,
) -> Seq<BarModel>
    decreases histories.len(),
{
    if histories.len() == 0 {
        Seq::empty()
    } else {
        let bars = histories.last();
        context_of(histories.drop_last(), event_start, limit) + bars.take(
            detection_start(bars, event_start, limit),
        )
    }
}

/// The emitting candles of several histories, one history after another.
pub open spec fn emitting(
    histories: Seq<Seq<BarModel>>,
    event_start: Option<i64>,
    limit: int,
) -> Seq<BarModel>
    decreases histories.len(),
{
    if histories.len() == 0 {
        Seq::empty()
    } else {
        let bars = histories.last();
        emitting(histories.drop_last(), event_start, limit) + bars.skip(
            detection_start(bars, event_start, limit),
        )
    }
}

/// What one pass feeds to the detector.
#[derive(Debug)]
pub struct ReplayBatch {
    /// Candles that are known but emit nothing.
    pub context: Vec<Bar>,
    pub bars: Vec<Bar>,
}

fn push_range(out: &mut Vec<Bar>, bars: &Vec<Bar>, from: usize, to: usize)
    requires
        from <= to <= bars.len(),
    ensures
        final(out).deep_view() == old(out).deep_view() + bars.deep_view().subrange(
            from as int,
            to as int,
        ),
{
    let mut i: usize = from;
    let ghost before = out.deep_view();
    assert(bars.deep_view().subrange(from as int, from as int) =~= Seq::<BarModel>::empty());
    assert(out.deep_view() =~= before + bars.deep_view().subrange(from as int, from as int));
    while i < to
        invariant
            from <= i <= to <= bars.len(),
            out.deep_view() == before + bars.deep_view().subrange(from as int, i as int),
        decreases to - i,
    {
        let ghost had = out.deep_view();
        out.push(bars[i].clone());
        assert(out.deep_view() =~= had.push(bars@[i as int]@));
        assert(out.deep_view() =~= before + bars.deep_view().subrange(from as int, i + 1));
        i += 1;
    }
}

fn sort_for_replay(bars: Vec<Bar>) -> (r: Vec<Bar>)
    ensures
        r.deep_view() == sorted_by(bars.deep_view(), replay_order()),
{
    let comes_before = |a: &Bar, b: &Bar| -> (r: bool)
        ensures
            r == (a@.ts < b@.ts || (a@.ts == b@.ts && text_before(a@.symbol, b@.symbol))),
        { a.ts < b.ts || (a.ts == b.ts && text_lt(a.symbol.as_str(), b.symbol.as_str())) };
    stable_sort(bars, comes_before, Ghost(replay_order()))
}

/// Splits the histories of all instruments into context and emitting candles
/// and interleaves the instruments by time.
pub fn split_replay(
    histories: &Vec<Vec<Bar>>,
    event_start: Option<i64>,
    detection_limit: usize,
) -> (r: ReplayBatch)
    ensures
        r.context.deep_view() == sorted_by(
            context_of(histories.deep_view(), event_start, detection_limit as int),
            replay_order(),
        ),
        r.bars.deep_view() == sorted_by(
            emitting(histories.deep_view(), event_start, detection_limit as int),
            replay_order(),
        ),
{
    let mut context: Vec<Bar> = Vec::new();
    let mut bars: Vec<Bar> = Vec::new();
    let mut i: usize = 0;
    assert(context.deep_view() =~= Seq::<BarModel>::empty());
    assert(bars.deep_view() =~= Seq::<BarModel>::empty());
    while i < histories.len()
        invariant
            i <= histories.len(),
            context.deep_view() == context_of(
                histories.deep_view().take(i as int),
                event_start,
                detection_limit as int,
            ),
            bars.deep_view() == emitting(
                histories.deep_view().take(i as int),
                event_start,
                detection_limit as int,
            ),
        decreases histories.len() - i,
    {
        let one = &histories[i];
        let n: usize = replay_detection_start_index(one.as_slice(), event_start, detection_limit);
        proof {
            let now = histories.deep_view().take(i + 1);
            assert(now.drop_last() =~= histories.deep_view().take(i as int));
            assert(now.last() == one.deep_view());
            assert(one.deep_view().subrange(0, n as int) =~= one.deep_view().take(n as int));
            assert(one.deep_view().subrange(n as int, one.len() as int)
                =~= one.deep_view().skip(n as int));
        }
        push_range(&mut context, one, 0, n);
        push_range(&mut bars, one, n, one.len());
        i += 1;
    }
    assert(histories.deep_view().take(i as int) =~= histories.deep_view());
    ReplayBatch { context: sort_for_replay(context), bars: sort_for_replay(bars) }
}

/// All reasons in the order in which they are listed.
pub open spec fn all_reasons() -> Seq<SmtInvalidationReason> {
    seq![
        SmtInvalidationReason::SweeperC2Failed,
        SmtInvalidationReason::SweeperC3Failed,
        SmtInvalidationReason::AllCountersSwept,
        SmtInvalidationReason::CanonicalReferenceChanged,
        SmtInvalidationReason::CanonicalSweepInvalid,
        SmtInvalidationReason::ReferenceAlreadyTaken,
        SmtInvalidationReason::CanonicalChainChanged,
        SmtInvalidationReason::PdaConsumedByOtherSmt,
        SmtInvalidationReason::HtfFormationCancelled,
    ]
}

/// Those of some reasons that a list holds.
pub open spec fn present(
    among: Seq<SmtInvalidationReason>,
    list: Seq<SmtInvalidationReason>,
) -> Seq<SmtInvalidationReason>
    decreases among.len(),
{
    if among.len() == 0 {
        Seq::empty()
    } else if list.contains(among.last()) {
        present(among.drop_last(), list).push(among.last())
    } else {
        present(among.drop_last(), list)
    }
}

/// The reasons of a list, each once and in order.
pub open spec fn in_order(list: Seq<SmtInvalidationReason>) -> Seq<SmtInvalidationReason> {
    present(all_reasons(), list)
}

fn has_reason(list: &Vec<SmtInvalidationReason>, reason: SmtInvalidationReason) -> (r: bool)
    ensures
        r == list@.contains(reason),
{
    let mut i: usize = 0;
    while i < list.len()
        invariant
            i <= list.len(),
            forall|k: int| 0 <= k < i ==> #[trigger] list@[k] != reason,
        decreases list.len() - i,
    {
        if list[i] == reason {
            assert(list@[i as int] == reason);
            return true;
        }
        i += 1;
    }
    false
}

/// Orders reasons and drops repeats.
pub fn order_reasons(list: &Vec<SmtInvalidationReason>) -> (r: Vec<SmtInvalidationReason>)
    ensures
        r@ == in_order(list@),
{
    let all: Vec<SmtInvalidationReason> = vec![
        SmtInvalidationReason::SweeperC2Failed,
        SmtInvalidationReason::SweeperC3Failed,
        SmtInvalidationReason::AllCountersSwept,
        SmtInvalidationReason::CanonicalReferenceChanged,
        SmtInvalidationReason::CanonicalSweepInvalid,
        SmtInvalidationReason::ReferenceAlreadyTaken,
        SmtInvalidationReason::CanonicalChainChanged,
        SmtInvalidationReason::PdaConsumedByOtherSmt,
        SmtInvalidationReason::HtfFormationCancelled,
    ];
    assert(all@ =~= all_reasons());
    let mut out: Vec<SmtInvalidationReason> = Vec::new();
    let mut i: usize = 0;
    while i < all.len()
        invariant
            i <= all.len(),
            all@ == all_reasons(),
            out@ == present(all@.take(i as int), list@),
        decreases all.len() - i,
    {
        proof {
            let now = all@.take(i + 1);
            assert(now.drop_last() =~= all@.take(i as int));
            assert(now.last() == all@[i as int]);
        }
        if has_reason(list, all[i]) {
            out.push(all[i]);
        }
        i += 1;
    }
    assert(all@.take(i as int) =~= all@);
    out
}

/// The position of a reason in the list of all.
pub open spec fn reason_rank(reason: SmtInvalidationReason) -> int {
    match reason {
        SmtInvalidationReason::SweeperC2Failed => 0,
        SmtInvalidationReason::SweeperC3Failed => 1,
        SmtInvalidationReason::AllCountersSwept => 2,
        SmtInvalidationReason::CanonicalReferenceChanged => 3,
        SmtInvalidationReason::CanonicalSweepInvalid => 4,
        SmtInvalidationReason::ReferenceAlreadyTaken => 5,
        SmtInvalidationReason::CanonicalChainChanged => 6,
        SmtInvalidationReason::PdaConsumedByOtherSmt => 7,
        SmtInvalidationReason::HtfFormationCancelled => 8,
    }
}

proof fn lemma_present(n: int, list: Seq<SmtInvalidationReason>)
    requires
        0 <= n <= 9,
    ensures
        ({
            let p = present(all_reasons().take(n), list);
            &&& forall|i: int|
                0 <= i < p.len() ==> list.contains(#[trigger] p[i]) && reason_rank(p[i]) < n
            &&& forall|i: int, j: int|
                0 <= i < j < p.len() ==> reason_rank(#[trigger] p[i]) < reason_rank(
                    #[trigger] p[j],
                )
            &&& forall|r: SmtInvalidationReason|
                list.contains(r) && reason_rank(r) < n ==> #[trigger] p.contains(r)
        }),
    decreases n,
{
    if n > 0 {
        lemma_present(n - 1, list);
        let now = all_reasons().take(n);
        assert(now.drop_last() =~= all_reasons().take(n - 1));
        assert(now.last() == all_reasons()[n - 1]);
        assert(reason_rank(all_reasons()[n - 1]) == n - 1);
        let before = present(all_reasons().take(n - 1), list);
        let p = present(now, list);
        assert forall|r: SmtInvalidationReason|
            list.contains(r) && reason_rank(r) < n implies #[trigger] p.contains(r) by {
            if reason_rank(r) < n - 1 {
                assert(before.contains(r));
                let k = choose|k: int| 0 <= k < before.len() && before[k] == r;
                assert(p[k] == r);
            } else {
                assert(r == all_reasons()[n - 1]);
                assert(p[p.len() - 1] == r);
            }
        }
    }
}

/// Ordering keeps exactly the reasons that were there, each once, by rank.
pub proof fn law_reasons_are_kept_once(list: Seq<SmtInvalidationReason>)
    ensures
        forall|r: SmtInvalidationReason| #[trigger] in_order(list).contains(r) == list.contains(r),
        forall|i: int, j: int|
            0 <= i < j < in_order(list).len() ==> reason_rank(#[trigger] in_order(list)[i])
                < reason_rank(#[trigger] in_order(list)[j]),
{
    lemma_present(9, list);
    assert(all_reasons().take(9) =~= all_reasons());
    assert forall|r: SmtInvalidationReason| #[trigger]
        in_order(list).contains(r) == list.contains(r) by {
        if in_order(list).contains(r) {
            let k = choose|k: int| 0 <= k < in_order(list).len() && in_order(list)[k] == r;
            assert(list.contains(in_order(list)[k]));
        }
    }
}

/// What the replayed candles say against a divergence.
#[derive(Debug)]
pub struct AuditFindings {
    /// Reasons that the history of the price area gives.
    pub history: Option<Vec<SmtInvalidationReason>>,
    /// A reason that the second candle gives.
    pub c2: Option<SmtInvalidationReason>,
    /// A reason that the chains give.
    pub chain: Option<SmtInvalidationReason>,
}

/// All reasons that were found.
pub open spec fn findings_of(f: AuditFindings) -> Seq<SmtInvalidationReason> {
    let history = match f.history {
        Some(list) => list@,
        None => Seq::empty(),
    };
    history + optional(f.c2) + optional(f.chain)
}

/// A reason as a list.
pub open spec fn optional(reason: Option<SmtInvalidationReason>) -> Seq<SmtInvalidationReason> {
    match reason {
        Some(r) => seq![r],
        None => Seq::empty(),
    }
}

fn collect_reasons(base: &Vec<SmtInvalidationReason>, f: &AuditFindings) -> (r: Vec<
    SmtInvalidationReason,
>)
    ensures
        r@ == in_order(base@ + findings_of(*f)),
{
    let mut all: Vec<SmtInvalidationReason> = base.clone();
    assert(all@ =~= base@);
    match &f.history {
        Some(list) => {
            let mut more = list.clone();
            assert(more@ =~= list@);
            all.append(&mut more);
        },
        None => {},
    }
    match f.c2 {
        Some(reason) => all.push(reason),
        None => {},
    }
    match f.chain {
        Some(reason) => all.push(reason),
        None => {},
    }
    assert(all@ =~= base@ + findings_of(*f));
    order_reasons(&all)
}

/// The sweeper of the divergence has ended.
pub open spec fn ended(smt: SmtModel) -> bool {
    sweeper_state_of(smt) == Some(SmtDetectionState::Invalidated)
}

/// Whether the sweeper of a divergence has ended.
pub fn has_ended(smt: &SmtDivergence) -> (r: bool)
    ensures
        r == ended(smt@),
{
    match sweeper_detection_state(smt) {
        Some(s) => s == SmtDetectionState::Invalidated,
        None => false,
    }
}

/// Whether a row with repaired chains goes back to the live detector.
pub fn stays_live(repaired: &SmtDivergence) -> (r: bool)
    ensures
        r == !ended(repaired@),
{
    !has_ended(repaired)
}

/// The reasons that a stored row is given: only an ended row without a reason
/// gets some, and only those that the candles prove.
pub open spec fn backfilled(row: SmtModel, f: AuditFindings) -> Option<
    Seq<SmtInvalidationReason>,
> {
    let reasons = in_order(findings_of(f));
    if row.invalidation_reasons.len() == 0 && ended(row) && reasons.len() > 0 {
        Some(reasons)
    } else {
        None
    }
}

/// Finds the reasons that a stored row is given.
pub fn backfill_reasons(row: &SmtDivergence, f: &AuditFindings) -> (r: Option<
    Vec<SmtInvalidationReason>,
>)
    ensures
        match r {
            Some(list) => backfilled(row@, *f) == Some(list@),
            None => backfilled(row@, *f) is None,
        },
{
    if row.invalidation_reasons.len() != 0 || !has_ended(row) {
        return None;
    }
    let none: Vec<SmtInvalidationReason> = Vec::new();
    let reasons = collect_reasons(&none, f);
    assert(none@ + findings_of(*f) =~= findings_of(*f));
    if reasons.len() == 0 {
        return None;
    }
    Some(reasons)
}

/// A row that is written back with its reasons.
#[derive(Debug)]
pub struct AuditedRow {
    pub snapshot: SmtDivergence,
    pub reasons: Vec<SmtInvalidationReason>,
}

/// Mathematical content of an [`AuditedRow`].
pub struct AuditedModel {
    pub snapshot: SmtModel,
    pub reasons: Seq<SmtInvalidationReason>,
}

impl View for AuditedRow {
    type V = AuditedModel;

    open spec fn view(&self) -> AuditedModel {
        AuditedModel { snapshot: self.snapshot@, reasons: self.reasons@ }
    }
}

impl DeepView for AuditedRow {
    type V = AuditedModel;

    open spec fn deep_view(&self) -> AuditedModel {
        self@
    }
}

/// How an ended row is rewritten: with its canonical evidence, where the
/// candles give it, and with the old and the new reasons.
pub open spec fn rewritten(row: SmtModel, f: AuditFindings, canonical: Option<SmtModel>) -> Option<
    AuditedModel,
> {
    let reasons = in_order(row.invalidation_reasons + findings_of(f));
    match canonical {
        Some(snapshot) => if ended(row) && reasons.len() > 0 {
            Some(AuditedModel { snapshot, reasons })
        } else {
            None
        },
        None => None,
    }
}

/// Rewrites an ended row.
pub fn rewrite_ended_row(
    row: &SmtDivergence,
    f: &AuditFindings,
    canonical: Option<SmtDivergence>,
) -> (r: Option<AuditedRow>)
    ensures
        r.deep_view() == rewritten(row@, *f, canonical.deep_view()),
{
    if !has_ended(row) {
        return None;
    }
    let reasons = collect_reasons(&row.invalidation_reasons, f);
    match canonical {
        None => None,
        Some(snapshot) => if reasons.len() > 0 {
            Some(AuditedRow { snapshot, reasons })
        } else {
            None
        },
    }
}

/// What is found against a live divergence: its second candle is left to the
/// detector.
pub open spec fn live_findings(f: AuditFindings) -> AuditFindings {
    AuditFindings { c2: None, ..f }
}

/// What an audit says of a live divergence: nothing where no reason was found,
/// else the reasons with the canonical evidence, or the divergence itself
/// where there is none.
pub open spec fn audited(live: SmtModel, f: AuditFindings, canonical: Option<SmtModel>) -> Option<
    AuditedModel,
> {
    let reasons = in_order(findings_of(live_findings(f)));
    if reasons.len() == 0 {
        None
    } else {
        Some(
            AuditedModel {
                snapshot: match canonical {
                    Some(snapshot) => snapshot,
                    None => live,
                },
                reasons,
            },
        )
    }
}

/// Audits a live divergence.
pub fn audit_live(live: &SmtDivergence, f: AuditFindings, canonical: Option<SmtDivergence>) -> (r:
    Option<AuditedRow>)
    ensures
        r.deep_view() == audited(live@, f, canonical.deep_view()),
{
    let none: Vec<SmtInvalidationReason> = Vec::new();
    let against = AuditFindings { c2: None, ..f };
    let reasons = collect_reasons(&none, &against);
    assert(none@ + findings_of(against) =~= findings_of(against));
    if reasons.len() == 0 {
        return None;
    }
    let snapshot = match canonical {
        Some(snapshot) => snapshot,
        None => live.clone(),
    };
    Some(AuditedRow { snapshot, reasons })
}

/// The row that ends a divergence at a market time.
pub fn terminal_snapshot(row: &AuditedRow, market_ts: i64) -> (r: SmtDivergence)
    ensures
        r@ == (SmtModel {
            invalidation_ts: Some(market_ts),
            invalidation_reasons: row@.reasons,
            ..row@.snapshot
        }),
{
    let mut out = row.snapshot.clone();
    let reasons = row.reasons.clone();
    assert(reasons@ =~= row.reasons@);
    out.invalidation_ts = Some(market_ts);
    out.invalidation_reasons = reasons;
    out
}

proof fn lemma_nothing_found(list: Seq<SmtInvalidationReason>)
    requires
        list.len() == 0,
    ensures
        in_order(list).len() == 0,
{
    law_reasons_are_kept_once(list);
    let p = in_order(list);
    if p.len() > 0 {
        assert(p.contains(p[0]));
        assert(list.contains(p[0]));
    }
}

/// A divergence whose reasons are recorded is never given others by a
/// backfill, and one that nothing speaks against is left alone.
pub proof fn law_audit_needs_evidence(
    row: SmtModel,
    f: AuditFindings,
    canonical: Option<SmtModel>,
)
    ensures
        row.invalidation_reasons.len() > 0 ==> backfilled(row, f) is None,
        findings_of(f).len() == 0 ==> audited(row, f, canonical) is None && backfilled(row, f)
            is None,
        !ended(row) ==> backfilled(row, f) is None && rewritten(row, f, canonical) is None,
        canonical is None ==> rewritten(row, f, canonical) is None,
{
    if findings_of(f).len() == 0 {
        lemma_nothing_found(findings_of(f));
        lemma_nothing_found(findings_of(live_findings(f)));
    }
}

/// An ended row keeps every reason that it had.
pub proof fn law_recorded_reasons_survive(
    row: SmtModel,
    f: AuditFindings,
    canonical: Option<SmtModel>,
    reason: SmtInvalidationReason,
)
    requires
        row.invalidation_reasons.contains(reason),
        rewritten(row, f, canonical) is Some,
    ensures
        rewritten(row, f, canonical)->0.reasons.contains(reason),
{
    let all = row.invalidation_reasons + findings_of(f);
    law_reasons_are_kept_once(all);
    let k = choose|k: int|
        0 <= k < row.invalidation_reasons.len() && row.invalidation_reasons[k] == reason;
    assert(all[k] == reason);
    assert(all.contains(reason));
}

/// Stored rows that have no live divergence.
pub open spec fn unknown_rows(stored: Seq<SmtModel>, live: Seq<SmtModel>) -> Seq<SmtModel>
    decreases stored.len(),
{
    if stored.len() == 0 {
        Seq::empty()
    } else if last_smt(live, stored.last().id) is None {
        unknown_rows(stored.drop_last(), live).push(stored.last())
    } else {
        unknown_rows(stored.drop_last(), live)
    }
}

/// The rows whose chart geometry is computed anew: the live divergences and
/// the stored rows that are not live, ended ones among them.
pub fn geometry_rows(live: &Vec<SmtDivergence>, stored: &Vec<SmtDivergence>) -> (r: Vec<
    SmtDivergence,
>)
    ensures
        r.deep_view() == live.deep_view() + unknown_rows(stored.deep_view(), live.deep_view()),
{
    let mut out: Vec<SmtDivergence> = live.clone();
    assert(out.deep_view() =~= live.deep_view());
    let mut i: usize = 0;
    assert(out.deep_view() =~= live.deep_view() + unknown_rows(
        stored.deep_view().take(0),
        live.deep_view(),
    ));
    while i < stored.len()
        invariant
            i <= stored.len(),
            out.deep_view() == live.deep_view() + unknown_rows(
                stored.deep_view().take(i as int),
                live.deep_view(),
            ),
        decreases stored.len() - i,
    {
        let ghost before = out.deep_view();
        proof {
            let now = stored.deep_view().take(i + 1);
            assert(now.drop_last() =~= stored.deep_view().take(i as int));
            assert(now.last() == stored@[i as int]@);
        }
        if find_last_smt(live, stored[i].id.as_str()).is_none() {
            out.push(stored[i].clone());
            assert(out.deep_view() =~= before.push(stored@[i as int]@));
            assert(out.deep_view() =~= live.deep_view() + unknown_rows(
                stored.deep_view().take(i + 1),
                live.deep_view(),
            ));
        }
        i += 1;
    }
    assert(stored.deep_view().take(i as int) =~= stored.deep_view());
    out
}

/// A row with new chart geometry, and what is done with it.
#[derive(Debug)]
pub struct GeometryStep {
    pub row: SmtDivergence,
    /// The display end of its price area is stamped.
    pub stamp: bool,
    /// It goes back to the live detector.
    pub refresh: bool,
}

/// Sets the chart geometry of a row. A row without a price area is only
/// stored, and an ended row never becomes live again.
pub fn geometry_step(row: &SmtDivergence, endpoint: Option<CandleRef>, live: &Vec<SmtDivergence>) -> (r:
    GeometryStep)
    ensures
        r.row@ == (SmtModel {
            mtf_ref_candle: if endpoint is Some {
                endpoint
            } else {
                row@.mtf_ref_candle
            },
            ..row@
        }),
        r.stamp == (row@.htf_pda_ref is Some),
        r.refresh == (row@.htf_pda_ref is Some && last_smt(live.deep_view(), row@.id) is Some),
{
    let mut out = row.clone();
    if endpoint.is_some() {
        out.mtf_ref_candle = endpoint;
    }
    let stamp = row.htf_pda_ref.is_some();
    let known = find_last_smt(live, row.id.as_str()).is_some();
    GeometryStep { row: out, stamp, refresh: stamp && known }
}

} // verus!
