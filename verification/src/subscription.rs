//! What is subscribed, and what the worker of one instrument does with live
//! candles and with batches of history.
use vstd::prelude::*;
use crate::aggregator::{
    acceptable, batch_closed, fresh, open_candle, step_events, stepped, AggregatorModel,
    SymbolAggregator,
};
use crate::history::{closes_of, collect_closes, usable_minutes};
use crate::sorting::{sorted_by, stable_sort};
use crate::text::{list_has, owned, text_before, text_lt};
use crate::types::{Bar, BarEvent, BarEventModel, BarModel, Timeframe};
use crate::watchlist::{
    add_texts, monitored_symbol_union, union_of, with_texts, Watchlist, WatchlistModel,
};

verus! {

/// One thing that a worker wants done.
#[derive(Debug)]
pub enum WorkerAction {
    /// Store a closed candle.
    Store(Bar),
    /// Show a candle to the interface.
    Show { bar: Bar, closed: bool },
    /// Hand a closed candle to the detectors.
    DetectClosed(Bar),
    /// Hand an open candle to the detectors.
    DetectOpen(Bar),
    /// Replay a closed candle through the detectors.
    Seed(Bar),
    /// Hand a closed candle to the divergence detectors of its groups.
    Feed { bar: Bar, historical: bool },
    /// Hand a five-minute close to the candidates of its groups. Historical
    /// closes count at their own time, live ones now.
    FeedReversals { bar: Bar, seeding: bool },
    /// Store the structures that the replay changed.
    Persist,
}

/// Mathematical content of a [`WorkerAction`].
pub enum ActionModel {
    Store(BarModel),
    Show { bar: BarModel, closed: bool },
    DetectClosed(BarModel),
    DetectOpen(BarModel),
    Seed(BarModel),
    Feed { bar: BarModel, historical: bool },
    FeedReversals { bar: BarModel, seeding: bool },
    Persist,
}

impl View for WorkerAction {
    type V = ActionModel;

    open spec fn view(&self) -> ActionModel {
        match *self {
            WorkerAction::Store(b) => ActionModel::Store(b@),
            WorkerAction::Show { bar, closed } => ActionModel::Show { bar: bar@, closed },
            WorkerAction::DetectClosed(b) => ActionModel::DetectClosed(b@),
            WorkerAction::DetectOpen(b) => ActionModel::DetectOpen(b@),
            WorkerAction::Seed(b) => ActionModel::Seed(b@),
            WorkerAction::Feed { bar, historical } => ActionModel::Feed { bar: bar@, historical },
            WorkerAction::FeedReversals { bar, seeding } => ActionModel::FeedReversals {
                bar: bar@,
                seeding,
            },
            WorkerAction::Persist => ActionModel::Persist,
        }
    }
}

impl DeepView for WorkerAction {
    type V = ActionModel;

    open spec fn deep_view(&self) -> ActionModel {
        self@
    }
}

/// What is done with a candle event of any period.
pub open spec fn live_actions(evt: BarEventModel) -> Seq<ActionModel> {
    match evt {
        BarEventModel::BarClosed(bar) => {
            let all = seq![
                ActionModel::Store(bar),
                ActionModel::Show { bar, closed: true },
                ActionModel::DetectClosed(bar),
                ActionModel::Feed { bar, historical: false },
            ];
            if bar.tf is M5 {
                all.push(ActionModel::FeedReversals { bar, seeding: false })
            } else {
                all
            }
        },
        BarEventModel::BarUpdate(bar) => seq![
            ActionModel::Show { bar, closed: false },
            ActionModel::DetectOpen(bar),
        ],
        BarEventModel::Historical(_) => Seq::empty(),
    }
}

/// What is done with several candle events.
pub open spec fn all_live_actions(events: Seq<BarEventModel>) -> Seq<ActionModel>
    decreases events.len(),
{
    if events.len() == 0 {
        Seq::empty()
    } else {
        all_live_actions(events.drop_last()) + live_actions(events.last())
    }
}

fn push_live(out: &mut Vec<WorkerAction>, evt: &BarEvent)
    ensures
        final(out).deep_view() == old(out).deep_view() + live_actions(evt@),
{
    let ghost before = out.deep_view();
    match evt {
        BarEvent::BarClosed(bar) => {
            out.push(WorkerAction::Store(bar.clone()));
            out.push(WorkerAction::Show { bar: bar.clone(), closed: true });
            out.push(WorkerAction::DetectClosed(bar.clone()));
            out.push(WorkerAction::Feed { bar: bar.clone(), historical: false });
            if bar.tf == Timeframe::M5 {
                out.push(WorkerAction::FeedReversals { bar: bar.clone(), seeding: false });
            }
        },
        BarEvent::BarUpdate(bar) => {
            out.push(WorkerAction::Show { bar: bar.clone(), closed: false });
            out.push(WorkerAction::DetectOpen(bar.clone()));
        },
        BarEvent::Historical(_) => {},
    }
    assert(out.deep_view() =~= before + live_actions(evt@));
}

/// What is done with a higher candle that a batch of history completed.
pub open spec fn late_actions(bar: BarModel) -> Seq<ActionModel> {
    let all = seq![
        ActionModel::Store(bar),
        ActionModel::Seed(bar),
        ActionModel::Feed { bar, historical: true },
    ];
    if bar.tf is M5 {
        all.push(ActionModel::FeedReversals { bar, seeding: true })
    } else {
        all
    }
}

/// What is done with several such candles.
pub open spec fn all_late_actions(bars: Seq<BarModel>) -> Seq<ActionModel>
    decreases bars.len(),
{
    if bars.len() == 0 {
        Seq::empty()
    } else {
        all_late_actions(bars.drop_last()) + late_actions(bars.last())
    }
}

/// What is done with a batch of history: the minutes are replayed through the
/// detectors, then through the divergence detectors, and then the higher
/// candles that they complete follow.
pub open spec fn batch_actions(s: AggregatorModel, bars: Seq<BarModel>) -> Seq<ActionModel> {
    if bars.len() == 0 {
        Seq::empty()
    } else {
        Seq::new(bars.len(), |i: int| ActionModel::Seed(bars[i])) + Seq::new(
            bars.len(),
            |i: int| ActionModel::Feed { bar: bars[i], historical: true },
        ) + seq![ActionModel::Persist] + all_late_actions(closes_of(s, bars))
            + seq![ActionModel::Persist]
    }
}

/// What is left to do for one instrument after a batch of history.
#[derive(Debug, Clone, Copy, PartialEq, Eq, Structural)]
pub enum RangeStep {
    /// Nothing: it was done before.
    Done,
    /// Keep the stored three-phase structures and detect live ones.
    Enable,
    /// Replay three-phase detection over the whole history.
    Replay,
}

/// What follows a batch of history.
#[derive(Debug, Clone, Copy, PartialEq, Eq, Structural)]
pub struct Aftermath {
    pub ranges: RangeStep,
    /// Replay the candidates of the instrument's groups.
    pub replay_candidates: bool,
    /// Tell the interface to read everything again.
    pub announce: bool,
}

/// The minutes that a batch of history adds to what the detectors know.
#[derive(Debug)]
pub struct HistoryPlan {
    /// The detectors forget what they know of the instrument first.
    pub clear: bool,
    pub bars: Vec<Bar>,
}

/// The candles after a time.
pub open spec fn after(bars: Seq<BarModel>, ts: i64) -> Seq<BarModel>
    decreases bars.len(),
{
    if bars.len() == 0 {
        Seq::empty()
    } else if bars.last().ts > ts {
        after(bars.drop_last(), ts).push(bars.last())
    } else {
        after(bars.drop_last(), ts)
    }
}

/// The worker of one instrument.
pub struct SymbolWorker {
    aggregator: SymbolAggregator,
    ranges_done: bool,
}

/// Mathematical content of a [`SymbolWorker`].
pub struct WorkerModel {
    pub aggregator: AggregatorModel,
    /// The first batch of history has been taken.
    pub ranges_done: bool,
}

impl View for SymbolWorker {
    type V = WorkerModel;

    closed spec fn view(&self) -> WorkerModel {
        WorkerModel { aggregator: self.aggregator@, ranges_done: self.ranges_done }
    }
}

/// The whole batch is replayed: it is the first one, and the detectors do not
/// know the instrument.
pub open spec fn takes_all(w: WorkerModel, already_seeded: bool) -> bool {
    !w.ranges_done && !already_seeded
}

/// The minutes that are replayed: all of a first batch, and otherwise only
/// those after the last known one.
pub open spec fn to_seed(
    w: WorkerModel,
    already_seeded: bool,
    last_ts: Option<i64>,
    bars: Seq<BarModel>,
) -> Seq<BarModel> {
    if takes_all(w, already_seeded) {
        bars
    } else {
        after(
            bars,
            match last_ts {
                Some(ts) => ts,
                None => 0,
            },
        )
    }
}

impl SymbolWorker {
    /// A worker that has seen nothing.
    pub fn new(symbol: &str) -> (r: Self)
        ensures
            r@ == (WorkerModel { aggregator: fresh(symbol@), ranges_done: false }),
            r@.aggregator.wf(),
    {
        SymbolWorker { aggregator: SymbolAggregator::new(symbol), ranges_done: false }
    }

    /// The open candle of a period, as a chart of the instrument draws it last.
    pub fn current(&self, tf: Timeframe) -> (r: Option<&Bar>)
        requires
            self@.aggregator.wf(),
        ensures
            r.deep_view() == open_candle(self@.aggregator, tf),
    {
        self.aggregator.current(tf)
    }

    /// Warms the worker up from stored minutes and returns the higher candles
    /// that they complete.
    pub fn warm_start(&mut self, minutes: &Vec<Bar>) -> (r: Vec<Bar>)
        requires
            old(self)@.aggregator.wf(),
            usable_minutes(minutes.deep_view()),
        ensures
            final(self)@ == (WorkerModel {
                aggregator: batch_closed(old(self)@.aggregator, minutes.deep_view()),
                ..old(self)@
            }),
            r.deep_view() == closes_of(old(self)@.aggregator, minutes.deep_view()),
            final(self)@.aggregator.wf(),
    {
        assert(minutes.deep_view().subrange(0, minutes.len() as int) =~= minutes.deep_view());
        collect_closes(&mut self.aggregator, minutes, 0, minutes.len())
    }

    /// Takes a live event.
    pub fn on_live(&mut self, evt: &BarEvent) -> (r: Vec<WorkerAction>)
        requires
            old(self)@.aggregator.wf(),
            acceptable(evt@),
            !(evt@ is Historical),
        ensures
            final(self)@ == (WorkerModel {
                aggregator: stepped(old(self)@.aggregator, evt@),
                ..old(self)@
            }),
            r.deep_view() == live_actions(evt@) + all_live_actions(
                step_events(old(self)@.aggregator, evt@),
            ),
            final(self)@.aggregator.wf(),
    {
        let mut out: Vec<WorkerAction> = Vec::new();
        assert(out.deep_view() =~= Seq::<ActionModel>::empty());
        push_live(&mut out, evt);
        assert(out.deep_view() =~= live_actions(evt@));
        let events = self.aggregator.on_m1_event(evt);
        let ghost own = live_actions(evt@);
        let mut i: usize = 0;
        assert(own + all_live_actions(events.deep_view().take(0)) =~= own);
        while i < events.len()
            invariant
                i <= events.len(),
                out.deep_view() == own + all_live_actions(events.deep_view().take(i as int)),
            decreases events.len() - i,
        {
            proof {
                let now = events.deep_view().take(i + 1);
                assert(now.drop_last() =~= events.deep_view().take(i as int));
                assert(now.last() == events@[i as int]@);
            }
            let ghost before = out.deep_view();
            push_live(&mut out, &events[i]);
            assert(out.deep_view() =~= own + all_live_actions(events.deep_view().take(i + 1)));
            i += 1;
        }
        assert(events.deep_view().take(i as int) =~= events.deep_view());
        out
    }

    /// Plans what a batch of final minutes adds. `already_seeded` says whether
    /// the detectors know the instrument, and `last_ts` the last minute that
    /// they have.
    pub fn plan_history(&self, finalized: &Vec<Bar>, already_seeded: bool, last_ts: Option<i64>) -> (r:
        HistoryPlan)
        ensures
            r.clear == takes_all(self@, already_seeded),
            r.bars.deep_view() == to_seed(self@, already_seeded, last_ts, finalized.deep_view()),
    {
        if !self.ranges_done && !already_seeded {
            let bars = finalized.clone();
            assert(bars.deep_view() =~= finalized.deep_view());
            return HistoryPlan { clear: true, bars };
        }
        let known: i64 = match last_ts {
            Some(ts) => ts,
            None => 0,
        };
        let mut bars: Vec<Bar> = Vec::new();
        let mut i: usize = 0;
        assert(bars.deep_view() =~= Seq::<BarModel>::empty());
        while i < finalized.len()
            invariant
                i <= finalized.len(),
                bars.deep_view() == after(finalized.deep_view().take(i as int), known),
            decreases finalized.len() - i,
        {
            let ghost before = bars.deep_view();
            proof {
                let now = finalized.deep_view().take(i + 1);
                assert(now.drop_last() =~= finalized.deep_view().take(i as int));
                assert(now.last() == finalized@[i as int]@);
            }
            if finalized[i].ts > known {
                bars.push(finalized[i].clone());
                assert(bars.deep_view() =~= before.push(finalized@[i as int]@));
            }
            i += 1;
        }
        assert(finalized.deep_view().take(i as int) =~= finalized.deep_view());
        HistoryPlan { clear: false, bars }
    }

    /// Takes the minutes of a batch of history.
    pub fn seed_history(&mut self, bars: &Vec<Bar>) -> (r: Vec<WorkerAction>)
        requires
            old(self)@.aggregator.wf(),
            usable_minutes(bars.deep_view()),
        ensures
            final(self)@ == (WorkerModel {
                aggregator: batch_closed(old(self)@.aggregator, bars.deep_view()),
                ..old(self)@
            }),
            r.deep_view() == batch_actions(old(self)@.aggregator, bars.deep_view()),
            final(self)@.aggregator.wf(),
    {
        let mut out: Vec<WorkerAction> = Vec::new();
        assert(out.deep_view() =~= Seq::<ActionModel>::empty());
        assert(bars.deep_view().subrange(0, bars.len() as int) =~= bars.deep_view());
        if bars.len() == 0 {
            assert(bars.deep_view() =~= Seq::<BarModel>::empty());
            return out;
        }
        let ghost s0 = self@.aggregator;
        let ghost all = bars.deep_view();
        let ghost seeds = Seq::new(all.len(), |i: int| ActionModel::Seed(all[i]));
        let ghost feeds = Seq::new(
            all.len(),
            |i: int| ActionModel::Feed { bar: all[i], historical: true },
        );
        let mut i: usize = 0;
        assert(out.deep_view() =~= seeds.take(0));
        while i < bars.len()
            invariant
                i <= bars.len(),
                all == bars.deep_view(),
                seeds == Seq::new(all.len(), |i: int| ActionModel::Seed(all[i])),
                out.deep_view() == seeds.take(i as int),
            decreases bars.len() - i,
        {
            let ghost before = out.deep_view();
            out.push(WorkerAction::Seed(bars[i].clone()));
            assert(seeds[i as int] == ActionModel::Seed(bars@[i as int]@));
            assert(out.deep_view() =~= before.push(seeds[i as int]));
            assert(out.deep_view() =~= seeds.take(i + 1));
            i += 1;
        }
        assert(out.deep_view() =~= seeds);
        assert(seeds + feeds.take(0) =~= seeds);
        i = 0;
        while i < bars.len()
            invariant
                i <= bars.len(),
                all == bars.deep_view(),
                feeds == Seq::new(
                    all.len(),
                    |i: int| ActionModel::Feed { bar: all[i], historical: true },
                ),
                out.deep_view() == seeds + feeds.take(i as int),
            decreases bars.len() - i,
        {
            let ghost before = out.deep_view();
            out.push(WorkerAction::Feed { bar: bars[i].clone(), historical: true });
            assert(feeds[i as int] == (ActionModel::Feed {
                bar: bars@[i as int]@,
                historical: true,
            }));
            assert(out.deep_view() =~= before.push(feeds[i as int]));
            assert(out.deep_view() =~= seeds + feeds.take(i + 1));
            i += 1;
        }
        assert(out.deep_view() =~= seeds + feeds);
        out.push(WorkerAction::Persist);
        let ghost first = seeds + feeds + seq![ActionModel::Persist];
        assert(out.deep_view() =~= first);
        let closes = collect_closes(&mut self.aggregator, bars, 0, bars.len());
        i = 0;
        assert(first + all_late_actions(closes.deep_view().take(0)) =~= first);
        while i < closes.len()
            invariant
                i <= closes.len(),
                out.deep_view() == first + all_late_actions(closes.deep_view().take(i as int)),
            decreases closes.len() - i,
        {
            proof {
                let now = closes.deep_view().take(i + 1);
                assert(now.drop_last() =~= closes.deep_view().take(i as int));
                assert(now.last() == closes@[i as int]@);
            }
            let ghost before = out.deep_view();
            let bar = &closes[i];
            out.push(WorkerAction::Store(bar.clone()));
            out.push(WorkerAction::Seed(bar.clone()));
            out.push(WorkerAction::Feed { bar: bar.clone(), historical: true });
            if bar.tf == Timeframe::M5 {
                out.push(WorkerAction::FeedReversals { bar: bar.clone(), seeding: true });
            }
            assert(out.deep_view() =~= before + late_actions(bar@));
            assert(out.deep_view() =~= first + all_late_actions(closes.deep_view().take(i + 1)));
            i += 1;
        }
        assert(closes.deep_view().take(i as int) =~= closes.deep_view());
        out.push(WorkerAction::Persist);
        assert(out.deep_view() =~= batch_actions(s0, all));
        out
    }

    /// Ends a batch of history. `has_ranges` says whether three-phase
    /// structures of the instrument are known, `seeded` whether minutes were
    /// replayed, and `repaired` how many stored candles were filled in.
    pub fn finish_history(&mut self, has_ranges: bool, seeded: bool, repaired: usize) -> (r:
        Aftermath)
        ensures
            r == (Aftermath {
                ranges: if old(self)@.ranges_done {
                    RangeStep::Done
                } else if has_ranges {
                    RangeStep::Enable
                } else {
                    RangeStep::Replay
                },
                replay_candidates: seeded,
                announce: seeded || repaired > 0,
            }),
            final(self)@ == (WorkerModel { ranges_done: true, ..old(self)@ }),
    {
        let ranges = if self.ranges_done {
            RangeStep::Done
        } else if has_ranges {
            RangeStep::Enable
        } else {
            RangeStep::Replay
        };
        self.ranges_done = true;
        Aftermath { ranges, replay_candidates: seeded, announce: seeded || repaired > 0 }
    }
}

/// An action that only live candles cause.
pub open spec fn is_live(a: ActionModel) -> bool {
    match a {
        ActionModel::Show { .. } => true,
        ActionModel::DetectClosed(_) => true,
        ActionModel::DetectOpen(_) => true,
        ActionModel::Feed { historical, .. } => !historical,
        ActionModel::FeedReversals { seeding, .. } => !seeding,
        _ => false,
    }
}

proof fn lemma_late_actions(bars: Seq<BarModel>)
    ensures
        forall|i: int|
            0 <= i < all_late_actions(bars).len() ==> !is_live(
                #[trigger] all_late_actions(bars)[i],
            ),
    decreases bars.len(),
{
    if bars.len() > 0 {
        lemma_late_actions(bars.drop_last());
        let rest = all_late_actions(bars.drop_last());
        let own = late_actions(bars.last());
        assert forall|i: int| 0 <= i < (rest + own).len() implies !is_live(
            #[trigger] (rest + own)[i],
        ) by {
            if i < rest.len() {
                assert((rest + own)[i] == rest[i]);
            } else {
                assert((rest + own)[i] == own[i - rest.len()]);
            }
        }
    }
}

/// A batch of history is never treated as live: nothing of it is shown, and
/// the groups are told that it is history.
pub proof fn law_history_is_never_live(s: AggregatorModel, bars: Seq<BarModel>)
    ensures
        forall|i: int|
            0 <= i < batch_actions(s, bars).len() ==> !is_live(
                #[trigger] batch_actions(s, bars)[i],
            ),
{
    lemma_late_actions(closes_of(s, bars));
    if bars.len() > 0 {
        let a = Seq::new(bars.len(), |i: int| ActionModel::Seed(bars[i]));
        let b = Seq::new(
            bars.len(),
            |i: int| ActionModel::Feed { bar: bars[i], historical: true },
        );
        let c = all_late_actions(closes_of(s, bars));
        let all = batch_actions(s, bars);
        let n = bars.len() as int;
        assert forall|i: int| 0 <= i < all.len() implies !is_live(#[trigger] all[i]) by {
            if i < n {
                assert(all[i] == a[i]);
            } else if i < 2 * n {
                assert(all[i] == b[i - n]);
            } else if i == 2 * n {
                assert(all[i] == ActionModel::Persist);
            } else if i < 2 * n + 1 + c.len() {
                assert(all[i] == c[i - 2 * n - 1]);
            } else {
                assert(all[i] == ActionModel::Persist);
            }
        }
    }
}

/// After the first batch of history the detectors are never cleared again, and
/// only minutes after the last known one are replayed.
pub proof fn law_reconnects_only_add(
    w: WorkerModel,
    already_seeded: bool,
    last_ts: i64,
    bars: Seq<BarModel>,
)
    requires
        w.ranges_done,
    ensures
        !takes_all(w, already_seeded),
        forall|i: int|
            0 <= i < to_seed(w, already_seeded, Some(last_ts), bars).len() ==> (
            #[trigger] to_seed(w, already_seeded, Some(last_ts), bars)[i]).ts > last_ts,
{
    lemma_after(bars, last_ts);
}

proof fn lemma_after(bars: Seq<BarModel>, ts: i64)
    ensures
        forall|i: int| 0 <= i < after(bars, ts).len() ==> (#[trigger] after(bars, ts)[i]).ts > ts,
    decreases bars.len(),
{
    if bars.len() > 0 {
        lemma_after(bars.drop_last(), ts);
    }
}

/// The topic under which a candle is shown.
pub fn bar_topic(closed: bool) -> (r: &'static str)
    ensures
        r@ == if closed {
            "bar:closed"@
        } else {
            "bar:update"@
        },
{
    if closed {
        "bar:closed"
    } else {
        "bar:update"
    }
}

/// The periods that the detectors are replayed on.
pub fn seed_timeframes() -> (r: Vec<Timeframe>)
    ensures
        r@ == seq![
            Timeframe::M1,
            Timeframe::M5,
            Timeframe::M15,
            Timeframe::M30,
            Timeframe::H1,
            Timeframe::H4,
            Timeframe::D1,
            Timeframe::W1,
        ],
{
    let r = vec![
        Timeframe::M1,
        Timeframe::M5,
        Timeframe::M15,
        Timeframe::M30,
        Timeframe::H1,
        Timeframe::H4,
        Timeframe::D1,
        Timeframe::W1,
    ];
    assert(r@ =~= seq![
        Timeframe::M1,
        Timeframe::M5,
        Timeframe::M15,
        Timeframe::M30,
        Timeframe::H1,
        Timeframe::H4,
        Timeframe::D1,
        Timeframe::W1,
    ]);
    r
}

/// How many candles of a period are replayed: enough minutes for a whole
/// previous day.
pub fn seed_limit(tf: Timeframe) -> (r: i64)
    ensures
        r == if tf is M1 {
            3_000int
        } else {
            500
        },
{
    match tf {
        Timeframe::M1 => 3_000,
        _ => 500,
    }
}

/// Whether stored three-phase structures are dropped and detected anew. The
/// version of the store says whether that was done.
pub fn needs_redetection(version: Option<i64>) -> (r: bool)
    ensures
        r == (version matches Some(v) && v < 1),
{
    match version {
        Some(v) => v < 1,
        None => false,
    }
}

/// The running workers, and whether a feed runs for them.
pub struct SubManager {
    symbols: Vec<String>,
    feeding: bool,
}

/// Mathematical content of a [`SubManager`].
pub struct SubModel {
    /// Instruments with a worker, each once.
    pub symbols: Seq<Seq<char>>,
    pub feeding: bool,
}

impl View for SubManager {
    type V = SubModel;

    closed spec fn view(&self) -> SubModel {
        SubModel { symbols: self.symbols.deep_view(), feeding: self.feeding }
    }
}

/// Two lists hold the same texts.
pub open spec fn same_texts(a: Seq<Seq<char>>, b: Seq<Seq<char>>) -> bool {
    &&& forall|i: int| 0 <= i < a.len() ==> b.contains(#[trigger] a[i])
    &&& forall|i: int| 0 <= i < b.len() ==> a.contains(#[trigger] b[i])
}

/// Those texts of a list that another list holds, or does not hold.
pub open spec fn held_by(list: Seq<Seq<char>>, other: Seq<Seq<char>>, held: bool) -> Seq<Seq<char>>
    decreases list.len(),
{
    if list.len() == 0 {
        Seq::empty()
    } else if other.contains(list.last()) == held {
        held_by(list.drop_last(), other, held).push(list.last())
    } else {
        held_by(list.drop_last(), other, held)
    }
}

fn select_held(list: &Vec<String>, other: &Vec<String>, held: bool) -> (r: Vec<String>)
    ensures
        r.deep_view() == held_by(list.deep_view(), other.deep_view(), held),
{
    let mut out: Vec<String> = Vec::new();
    let mut i: usize = 0;
    assert(out.deep_view() =~= Seq::<Seq<char>>::empty());
    while i < list.len()
        invariant
            i <= list.len(),
            out.deep_view() == held_by(
                list.deep_view().take(i as int),
                other.deep_view(),
                held,
            ),
        decreases list.len() - i,
    {
        let ghost before = out.deep_view();
        proof {
            let now = list.deep_view().take(i + 1);
            assert(now.drop_last() =~= list.deep_view().take(i as int));
            assert(now.last() == list@[i as int]@);
        }
        if list_has(other, list[i].as_str()) == held {
            out.push(owned(list[i].as_str()));
            assert(out.deep_view() =~= before.push(list@[i as int]@));
        }
        i += 1;
    }
    assert(list.deep_view().take(i as int) =~= list.deep_view());
    out
}

fn holds_all(list: &Vec<String>, other: &Vec<String>) -> (r: bool)
    ensures
        r == (forall|i: int|
            0 <= i < other.deep_view().len() ==> list.deep_view().contains(
                #[trigger] other.deep_view()[i],
            )),
{
    let mut i: usize = 0;
    while i < other.len()
        invariant
            i <= other.len(),
            forall|k: int|
                0 <= k < i ==> list.deep_view().contains(#[trigger] other.deep_view()[k]),
        decreases other.len() - i,
    {
        assert(other.deep_view()[i as int] == other@[i as int]@);
        if !list_has(list, other[i].as_str()) {
            assert(!list.deep_view().contains(other.deep_view()[i as int]));
            return false;
        }
        i += 1;
    }
    true
}

/// Texts in their order.
pub open spec fn by_text() -> spec_fn(Seq<char>, Seq<char>) -> bool {
    |a: Seq<char>, b: Seq<char>| text_before(a, b)
}

/// Puts texts in their order.
pub fn sort_texts(list: Vec<String>) -> (r: Vec<String>)
    ensures
        r.deep_view() == sorted_by(list.deep_view(), by_text()),
{
    let comes_before = |a: &String, b: &String| -> (r: bool)
        ensures
            r == text_before(a@, b@),
        { text_lt(a.as_str(), b.as_str()) };
    stable_sort(list, comes_before, Ghost(by_text()))
}

/// How the workers and the feed change.
#[derive(Debug)]
pub struct FeedPlan {
    /// Workers that are stopped.
    pub released: Vec<String>,
    /// Workers that are started.
    pub started: Vec<String>,
    /// What the new feed subscribes, in order.
    pub feed: Vec<String>,
}

impl SubManager {
    /// No worker and no feed.
    pub fn new() -> (r: Self)
        ensures
            r@ == (SubModel { symbols: Seq::empty(), feeding: false }),
    {
        let r = SubManager { symbols: Vec::new(), feeding: false };
        assert(r.symbols.deep_view() =~= Seq::<Seq<char>>::empty());
        r
    }

    /// Starts the worker of an instrument unless it runs; says whether it was
    /// started.
    pub fn acquire(&mut self, symbol: &str) -> (r: bool)
        ensures
            r == !old(self)@.symbols.contains(symbol@),
            final(self)@ == (SubModel {
                symbols: if r {
                    old(self)@.symbols.push(symbol@)
                } else {
                    old(self)@.symbols
                },
                ..old(self)@
            }),
    {
        if list_has(&self.symbols, symbol) {
            return false;
        }
        let ghost before = self.symbols.deep_view();
        self.symbols.push(owned(symbol));
        assert(self.symbols.deep_view() =~= before.push(symbol@));
        true
    }

    /// Stops the worker of an instrument; says whether it ran.
    pub fn release(&mut self, symbol: &str) -> (r: bool)
        ensures
            r == old(self)@.symbols.contains(symbol@),
            final(self)@ == (SubModel {
                symbols: held_by(old(self)@.symbols, seq![symbol@], false),
                ..old(self)@
            }),
    {
        let found = list_has(&self.symbols, symbol);
        let mut one: Vec<String> = Vec::new();
        one.push(owned(symbol));
        assert(one.deep_view() =~= seq![symbol@]);
        self.symbols = select_held(&self.symbols, &one, false);
        found
    }

    /// Makes the workers those of the wanted instruments. A running feed stays
    /// where nothing changes; otherwise it is replaced by one for all workers.
    pub fn set_symbols(&mut self, desired: &Vec<String>) -> (r: Option<FeedPlan>)
        ensures
            ({
                let s = old(self)@;
                let wanted = desired.deep_view();
                let kept = held_by(s.symbols, wanted, true);
                if same_texts(s.symbols, wanted) && s.feeding {
                    r is None && final(self)@ == s
                } else {
                    &&& r matches Some(plan)
                    &&& plan.released.deep_view() == held_by(s.symbols, wanted, false)
                    &&& plan.started.deep_view() == with_texts(kept, wanted).skip(
                        kept.len() as int,
                    )
                    &&& plan.feed.deep_view() == sorted_by(with_texts(kept, wanted), by_text())
                    &&& final(self)@ == (SubModel {
                        symbols: with_texts(kept, wanted),
                        feeding: true,
                    })
                }
            }),
    {
        if self.feeding && holds_all(desired, &self.symbols) && holds_all(&self.symbols, desired) {
            return None;
        }
        let released = select_held(&self.symbols, desired, false);
        let mut next = select_held(&self.symbols, desired, true);
        let ghost kept = next.deep_view();
        let n: usize = next.len();
        add_texts(&mut next, desired);
        proof {
            lemma_with_texts_grows(kept, desired.deep_view());
        }
        let mut started: Vec<String> = Vec::new();
        let mut i: usize = n;
        let ghost all = next.deep_view();
        assert(started.deep_view() =~= all.skip(n as int).take(0));
        while i < next.len()
            invariant
                n <= i <= next.len(),
                all == next.deep_view(),
                started.deep_view() == all.skip(n as int).take(i - n),
            decreases next.len() - i,
        {
            let ghost before = started.deep_view();
            started.push(owned(next[i].as_str()));
            assert(started.deep_view() =~= before.push(all[i as int]));
            assert(started.deep_view() =~= all.skip(n as int).take(i - n + 1));
            i += 1;
        }
        assert(started.deep_view() =~= all.skip(n as int));
        let copy = next.clone();
        assert(copy.deep_view() =~= next.deep_view());
        let feed = sort_texts(copy);
        self.symbols = next;
        self.feeding = true;
        Some(FeedPlan { released, started, feed })
    }
}

proof fn lemma_with_texts_grows(list: Seq<Seq<char>>, more: Seq<Seq<char>>)
    ensures
        list.len() <= with_texts(list, more).len(),
        forall|i: int| 0 <= i < list.len() ==> #[trigger] with_texts(list, more)[i] == list[i],
    decreases more.len(),
{
    if more.len() > 0 {
        lemma_with_texts_grows(list, more.drop_last());
    }
}

/// Where an event of the shared feed goes.
#[derive(Debug)]
pub struct Route {
    pub symbol: String,
    /// The event is a batch of history, which calls for an audit.
    pub audit: bool,
}

/// The instrument of an event.
pub open spec fn event_symbol(evt: BarEventModel) -> Option<Seq<char>> {
    match evt {
        BarEventModel::Historical(bars) => if bars.len() > 0 {
            Some(bars[0].symbol)
        } else {
            None
        },
        BarEventModel::BarUpdate(bar) => Some(bar.symbol),
        BarEventModel::BarClosed(bar) => Some(bar.symbol),
    }
}

/// Finds the worker that an event of the shared feed goes to.
pub fn route_event(evt: &BarEvent, running: &Vec<String>) -> (r: Option<Route>)
    ensures
        match (r, event_symbol(evt@)) {
            (Some(route), Some(symbol)) => route.symbol@ == symbol && running.deep_view().contains(
                symbol,
            ) && route.audit == (evt@ is Historical),
            (None, Some(symbol)) => !running.deep_view().contains(symbol),
            (Some(_), None) => false,
            (None, None) => true,
        },
{
    let mut audit = false;
    let symbol: String = match evt {
        BarEvent::Historical(bars) => {
            if bars.len() == 0 {
                return None;
            }
            audit = true;
            assert(bars.deep_view()[0] == bars@[0]@);
            owned(bars[0].symbol.as_str())
        },
        BarEvent::BarUpdate(bar) => owned(bar.symbol.as_str()),
        BarEvent::BarClosed(bar) => owned(bar.symbol.as_str()),
    };
    if list_has(running, symbol.as_str()) {
        Some(Route { symbol, audit })
    } else {
        None
    }
}

/// All known instruments: built-in ones, those saved for viewing and those of
/// the groups, each once.
pub open spec fn known_symbols(
    base: Seq<Seq<char>>,
    chart_symbols: Seq<Seq<char>>,
    groups: Seq<WatchlistModel>,
) -> Seq<Seq<char>> {
    with_texts(with_texts(with_texts(Seq::empty(), base), chart_symbols), union_of(groups))
}

/// Lists all known instruments.
pub fn list_symbols(base: &Vec<String>, chart_symbols: &Vec<String>, groups: &Vec<Watchlist>) -> (r:
    Vec<String>)
    ensures
        r.deep_view() == known_symbols(
            base.deep_view(),
            chart_symbols.deep_view(),
            groups.deep_view(),
        ),
{
    let mut out: Vec<String> = Vec::new();
    assert(out.deep_view() =~= Seq::<Seq<char>>::empty());
    add_texts(&mut out, base);
    add_texts(&mut out, chart_symbols);
    let union = monitored_symbol_union(groups);
    add_texts(&mut out, &union);
    out
}

/// Lists the instruments whose prices are shown, in order.
pub fn priced_symbols(base: &Vec<String>, chart_symbols: &Vec<String>, groups: &Vec<Watchlist>) -> (r:
    Vec<String>)
    ensures
        r.deep_view() == sorted_by(
            known_symbols(base.deep_view(), chart_symbols.deep_view(), groups.deep_view()),
            by_text(),
        ),
{
    sort_texts(list_symbols(base, chart_symbols, groups))
}

/// Asking for the same instruments again changes nothing.
pub proof fn law_same_symbols_keep_the_feed(list: Seq<Seq<char>>)
    ensures
        same_texts(list, list),
        held_by(list, list, true) == list,
        held_by(list, list, false).len() == 0,
{
    assert forall|i: int| 0 <= i < list.len() implies list.contains(#[trigger] list[i]) by {}
    lemma_held_by_superset(list, list);
}

proof fn lemma_held_by_superset(list: Seq<Seq<char>>, other: Seq<Seq<char>>)
    requires
        forall|i: int| 0 <= i < list.len() ==> other.contains(#[trigger] list[i]),
    ensures
        held_by(list, other, true) == list,
        held_by(list, other, false).len() == 0,
    decreases list.len(),
{
    if list.len() > 0 {
        let rest = list.drop_last();
        assert forall|i: int| 0 <= i < rest.len() implies other.contains(#[trigger] rest[i]) by {
            assert(rest[i] == list[i]);
        }
        lemma_held_by_superset(rest, other);
        assert(other.contains(list[list.len() - 1]));
        assert(rest.push(list.last()) =~= list);
    } else {
        assert(list =~= Seq::<Seq<char>>::empty());
    }
}

} // verus!
