//! Upkeep of the stored history: what is done at start, after a reconnect and
//! when groups change, in which order, and what it counts for.
use vstd::prelude::*;
use crate::aggregator::far_from_limits;
use crate::h4::{has_incomplete_h4_window, incomplete, timed};
use crate::history::{
    chart_history_needs_provider_refresh, dated, forex_name, history_needs_backfill,
    is_forex_symbol, is_pair_incomplete, modest, needs_backfill, needs_refresh, pair_incomplete,
    upper_of, SMT_SOURCE_HISTORY_LIMIT, SMT_SOURCE_MIN_BARS,
};
use crate::sorting::sorted_by;
use crate::subscription::{by_text, seed_limit, seed_timeframes, sort_texts};
use crate::text::owned;
use crate::types::{Bar, BarModel, Timeframe};

verus! {

/// How many stored minutes a worker starts from.
pub const WARM_START_M1_LIMIT: i64 = 5_000;

/// How many stored candles are looked at before holes are filled.
pub const AGGREGATE_GAP_INSPECTION_LIMIT: i64 = 256;

/// How many stored minutes holes are filled from.
pub const AGGREGATE_GAP_FILL_M1_LIMIT: i64 = 5_000;

/// How many stored minutes higher candles are rebuilt from: all that are kept.
pub const AGGREGATE_REPAIR_M1_LIMIT: i64 = 100_000;

/// How many one-hour candles four-hour candles are rewritten from.
pub const H4_PREFLIGHT_H1_LIMIT: i64 = 5_000;

/// How many four-hour candles of the provider may stand in.
pub const H4_NATIVE_FALLBACK_LIMIT: i64 = 1_500;

/// How many candles of a fixed period a chart is audited on.
pub const RECONNECT_CHART_HISTORY_LIMIT: i64 = 1_500;

/// How many candles of a calendar period a chart is audited on.
pub const RECONNECT_CALENDAR_HISTORY_LIMIT: i64 = 500;

/// One piece of upkeep.
#[derive(Debug, Clone, Copy, PartialEq, Eq, Structural)]
pub enum Task {
    /// Set the detectors of all instruments up.
    RegisterDetectors,
    /// Apply the saved settings to a group.
    ApplySettings,
    /// Fetch the candles of a chart again where they do not suffice.
    RefreshChart { tf: Timeframe, limit: i64 },
    /// Add candles of fixed periods that stored minutes complete.
    FillFromMinutes,
    /// Fetch the source candles of divergences again where they do not suffice.
    BackfillSource { tf: Timeframe },
    /// Rebuild higher candles from stored minutes.
    RebuildFromMinutes,
    /// Fetch four-hour candles where the hours of a currency pair have a hole.
    StageNative,
    /// Rewrite the four-hour candles of a currency pair from its hours.
    RewriteH4,
    /// See whether stored candles suffice.
    Inspect { tf: Timeframe, limit: i64 },
    /// Drop the stored three-phase structures.
    DropRanges,
    /// Replay stored candles through the detectors.
    Seed { tf: Timeframe, limit: i64 },
    /// Restore stored structures that the detectors do not know.
    Restore { tf: Timeframe },
    /// Detect three-phase structures anew.
    ReplayRanges,
    /// Store the structures that changed.
    Persist,
    /// Detect three-phase structures live from now on where some are known.
    EnableRanges,
    /// Remember that three-phase structures were detected anew.
    MarkRangesDone,
    /// Load the stored divergences of a group.
    Hydrate,
    /// Replay stored candles through the divergence detector of a group.
    ReplayDivergences,
    /// Replay the candidates of a group.
    ReplayCandidates,
    /// Tell the interface to read everything again.
    Announce,
    /// Subscribe to the instruments of all groups and charts.
    Subscribe,
}

/// A piece of upkeep with the instrument or group that it is done for.
#[derive(Debug)]
pub struct Step {
    pub subject: Option<String>,
    pub task: Task,
}

/// Mathematical content of a [`Step`].
pub struct StepModel {
    pub subject: Option<Seq<char>>,
    pub task: Task,
}

impl View for Step {
    type V = StepModel;

    open spec fn view(&self) -> StepModel {
        StepModel { subject: self.subject.deep_view(), task: self.task }
    }
}

impl DeepView for Step {
    type V = StepModel;

    open spec fn deep_view(&self) -> StepModel {
        self@
    }
}

/// A task for nobody in particular.
pub open spec fn once(task: Task) -> Seq<StepModel> {
    seq![StepModel { subject: None, task }]
}

/// A task that is done only under a condition.
pub open spec fn only_if(wanted: bool, steps: Seq<StepModel>) -> Seq<StepModel> {
    if wanted {
        steps
    } else {
        Seq::empty()
    }
}

/// All tasks for one subject.
pub open spec fn all_for(subject: Seq<char>, tasks: Seq<Task>) -> Seq<StepModel> {
    Seq::new(tasks.len(), |i: int| StepModel { subject: Some(subject), task: tasks[i] })
}

/// All tasks for each subject, one subject after the other.
pub open spec fn each(subjects: Seq<Seq<char>>, tasks: Seq<Task>) -> Seq<StepModel>
    decreases subjects.len(),
{
    if subjects.len() == 0 {
        Seq::empty()
    } else {
        each(subjects.drop_last(), tasks) + all_for(subjects.last(), tasks)
    }
}

fn push_once(out: &mut Vec<Step>, task: Task)
    ensures
        final(out).deep_view() == old(out).deep_view() + once(task),
{
    let ghost before = out.deep_view();
    out.push(Step { subject: None, task });
    assert(out.deep_view() =~= before + once(task));
}

fn push_each(out: &mut Vec<Step>, subjects: &Vec<String>, tasks: &Vec<Task>)
    ensures
        final(out).deep_view() == old(out).deep_view() + each(subjects.deep_view(), tasks@),
{
    let ghost start = out.deep_view();
    let ghost all = subjects.deep_view();
    let mut i: usize = 0;
    assert(out.deep_view() =~= start + each(all.take(0), tasks@));
    while i < subjects.len()
        invariant
            i <= subjects.len(),
            all == subjects.deep_view(),
            out.deep_view() == start + each(all.take(i as int), tasks@),
        decreases subjects.len() - i,
    {
        let ghost before = out.deep_view();
        let ghost own = all_for(all[i as int], tasks@);
        let mut k: usize = 0;
        assert(out.deep_view() =~= before + own.take(0));
        while k < tasks.len()
            invariant
                i < subjects.len(),
                k <= tasks.len(),
                all == subjects.deep_view(),
                own == all_for(all[i as int], tasks@),
                out.deep_view() == before + own.take(k as int),
            decreases tasks.len() - k,
        {
            let ghost had = out.deep_view();
            let step = Step { subject: Some(owned(subjects[i].as_str())), task: tasks[k] };
            assert(step@ == own[k as int]);
            out.push(step);
            assert(out.deep_view() =~= had.push(own[k as int]));
            assert(out.deep_view() =~= before + own.take(k + 1));
            k += 1;
        }
        proof {
            assert(own.take(k as int) =~= own);
            let now = all.take(i + 1);
            assert(now.drop_last() =~= all.take(i as int));
            assert(now.last() == all[i as int]);
            assert(out.deep_view() =~= start + each(now, tasks@));
        }
        i += 1;
    }
    assert(all.take(i as int) =~= all);
}

/// Repairs of the minutes of one instrument, and of what they complete.
pub open spec fn minute_tasks() -> Seq<Task> {
    seq![
        Task::RefreshChart { tf: Timeframe::M1, limit: WARM_START_M1_LIMIT },
        Task::FillFromMinutes,
    ]
}

/// Repairs of the charts of one instrument.
pub open spec fn chart_tasks() -> Seq<Task> {
    seq![
        Task::RefreshChart { tf: Timeframe::M5, limit: RECONNECT_CHART_HISTORY_LIMIT },
        Task::RefreshChart { tf: Timeframe::M15, limit: RECONNECT_CHART_HISTORY_LIMIT },
        Task::RefreshChart { tf: Timeframe::D1, limit: RECONNECT_CALENDAR_HISTORY_LIMIT },
        Task::RefreshChart { tf: Timeframe::W1, limit: RECONNECT_CALENDAR_HISTORY_LIMIT },
        Task::RefreshChart { tf: Timeframe::MN1, limit: RECONNECT_CALENDAR_HISTORY_LIMIT },
    ]
}

/// Repairs of the source candles of one instrument.
pub open spec fn source_tasks() -> Seq<Task> {
    seq![
        Task::BackfillSource { tf: Timeframe::M30 },
        Task::BackfillSource { tf: Timeframe::H1 },
    ]
}

/// What is inspected of one instrument once all repairs are done.
pub open spec fn inspect_tasks() -> Seq<Task> {
    seq![
        Task::Inspect { tf: Timeframe::M1, limit: WARM_START_M1_LIMIT },
        Task::Inspect { tf: Timeframe::M5, limit: RECONNECT_CHART_HISTORY_LIMIT },
        Task::Inspect { tf: Timeframe::M15, limit: RECONNECT_CHART_HISTORY_LIMIT },
        Task::Inspect { tf: Timeframe::D1, limit: RECONNECT_CALENDAR_HISTORY_LIMIT },
        Task::Inspect { tf: Timeframe::W1, limit: RECONNECT_CALENDAR_HISTORY_LIMIT },
        Task::Inspect { tf: Timeframe::MN1, limit: RECONNECT_CALENDAR_HISTORY_LIMIT },
        Task::Inspect { tf: Timeframe::M30, limit: SMT_SOURCE_HISTORY_LIMIT },
        Task::Inspect { tf: Timeframe::H1, limit: SMT_SOURCE_HISTORY_LIMIT },
        Task::Inspect { tf: Timeframe::H4, limit: 64 },
    ]
}

/// The repairs after a reconnect: minutes first, because other candles follow
/// from them, and four-hour candles last.
pub open spec fn reconnect_repairs(symbols: Seq<Seq<char>>) -> Seq<StepModel> {
    each(symbols, minute_tasks()) + each(symbols, chart_tasks()) + each(symbols, source_tasks())
        + each(symbols, seq![Task::StageNative]) + each(symbols, seq![Task::RewriteH4])
}

/// Everything that is done after a reconnect.
pub open spec fn reconnect_plan(symbols: Seq<Seq<char>>) -> Seq<StepModel> {
    reconnect_repairs(symbols) + each(symbols, inspect_tasks())
}

/// Plans what is done after a reconnect.
pub fn reconnect_steps(symbols: &Vec<String>) -> (r: Vec<Step>)
    ensures
        r.deep_view() == reconnect_plan(symbols.deep_view()),
{
    let mut out: Vec<Step> = Vec::new();
    let ghost list = symbols.deep_view();
    assert(out.deep_view() =~= Seq::<StepModel>::empty());
    let minutes = vec![
        Task::RefreshChart { tf: Timeframe::M1, limit: WARM_START_M1_LIMIT },
        Task::FillFromMinutes,
    ];
    assert(minutes@ =~= minute_tasks());
    push_each(&mut out, symbols, &minutes);
    let charts = vec![
        Task::RefreshChart { tf: Timeframe::M5, limit: RECONNECT_CHART_HISTORY_LIMIT },
        Task::RefreshChart { tf: Timeframe::M15, limit: RECONNECT_CHART_HISTORY_LIMIT },
        Task::RefreshChart { tf: Timeframe::D1, limit: RECONNECT_CALENDAR_HISTORY_LIMIT },
        Task::RefreshChart { tf: Timeframe::W1, limit: RECONNECT_CALENDAR_HISTORY_LIMIT },
        Task::RefreshChart { tf: Timeframe::MN1, limit: RECONNECT_CALENDAR_HISTORY_LIMIT },
    ];
    assert(charts@ =~= chart_tasks());
    push_each(&mut out, symbols, &charts);
    push_sources(&mut out, symbols);
    push_one_task(&mut out, symbols, Task::StageNative);
    push_one_task(&mut out, symbols, Task::RewriteH4);
    let inspections = vec![
        Task::Inspect { tf: Timeframe::M1, limit: WARM_START_M1_LIMIT },
        Task::Inspect { tf: Timeframe::M5, limit: RECONNECT_CHART_HISTORY_LIMIT },
        Task::Inspect { tf: Timeframe::M15, limit: RECONNECT_CHART_HISTORY_LIMIT },
        Task::Inspect { tf: Timeframe::D1, limit: RECONNECT_CALENDAR_HISTORY_LIMIT },
        Task::Inspect { tf: Timeframe::W1, limit: RECONNECT_CALENDAR_HISTORY_LIMIT },
        Task::Inspect { tf: Timeframe::MN1, limit: RECONNECT_CALENDAR_HISTORY_LIMIT },
        Task::Inspect { tf: Timeframe::M30, limit: SMT_SOURCE_HISTORY_LIMIT },
        Task::Inspect { tf: Timeframe::H1, limit: SMT_SOURCE_HISTORY_LIMIT },
        Task::Inspect { tf: Timeframe::H4, limit: 64 },
    ];
    assert(inspections@ =~= inspect_tasks());
    push_each(&mut out, symbols, &inspections);
    assert(out.deep_view() =~= reconnect_plan(list));
    out
}

fn push_sources(out: &mut Vec<Step>, symbols: &Vec<String>)
    ensures
        final(out).deep_view() == old(out).deep_view() + each(symbols.deep_view(), source_tasks()),
{
    let tasks = vec![
        Task::BackfillSource { tf: Timeframe::M30 },
        Task::BackfillSource { tf: Timeframe::H1 },
    ];
    assert(tasks@ =~= source_tasks());
    push_each(out, symbols, &tasks);
}

fn push_one_task(out: &mut Vec<Step>, symbols: &Vec<String>, task: Task)
    ensures
        final(out).deep_view() == old(out).deep_view() + each(symbols.deep_view(), seq![task]),
{
    let mut tasks: Vec<Task> = Vec::new();
    tasks.push(task);
    assert(tasks@ =~= seq![task]);
    push_each(out, symbols, &tasks);
}

/// How many candles of a period the detectors are replayed on.
pub open spec fn seed_depth(tf: Timeframe) -> i64 {
    if tf is M1 {
        3_000
    } else {
        500
    }
}

/// The periods that the detectors are replayed on.
pub open spec fn seeded_periods() -> Seq<Timeframe> {
    seq![
        Timeframe::M1,
        Timeframe::M5,
        Timeframe::M15,
        Timeframe::M30,
        Timeframe::H1,
        Timeframe::H4,
        Timeframe::D1,
        Timeframe::W1,
    ]
}

/// Replays of one instrument.
pub open spec fn seed_tasks() -> Seq<Task> {
    Seq::new(
        seeded_periods().len(),
        |i: int| Task::Seed { tf: seeded_periods()[i], limit: seed_depth(seeded_periods()[i]) },
    )
}

/// Restorations of one instrument.
pub open spec fn restore_tasks() -> Seq<Task> {
    Seq::new(seeded_periods().len(), |i: int| Task::Restore { tf: seeded_periods()[i] })
}

fn list_seed_tasks() -> (r: Vec<Task>)
    ensures
        r@ == seed_tasks(),
{
    let tfs = seed_timeframes();
    let mut out: Vec<Task> = Vec::new();
    let mut i: usize = 0;
    while i < tfs.len()
        invariant
            i <= tfs.len(),
            tfs@ == seeded_periods(),
            out@ == seed_tasks().take(i as int),
        decreases tfs.len() - i,
    {
        let ghost before = out@;
        out.push(Task::Seed { tf: tfs[i], limit: seed_limit(tfs[i]) });
        assert(out@ =~= before.push(seed_tasks()[i as int]));
        assert(out@ =~= seed_tasks().take(i + 1));
        i += 1;
    }
    assert(out@ =~= seed_tasks());
    out
}

fn list_restore_tasks() -> (r: Vec<Task>)
    ensures
        r@ == restore_tasks(),
{
    let tfs = seed_timeframes();
    let mut out: Vec<Task> = Vec::new();
    let mut i: usize = 0;
    while i < tfs.len()
        invariant
            i <= tfs.len(),
            tfs@ == seeded_periods(),
            out@ == restore_tasks().take(i as int),
        decreases tfs.len() - i,
    {
        let ghost before = out@;
        out.push(Task::Restore { tf: tfs[i] });
        assert(out@ =~= before.push(restore_tasks()[i as int]));
        assert(out@ =~= restore_tasks().take(i + 1));
        i += 1;
    }
    assert(out@ =~= restore_tasks());
    out
}

/// What brings one group up.
pub open spec fn group_tasks() -> Seq<Task> {
    seq![Task::Hydrate, Task::ReplayDivergences, Task::ReplayCandidates]
}

/// The first part of a start: settings, and the repair of the stored history
/// that everything after it reads.
pub open spec fn startup_repairs(symbols: Seq<Seq<char>>, groups: Seq<Seq<char>>) -> Seq<StepModel> {
    once(Task::RegisterDetectors) + each(groups, seq![Task::ApplySettings]) + each(
        symbols,
        source_tasks(),
    ) + each(symbols, seq![Task::RebuildFromMinutes]) + each(symbols, seq![Task::StageNative])
        + each(symbols, seq![Task::RewriteH4])
}

/// The second part of a start: the detectors, the groups and the feed.
pub open spec fn startup_replays(
    symbols: Seq<Seq<char>>,
    groups: Seq<Seq<char>>,
    redetect: bool,
) -> Seq<StepModel> {
    only_if(redetect, once(Task::DropRanges)) + each(symbols, seed_tasks()) + each(
        symbols,
        restore_tasks(),
    ) + only_if(redetect, each(symbols, seq![Task::ReplayRanges])) + once(Task::Persist) + each(
        symbols,
        seq![Task::EnableRanges],
    ) + only_if(redetect, once(Task::MarkRangesDone)) + each(groups, group_tasks()) + once(
        Task::Announce,
    ) + once(Task::Subscribe)
}

/// Everything that is done at start. Groups come in the order of their names.
pub open spec fn startup_plan(
    symbols: Seq<Seq<char>>,
    groups: Seq<Seq<char>>,
    redetect: bool,
) -> Seq<StepModel> {
    let ordered = sorted_by(groups, by_text());
    startup_repairs(symbols, ordered) + startup_replays(symbols, ordered, redetect)
}

/// Plans what is done at start. `redetect` says whether three-phase
/// structures are detected anew.
pub fn startup_steps(symbols: &Vec<String>, groups: Vec<String>, redetect: bool) -> (r: Vec<
    Step,
>)
    ensures
        r.deep_view() == startup_plan(symbols.deep_view(), groups.deep_view(), redetect),
{
    let ghost list = symbols.deep_view();
    let ghost names = groups.deep_view();
    let ordered = sort_texts(groups);
    let ghost sorted = ordered.deep_view();
    let mut out: Vec<Step> = Vec::new();
    assert(out.deep_view() =~= Seq::<StepModel>::empty());
    push_once(&mut out, Task::RegisterDetectors);
    push_one_task(&mut out, &ordered, Task::ApplySettings);
    push_sources(&mut out, symbols);
    push_one_task(&mut out, symbols, Task::RebuildFromMinutes);
    push_one_task(&mut out, symbols, Task::StageNative);
    push_one_task(&mut out, symbols, Task::RewriteH4);
    assert(out.deep_view() =~= startup_repairs(list, sorted));
    let ghost first = out.deep_view();
    if redetect {
        push_once(&mut out, Task::DropRanges);
    }
    let seeds = list_seed_tasks();
    push_each(&mut out, symbols, &seeds);
    let restores = list_restore_tasks();
    push_each(&mut out, symbols, &restores);
    if redetect {
        push_one_task(&mut out, symbols, Task::ReplayRanges);
    }
    push_once(&mut out, Task::Persist);
    push_one_task(&mut out, symbols, Task::EnableRanges);
    if redetect {
        push_once(&mut out, Task::MarkRangesDone);
    }
    let bring_up = vec![Task::Hydrate, Task::ReplayDivergences, Task::ReplayCandidates];
    assert(bring_up@ =~= group_tasks());
    push_each(&mut out, &ordered, &bring_up);
    push_once(&mut out, Task::Announce);
    push_once(&mut out, Task::Subscribe);
    assert(out.deep_view() =~= first + startup_replays(list, sorted, redetect));
    out
}

/// What brings a changed group up.
pub open spec fn changed_group_tasks() -> Seq<Task> {
    seq![Task::ApplySettings, Task::Hydrate, Task::ReplayDivergences, Task::ReplayCandidates]
}

/// Everything that is done once the groups have changed: the history of all
/// monitored instruments is prepared, and the changed groups are brought up in
/// the order of their names.
pub open spec fn reconcile_plan(symbols: Seq<Seq<char>>, changed: Seq<Seq<char>>) -> Seq<StepModel> {
    each(symbols, seq![Task::StageNative]) + each(symbols, seq![Task::RewriteH4]) + once(
        Task::RegisterDetectors,
    ) + each(symbols, seed_tasks()) + once(Task::Subscribe) + each(
        sorted_by(changed, by_text()),
        changed_group_tasks(),
    ) + once(Task::Announce)
}

/// Plans what is done once the groups have changed.
pub fn reconcile_steps(symbols: &Vec<String>, changed: Vec<String>) -> (r: Vec<Step>)
    ensures
        r.deep_view() == reconcile_plan(symbols.deep_view(), changed.deep_view()),
{
    let ghost list = symbols.deep_view();
    let ghost names = changed.deep_view();
    let ordered = sort_texts(changed);
    let mut out: Vec<Step> = Vec::new();
    assert(out.deep_view() =~= Seq::<StepModel>::empty());
    push_one_task(&mut out, symbols, Task::StageNative);
    push_one_task(&mut out, symbols, Task::RewriteH4);
    push_once(&mut out, Task::RegisterDetectors);
    let seeds = list_seed_tasks();
    push_each(&mut out, symbols, &seeds);
    push_once(&mut out, Task::Subscribe);
    let bring_up = vec![
        Task::ApplySettings,
        Task::Hydrate,
        Task::ReplayDivergences,
        Task::ReplayCandidates,
    ];
    assert(bring_up@ =~= changed_group_tasks());
    push_each(&mut out, &ordered, &bring_up);
    push_once(&mut out, Task::Announce);
    assert(out.deep_view() =~= reconcile_plan(list, names));
    out
}

/// The stored candles that a task looks at.
pub open spec fn reading(task: Task) -> Option<(Timeframe, i64)> {
    match task {
        Task::RefreshChart { tf, limit } => Some((tf, limit)),
        Task::FillFromMinutes => Some((Timeframe::M1, AGGREGATE_GAP_FILL_M1_LIMIT)),
        Task::BackfillSource { tf } => Some((tf, SMT_SOURCE_HISTORY_LIMIT)),
        Task::RebuildFromMinutes => Some((Timeframe::M1, AGGREGATE_REPAIR_M1_LIMIT)),
        Task::StageNative => Some((Timeframe::H1, H4_PREFLIGHT_H1_LIMIT)),
        Task::RewriteH4 => Some((Timeframe::H1, H4_PREFLIGHT_H1_LIMIT)),
        Task::Inspect { tf, limit } => Some((tf, limit)),
        Task::Seed { tf, limit } => Some((tf, limit)),
        _ => None,
    }
}

/// What a task asks of the provider where it is needed.
pub open spec fn request(task: Task) -> Option<(Timeframe, i64)> {
    match task {
        Task::RefreshChart { tf, limit } => Some((tf, limit)),
        Task::BackfillSource { tf } => Some((tf, SMT_SOURCE_HISTORY_LIMIT)),
        Task::StageNative => Some((Timeframe::H4, H4_NATIVE_FALLBACK_LIMIT)),
        _ => None,
    }
}

impl Task {
    /// The stored candles that the task looks at: their period and how many.
    pub fn reads(self) -> (r: Option<(Timeframe, i64)>)
        ensures
            r == reading(self),
    {
        match self {
            Task::RefreshChart { tf, limit } => Some((tf, limit)),
            Task::FillFromMinutes => Some((Timeframe::M1, AGGREGATE_GAP_FILL_M1_LIMIT)),
            Task::BackfillSource { tf } => Some((tf, SMT_SOURCE_HISTORY_LIMIT)),
            Task::RebuildFromMinutes => Some((Timeframe::M1, AGGREGATE_REPAIR_M1_LIMIT)),
            Task::StageNative => Some((Timeframe::H1, H4_PREFLIGHT_H1_LIMIT)),
            Task::RewriteH4 => Some((Timeframe::H1, H4_PREFLIGHT_H1_LIMIT)),
            Task::Inspect { tf, limit } => Some((tf, limit)),
            Task::Seed { tf, limit } => Some((tf, limit)),
            _ => None,
        }
    }

    /// What the task asks of the provider where it is needed: the period and
    /// how many candles.
    pub fn fetches(self) -> (r: Option<(Timeframe, i64)>)
        ensures
            r == request(self),
    {
        match self {
            Task::RefreshChart { tf, limit } => Some((tf, limit)),
            Task::BackfillSource { tf } => Some((tf, SMT_SOURCE_HISTORY_LIMIT)),
            Task::StageNative => Some((Timeframe::H4, H4_NATIVE_FALLBACK_LIMIT)),
            _ => None,
        }
    }
}

/// The stored candles call for a task. `forex` says whether the instrument is
/// a currency pair.
pub open spec fn called_for(
    task: Task,
    forex: bool,
    symbol: Seq<char>,
    bars: Seq<BarModel>,
    now: int,
) -> bool {
    match task {
        Task::RefreshChart { .. } => needs_refresh(bars, 2, now),
        Task::BackfillSource { .. } => needs_backfill(bars, SMT_SOURCE_MIN_BARS as int, now),
        Task::StageNative => forex && incomplete(bars, symbol, now),
        Task::Inspect { tf, .. } => pair_incomplete(symbol, tf, bars, now),
        _ => true,
    }
}

/// Whether the stored candles call for a task; for an inspection, whether they
/// do not suffice. `forex` says whether the instrument is a currency pair.
pub fn is_called_for(task: Task, forex: bool, symbol: &str, bars: &Vec<Bar>, now_ms: i64) -> (r: bool)
    requires
        dated(bars.deep_view()),
        modest(now_ms as int),
    ensures
        r == called_for(task, forex, symbol@, bars.deep_view(), now_ms as int),
{
    match task {
        Task::RefreshChart { .. } => chart_history_needs_provider_refresh(
            bars.as_slice(),
            2,
            now_ms,
        ),
        Task::BackfillSource { .. } => history_needs_backfill(
            bars.as_slice(),
            SMT_SOURCE_MIN_BARS,
            now_ms,
        ),
        Task::StageNative => {
            proof {
                lemma_dated_is_timed(bars.deep_view());
            }
            forex && has_incomplete_h4_window(bars.as_slice(), symbol, now_ms)
        },
        Task::Inspect { tf, .. } => is_pair_incomplete(symbol, tf, bars, now_ms),
        _ => true,
    }
}

proof fn lemma_dated_is_timed(bars: Seq<BarModel>)
    requires
        dated(bars),
    ensures
        timed(bars),
{
    assert forall|i: int| 0 <= i < bars.len() implies far_from_limits(
        (#[trigger] bars[i]).ts as int,
    ) by {
        assert(modest(bars[i].ts as int));
    }
}

/// Whether the stored candles of an instrument call for a task.
pub fn needs_work(task: Task, symbol: &str, bars: &Vec<Bar>, now_ms: i64) -> (r: bool)
    requires
        dated(bars.deep_view()),
        modest(now_ms as int),
    ensures
        r == called_for(
            task,
            forex_name(upper_of(symbol@)),
            symbol@,
            bars.deep_view(),
            now_ms as int,
        ),
{
    is_called_for(task, is_forex_symbol(symbol), symbol, bars, now_ms)
}

/// What came of a task.
#[derive(Debug, Clone, Copy, PartialEq, Eq, Structural)]
pub enum Outcome {
    /// Nothing was done, or the provider had nothing.
    Untouched,
    /// Fetched candles were stored; `suffices` says whether the stored candles
    /// are enough now.
    Fetched { suffices: bool },
    /// Missing candles were added.
    Added(usize),
    /// Candles were rewritten.
    Rewritten,
    /// An inspection found that candles are missing.
    Lacking,
}

/// What an outcome counts for as a repair.
pub open spec fn repairs(task: Task, outcome: Outcome) -> nat {
    match (task, outcome) {
        (Task::RefreshChart { .. }, Outcome::Fetched { .. }) => 1,
        (Task::FillFromMinutes, Outcome::Added(n)) => n as nat,
        (Task::BackfillSource { .. }, Outcome::Fetched { suffices }) => if suffices {
            1
        } else {
            0
        },
        (Task::StageNative, Outcome::Fetched { .. }) => 1,
        (Task::RewriteH4, Outcome::Rewritten) => 1,
        _ => 0,
    }
}

/// What an outcome counts for as something missing.
pub open spec fn lacks(task: Task, outcome: Outcome) -> nat {
    match (task, outcome) {
        (Task::Inspect { .. }, Outcome::Lacking) => 1,
        _ => 0,
    }
}

/// The account of one audit.
#[derive(Debug, Clone, Copy, PartialEq, Eq, Structural)]
pub struct ReconnectHistoryPreflightReport {
    pub repaired_pairs: usize,
    pub incomplete_pairs: usize,
}

impl Default for ReconnectHistoryPreflightReport {
    fn default() -> (r: Self)
        ensures
            r.repaired_pairs == 0,
            r.incomplete_pairs == 0,
    {
        ReconnectHistoryPreflightReport { repaired_pairs: 0, incomplete_pairs: 0 }
    }
}

impl ReconnectHistoryPreflightReport {
    /// Takes an outcome into account.
    pub fn record(&mut self, task: Task, outcome: Outcome)
        requires
            old(self).repaired_pairs + repairs(task, outcome) <= usize::MAX,
            old(self).incomplete_pairs < usize::MAX,
        ensures
            final(self).repaired_pairs == old(self).repaired_pairs + repairs(task, outcome),
            final(self).incomplete_pairs == old(self).incomplete_pairs + lacks(task, outcome),
    {
        match (task, outcome) {
            (Task::RefreshChart { .. }, Outcome::Fetched { .. }) => {
                self.repaired_pairs += 1;
            },
            (Task::FillFromMinutes, Outcome::Added(n)) => {
                self.repaired_pairs += n;
            },
            (Task::BackfillSource { .. }, Outcome::Fetched { suffices }) => {
                if suffices {
                    self.repaired_pairs += 1;
                }
            },
            (Task::StageNative, Outcome::Fetched { .. }) => {
                self.repaired_pairs += 1;
            },
            (Task::RewriteH4, Outcome::Rewritten) => {
                self.repaired_pairs += 1;
            },
            (Task::Inspect { .. }, Outcome::Lacking) => {
                self.incomplete_pairs += 1;
            },
            _ => {},
        }
    }

    /// Whether nothing is missing any more.
    pub fn is_complete(&self) -> (r: bool)
        ensures
            r == (self.incomplete_pairs == 0),
    {
        self.incomplete_pairs == 0
    }

    /// Whether the interface has to read everything again.
    pub fn changed_anything(&self) -> (r: bool)
        ensures
            r == (self.repaired_pairs > 0),
    {
        self.repaired_pairs > 0
    }
}

/// Every step does a task of some sort.
pub open spec fn all_tasks(steps: Seq<StepModel>, sort: spec_fn(Task) -> bool) -> bool {
    forall|i: int| 0 <= i < steps.len() ==> sort((#[trigger] steps[i]).task)
}

pub proof fn lemma_each(subjects: Seq<Seq<char>>, tasks: Seq<Task>, sort: spec_fn(Task) -> bool)
    requires
        forall|i: int| 0 <= i < tasks.len() ==> sort(#[trigger] tasks[i]),
    ensures
        all_tasks(each(subjects, tasks), sort),
    decreases subjects.len(),
{
    if subjects.len() > 0 {
        lemma_each(subjects.drop_last(), tasks, sort);
        lemma_joined(
            each(subjects.drop_last(), tasks),
            all_for(subjects.last(), tasks),
            sort,
        );
    }
}

proof fn lemma_joined(a: Seq<StepModel>, b: Seq<StepModel>, sort: spec_fn(Task) -> bool)
    requires
        all_tasks(a, sort),
        all_tasks(b, sort),
    ensures
        all_tasks(a + b, sort),
{
    assert forall|i: int| 0 <= i < (a + b).len() implies sort((#[trigger] (a + b)[i]).task) by {
        if i < a.len() {
            assert((a + b)[i] == a[i]);
        } else {
            assert((a + b)[i] == b[i - a.len()]);
        }
    }
}

pub proof fn lemma_each_holds(subjects: Seq<Seq<char>>, tasks: Seq<Task>, s: int, t: int)
    requires
        0 <= s < subjects.len(),
        0 <= t < tasks.len(),
    ensures
        each(subjects, tasks).contains(StepModel { subject: Some(subjects[s]), task: tasks[t] }),
    decreases subjects.len(),
{
    let rest = each(subjects.drop_last(), tasks);
    let own = all_for(subjects.last(), tasks);
    let wanted = StepModel { subject: Some(subjects[s]), task: tasks[t] };
    if s == subjects.len() - 1 {
        assert((rest + own)[rest.len() + t] == wanted);
    } else {
        lemma_each_holds(subjects.drop_last(), tasks, s, t);
        let k = choose|k: int| 0 <= k < rest.len() && rest[k] == wanted;
        assert((rest + own)[k] == wanted);
    }
}

/// An audit inspects the stored history only once every repair is done: no
/// repair follows an inspection.
pub proof fn law_inspections_see_every_repair(symbols: Seq<Seq<char>>, i: int, j: int)
    requires
        0 <= i < j < reconnect_plan(symbols).len(),
        reconnect_plan(symbols)[i].task is Inspect,
    ensures
        reconnect_plan(symbols)[j].task is Inspect,
{
    let sort = |t: Task| !(t is Inspect);
    let a = each(symbols, minute_tasks());
    let b = each(symbols, chart_tasks());
    let c = each(symbols, source_tasks());
    let d = each(symbols, seq![Task::StageNative]);
    let e = each(symbols, seq![Task::RewriteH4]);
    lemma_each(symbols, minute_tasks(), sort);
    lemma_each(symbols, chart_tasks(), sort);
    lemma_each(symbols, source_tasks(), sort);
    lemma_each(symbols, seq![Task::StageNative], sort);
    lemma_each(symbols, seq![Task::RewriteH4], sort);
    lemma_joined(a, b, sort);
    lemma_joined(a + b, c, sort);
    lemma_joined(a + b + c, d, sort);
    lemma_joined(a + b + c + d, e, sort);
    let rest = each(symbols, inspect_tasks());
    let inspects = |t: Task| t is Inspect;
    lemma_each(symbols, inspect_tasks(), inspects);
    let first = reconnect_repairs(symbols);
    if i < first.len() {
        assert((first + rest)[i] == first[i]);
        assert(sort(first[i].task));
    }
    assert((first + rest)[j] == rest[j - first.len()]);
    assert(inspects(rest[j - first.len()].task));
}

/// An audit inspects every period of every monitored instrument.
pub proof fn law_every_pair_is_inspected(symbols: Seq<Seq<char>>, s: int, tf: Timeframe)
    requires
        0 <= s < symbols.len(),
    ensures
        exists|k: int|
            0 <= k < reconnect_plan(symbols).len() && {
                let step = #[trigger] reconnect_plan(symbols)[k];
                step.subject == Some(symbols[s]) && (step.task matches Task::Inspect { tf: p, .. }
                    && p == tf)
            },
{
    let t: int = match tf {
        Timeframe::M1 => 0,
        Timeframe::M5 => 1,
        Timeframe::M15 => 2,
        Timeframe::D1 => 3,
        Timeframe::W1 => 4,
        Timeframe::MN1 => 5,
        Timeframe::M30 => 6,
        Timeframe::H1 => 7,
        Timeframe::H4 => 8,
    };
    lemma_each_holds(symbols, inspect_tasks(), s, t);
    let rest = each(symbols, inspect_tasks());
    let wanted = StepModel { subject: Some(symbols[s]), task: inspect_tasks()[t] };
    let k = choose|k: int| 0 <= k < rest.len() && rest[k] == wanted;
    let first = reconnect_repairs(symbols);
    assert((first + rest)[first.len() + k] == wanted);
    assert(reconnect_plan(symbols)[first.len() + k] == wanted);
}

/// The task changes stored candles.
pub open spec fn repairs_history(task: Task) -> bool {
    task is BackfillSource || task is RebuildFromMinutes || task is StageNative || task is RewriteH4
}

/// A start replays candles only once the stored history is repaired: no repair
/// follows a replay.
pub proof fn law_replays_see_repaired_history(
    symbols: Seq<Seq<char>>,
    groups: Seq<Seq<char>>,
    redetect: bool,
    i: int,
    j: int,
)
    requires
        0 <= i < j < startup_plan(symbols, groups, redetect).len(),
        startup_plan(symbols, groups, redetect)[i].task is Seed || startup_plan(
            symbols,
            groups,
            redetect,
        )[i].task is ReplayDivergences,
    ensures
        !repairs_history(startup_plan(symbols, groups, redetect)[j].task),
{
    let ordered = sorted_by(groups, by_text());
    let replays = |t: Task| t is Seed || t is ReplayDivergences;
    let other = |t: Task| !replays(t);
    let a = once(Task::RegisterDetectors);
    let b = each(ordered, seq![Task::ApplySettings]);
    let c = each(symbols, source_tasks());
    let d = each(symbols, seq![Task::RebuildFromMinutes]);
    let e = each(symbols, seq![Task::StageNative]);
    let f = each(symbols, seq![Task::RewriteH4]);
    lemma_each(ordered, seq![Task::ApplySettings], other);
    lemma_each(symbols, source_tasks(), other);
    lemma_each(symbols, seq![Task::RebuildFromMinutes], other);
    lemma_each(symbols, seq![Task::StageNative], other);
    lemma_each(symbols, seq![Task::RewriteH4], other);
    lemma_joined(a, b, other);
    lemma_joined(a + b, c, other);
    lemma_joined(a + b + c, d, other);
    lemma_joined(a + b + c + d, e, other);
    lemma_joined(a + b + c + d + e, f, other);
    let first = startup_repairs(symbols, ordered);
    let rest = startup_replays(symbols, ordered, redetect);
    lemma_replays_repair_nothing(symbols, ordered, redetect);
    if i < first.len() {
        assert((first + rest)[i] == first[i]);
        assert(other(first[i].task));
    }
    assert((first + rest)[j] == rest[j - first.len()]);
}

proof fn lemma_replays_repair_nothing(
    symbols: Seq<Seq<char>>,
    groups: Seq<Seq<char>>,
    redetect: bool,
)
    ensures
        forall|k: int|
            0 <= k < startup_replays(symbols, groups, redetect).len() ==> !repairs_history(
                (#[trigger] startup_replays(symbols, groups, redetect)[k]).task,
            ),
{
    let harmless = |t: Task| !repairs_history(t);
    let a = only_if(redetect, once(Task::DropRanges));
    let b = each(symbols, seed_tasks());
    let c = each(symbols, restore_tasks());
    let d = only_if(redetect, each(symbols, seq![Task::ReplayRanges]));
    let e = once(Task::Persist);
    let f = each(symbols, seq![Task::EnableRanges]);
    let g = only_if(redetect, once(Task::MarkRangesDone));
    let h = each(groups, group_tasks());
    let x = once(Task::Announce);
    let y = once(Task::Subscribe);
    lemma_each(symbols, seed_tasks(), harmless);
    lemma_each(symbols, restore_tasks(), harmless);
    lemma_each(symbols, seq![Task::ReplayRanges], harmless);
    lemma_each(symbols, seq![Task::EnableRanges], harmless);
    lemma_each(groups, group_tasks(), harmless);
    lemma_joined(a, b, harmless);
    lemma_joined(a + b, c, harmless);
    lemma_joined(a + b + c, d, harmless);
    lemma_joined(a + b + c + d, e, harmless);
    lemma_joined(a + b + c + d + e, f, harmless);
    lemma_joined(a + b + c + d + e + f, g, harmless);
    lemma_joined(a + b + c + d + e + f + g, h, harmless);
    lemma_joined(a + b + c + d + e + f + g + h, x, harmless);
    lemma_joined(a + b + c + d + e + f + g + h + x, y, harmless);
    let all = startup_replays(symbols, groups, redetect);
    assert(all == a + b + c + d + e + f + g + h + x + y);
    assert forall|k: int| 0 <= k < all.len() implies !repairs_history((#[trigger] all[k]).task) by {
        assert(harmless(all[k].task));
    }
}

} // verus!
