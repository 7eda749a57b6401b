//! In which order upkeep is done, and for whom.
use vstd::prelude::*;
use crate::h4::incomplete;
use crate::history::{needs_backfill, needs_refresh, pair_incomplete};
use crate::sorting::sorted_by;
use crate::subscription::by_text;
use crate::types::{BarModel, Timeframe};
use crate::upkeep::{
    called_for, changed_group_tasks, chart_tasks, each, group_tasks, inspect_tasks, lacks,
    lemma_each, lemma_each_holds, minute_tasks, once, only_if, reading, reconcile_plan,
    reconnect_plan, reconnect_repairs, repairs, request, restore_tasks, seed_tasks, source_tasks,
    startup_plan, Outcome, StepModel, Task,
};

verus! {

proof fn lemma_sum_contains(a: Seq<StepModel>, b: Seq<StepModel>, x: StepModel)
    ensures
        (a + b).contains(x) <==> a.contains(x) || b.contains(x),
{
    if a.contains(x) {
        let k = choose|k: int| 0 <= k < a.len() && a[k] == x;
        assert((a + b)[k] == x);
    }
    if b.contains(x) {
        let k = choose|k: int| 0 <= k < b.len() && b[k] == x;
        assert((a + b)[a.len() + k] == x);
    }
}

/// Steps that come in the order of their stages, none behind a last one.
spec fn staged(steps: Seq<StepModel>, stage: spec_fn(Task) -> int, last: int) -> bool {
    &&& forall|i: int, j: int|
        0 <= i < j < steps.len() ==> stage((#[trigger] steps[i]).task) <= stage(
            (#[trigger] steps[j]).task,
        )
    &&& forall|i: int| 0 <= i < steps.len() ==> stage((#[trigger] steps[i]).task) <= last
}

/// Further steps of one later stage keep the order.
proof fn lemma_next_stage(
    a: Seq<StepModel>,
    b: Seq<StepModel>,
    stage: spec_fn(Task) -> int,
    last: int,
    next: int,
)
    requires
        staged(a, stage, last),
        last <= next,
        forall|i: int| 0 <= i < b.len() ==> stage((#[trigger] b[i]).task) == next,
    ensures
        staged(a + b, stage, next),
{
    let all = a + b;
    assert forall|i: int| 0 <= i < all.len() implies stage((#[trigger] all[i]).task) <= next by {
        if i < a.len() {
            assert(all[i] == a[i]);
        } else {
            assert(all[i] == b[i - a.len()]);
        }
    }
    assert forall|i: int, j: int| 0 <= i < j < all.len() implies stage((#[trigger] all[i]).task)
        <= stage((#[trigger] all[j]).task) by {
        if j < a.len() {
            assert(all[i] == a[i] && all[j] == a[j]);
        } else {
            assert(all[j] == b[j - a.len()]);
            assert(stage(b[j - a.len()].task) == next);
        }
    }
}

/// Tasks of one stage for each subject are steps of that stage.
proof fn lemma_each_stage(
    subjects: Seq<Seq<char>>,
    tasks: Seq<Task>,
    stage: spec_fn(Task) -> int,
    n: int,
)
    requires
        forall|i: int| 0 <= i < tasks.len() ==> stage(#[trigger] tasks[i]) == n,
    ensures
        forall|i: int|
            0 <= i < each(subjects, tasks).len() ==> stage(
                (#[trigger] each(subjects, tasks)[i]).task,
            ) == n,
{
    let sort = |t: Task| stage(t) == n;
    assert forall|i: int| 0 <= i < tasks.len() implies sort(#[trigger] tasks[i]) by {
        assert(stage(tasks[i]) == n);
    }
    lemma_each(subjects, tasks, sort);
    let all = each(subjects, tasks);
    assert forall|i: int| 0 <= i < all.len() implies stage((#[trigger] all[i]).task) == n by {
        assert(sort(all[i].task));
    }
}

/// Tasks for several subjects are done subject by subject, and for each subject in
/// their order.
pub proof fn law_subjects_come_one_after_another(
    subjects: Seq<Seq<char>>,
    tasks: Seq<Task>,
    s: int,
    t: int,
)
    requires
        0 <= s < subjects.len(),
        0 <= t < tasks.len(),
    ensures
        each(subjects, tasks).len() == subjects.len() * tasks.len(),
        0 <= s * tasks.len() + t < each(subjects, tasks).len(),
        each(subjects, tasks)[s * tasks.len() + t] == (StepModel {
            subject: Some(subjects[s]),
            task: tasks[t],
        }),
    decreases subjects.len(),
{
    let front = subjects.drop_last();
    let n = tasks.len() as int;
    let m = front.len() as int;
    lemma_each_len(front, tasks);
    lemma_each_len(subjects, tasks);
    assert(s * n + t < (m + 1) * n && 0 <= s * n + t) by (nonlinear_arith)
        requires
            0 <= s <= m,
            0 <= t < n,
    ;
    if s < m {
        assert(front[s] == subjects[s]);
        law_subjects_come_one_after_another(front, tasks, s, t);
    }
}

proof fn lemma_each_len(subjects: Seq<Seq<char>>, tasks: Seq<Task>)
    ensures
        each(subjects, tasks).len() == subjects.len() * tasks.len(),
    decreases subjects.len(),
{
    let n = tasks.len() as int;
    if subjects.len() > 0 {
        let m = subjects.len() as int;
        lemma_each_len(subjects.drop_last(), tasks);
        assert((m - 1) * n + n == m * n) by (nonlinear_arith);
    } else {
        assert(0 * n == 0);
    }
}

/// The stage of a repair after a reconnect: minutes, then charts, then sources, then
/// four hours, then a look at everything.
pub open spec fn reconnect_stage() -> spec_fn(Task) -> int {
    |t: Task|
        match t {
            Task::FillFromMinutes => 1,
            Task::RefreshChart { tf, .. } => if tf is M1 {
                1
            } else {
                2
            },
            Task::BackfillSource { .. } => 3,
            Task::StageNative => 4,
            Task::RewriteH4 => 5,
            Task::Inspect { .. } => 6,
            _ => 0,
        }
}

/// After a reconnect minutes are repaired before what is built from them, and the
/// stored history is inspected last.
pub proof fn law_minutes_are_repaired_first(symbols: Seq<Seq<char>>, i: int, j: int)
    requires
        0 <= i < j < reconnect_plan(symbols).len(),
    ensures
        1 <= reconnect_stage()(reconnect_plan(symbols)[i].task) <= reconnect_stage()(
            reconnect_plan(symbols)[j].task,
        ),
{
    let stage = reconnect_stage();
    let a = each(symbols, minute_tasks());
    let b = each(symbols, chart_tasks());
    let c = each(symbols, source_tasks());
    let d = each(symbols, seq![Task::StageNative]);
    let e = each(symbols, seq![Task::RewriteH4]);
    let f = each(symbols, inspect_tasks());
    lemma_each_stage(symbols, minute_tasks(), stage, 1);
    lemma_each_stage(symbols, chart_tasks(), stage, 2);
    lemma_each_stage(symbols, source_tasks(), stage, 3);
    lemma_each_stage(symbols, seq![Task::StageNative], stage, 4);
    lemma_each_stage(symbols, seq![Task::RewriteH4], stage, 5);
    lemma_each_stage(symbols, inspect_tasks(), stage, 6);
    let none = Seq::<StepModel>::empty();
    assert(none + a =~= a);
    lemma_next_stage(none, a, stage, 1, 1);
    lemma_next_stage(a, b, stage, 1, 2);
    lemma_next_stage(a + b, c, stage, 2, 3);
    lemma_next_stage(a + b + c, d, stage, 3, 4);
    lemma_next_stage(a + b + c + d, e, stage, 4, 5);
    lemma_next_stage(a + b + c + d + e, f, stage, 5, 6);
    let all = reconnect_plan(symbols);
    assert(all == a + b + c + d + e + f);
    lemma_positive(a, b, c, d, e, f, stage, i);
}

proof fn lemma_positive(
    a: Seq<StepModel>,
    b: Seq<StepModel>,
    c: Seq<StepModel>,
    d: Seq<StepModel>,
    e: Seq<StepModel>,
    f: Seq<StepModel>,
    stage: spec_fn(Task) -> int,
    i: int,
)
    requires
        0 <= i < (a + b + c + d + e + f).len(),
        forall|k: int| 0 <= k < a.len() ==> stage((#[trigger] a[k]).task) >= 1,
        forall|k: int| 0 <= k < b.len() ==> stage((#[trigger] b[k]).task) >= 1,
        forall|k: int| 0 <= k < c.len() ==> stage((#[trigger] c[k]).task) >= 1,
        forall|k: int| 0 <= k < d.len() ==> stage((#[trigger] d[k]).task) >= 1,
        forall|k: int| 0 <= k < e.len() ==> stage((#[trigger] e[k]).task) >= 1,
        forall|k: int| 0 <= k < f.len() ==> stage((#[trigger] f[k]).task) >= 1,
    ensures
        stage((a + b + c + d + e + f)[i].task) >= 1,
{
    let x = (a + b + c + d + e + f)[i];
    if i < a.len() {
        assert(x == a[i]);
    } else if i < a.len() + b.len() {
        assert(x == b[i - a.len()]);
    } else if i < a.len() + b.len() + c.len() {
        assert(x == c[i - a.len() - b.len()]);
    } else if i < a.len() + b.len() + c.len() + d.len() {
        assert(x == d[i - a.len() - b.len() - c.len()]);
    } else if i < a.len() + b.len() + c.len() + d.len() + e.len() {
        assert(x == e[i - a.len() - b.len() - c.len() - d.len()]);
    } else {
        assert(x == f[i - a.len() - b.len() - c.len() - d.len() - e.len()]);
    }
}

/// A step for a subject.
pub open spec fn step_for(subject: Seq<char>, task: Task) -> StepModel {
    StepModel { subject: Some(subject), task }
}

/// After a reconnect every instrument has its minutes, its charts, its sources and
/// its four hours repaired, each as far back as it is looked at.
pub proof fn law_every_instrument_is_repaired(symbols: Seq<Seq<char>>, s: int)
    requires
        0 <= s < symbols.len(),
    ensures
        ({
            let all = reconnect_plan(symbols);
            let chart = |tf: Timeframe, n: i64|
                step_for(symbols[s], Task::RefreshChart { tf, limit: n });
            &&& all.contains(chart(Timeframe::M1, 5_000))
            &&& all.contains(step_for(symbols[s], Task::FillFromMinutes))
            &&& all.contains(chart(Timeframe::M5, 1_500))
            &&& all.contains(chart(Timeframe::M15, 1_500))
            &&& all.contains(chart(Timeframe::D1, 500))
            &&& all.contains(chart(Timeframe::W1, 500))
            &&& all.contains(chart(Timeframe::MN1, 500))
            &&& all.contains(step_for(symbols[s], Task::BackfillSource { tf: Timeframe::M30 }))
            &&& all.contains(step_for(symbols[s], Task::BackfillSource { tf: Timeframe::H1 }))
            &&& all.contains(step_for(symbols[s], Task::StageNative))
            &&& all.contains(step_for(symbols[s], Task::RewriteH4))
        }),
{
    let all = reconnect_plan(symbols);
    let a = each(symbols, minute_tasks());
    let b = each(symbols, chart_tasks());
    let c = each(symbols, source_tasks());
    let d = each(symbols, seq![Task::StageNative]);
    let e = each(symbols, seq![Task::RewriteH4]);
    let f = each(symbols, inspect_tasks());
    assert(all == a + b + c + d + e + f);
    assert forall|x: StepModel|
        a.contains(x) || b.contains(x) || c.contains(x) || d.contains(x) || e.contains(
            x,
        ) implies #[trigger] all.contains(x) by {
        lemma_sum_contains(a, b, x);
        lemma_sum_contains(a + b, c, x);
        lemma_sum_contains(a + b + c, d, x);
        lemma_sum_contains(a + b + c + d, e, x);
        lemma_sum_contains(a + b + c + d + e, f, x);
    }
    lemma_each_holds(symbols, minute_tasks(), s, 0);
    lemma_each_holds(symbols, minute_tasks(), s, 1);
    lemma_each_holds(symbols, chart_tasks(), s, 0);
    lemma_each_holds(symbols, chart_tasks(), s, 1);
    lemma_each_holds(symbols, chart_tasks(), s, 2);
    lemma_each_holds(symbols, chart_tasks(), s, 3);
    lemma_each_holds(symbols, chart_tasks(), s, 4);
    lemma_each_holds(symbols, source_tasks(), s, 0);
    lemma_each_holds(symbols, source_tasks(), s, 1);
    lemma_each_holds(symbols, seq![Task::StageNative], s, 0);
    lemma_each_holds(symbols, seq![Task::RewriteH4], s, 0);
}

/// The stage of a start.
pub open spec fn startup_stage() -> spec_fn(Task) -> int {
    |t: Task|
        match t {
            Task::RegisterDetectors => 1,
            Task::ApplySettings => 2,
            Task::BackfillSource { .. } => 3,
            Task::RebuildFromMinutes => 4,
            Task::StageNative => 5,
            Task::RewriteH4 => 6,
            Task::DropRanges => 7,
            Task::Seed { .. } => 8,
            Task::Restore { .. } => 9,
            Task::ReplayRanges => 10,
            Task::Persist => 11,
            Task::EnableRanges => 12,
            Task::MarkRangesDone => 13,
            Task::Hydrate => 14,
            Task::ReplayDivergences => 14,
            Task::ReplayCandidates => 14,
            Task::Announce => 15,
            Task::Subscribe => 16,
            _ => 17,
        }
}

/// A start sets the detectors up, repairs the history, replays it, brings the groups
/// up, and subscribes to the feed last.
pub proof fn law_a_start_goes_stage_by_stage(
    symbols: Seq<Seq<char>>,
    groups: Seq<Seq<char>>,
    redetect: bool,
    i: int,
    j: int,
)
    requires
        0 <= i < j < startup_plan(symbols, groups, redetect).len(),
    ensures
        startup_stage()(startup_plan(symbols, groups, redetect)[i].task) <= startup_stage()(
            startup_plan(symbols, groups, redetect)[j].task,
        ),
        startup_plan(symbols, groups, redetect)[0].task is RegisterDetectors,
        startup_plan(symbols, groups, redetect).last().task is Subscribe,
{
    let ordered = sorted_by(groups, by_text());
    let stage = startup_stage();
    let a = once(Task::RegisterDetectors);
    let b = each(ordered, seq![Task::ApplySettings]);
    let c = each(symbols, source_tasks());
    let d = each(symbols, seq![Task::RebuildFromMinutes]);
    let e = each(symbols, seq![Task::StageNative]);
    let f = each(symbols, seq![Task::RewriteH4]);
    lemma_each_stage(ordered, seq![Task::ApplySettings], stage, 2);
    lemma_each_stage(symbols, source_tasks(), stage, 3);
    lemma_each_stage(symbols, seq![Task::RebuildFromMinutes], stage, 4);
    lemma_each_stage(symbols, seq![Task::StageNative], stage, 5);
    lemma_each_stage(symbols, seq![Task::RewriteH4], stage, 6);
    assert(staged(a, stage, 1));
    lemma_next_stage(a, b, stage, 1, 2);
    lemma_next_stage(a + b, c, stage, 2, 3);
    lemma_next_stage(a + b + c, d, stage, 3, 4);
    lemma_next_stage(a + b + c + d, e, stage, 4, 5);
    lemma_next_stage(a + b + c + d + e, f, stage, 5, 6);
    let first = a + b + c + d + e + f;
    let g = only_if(redetect, once(Task::DropRanges));
    let h = each(symbols, seed_tasks());
    let k = each(symbols, restore_tasks());
    let l = only_if(redetect, each(symbols, seq![Task::ReplayRanges]));
    let m = once(Task::Persist);
    let n = each(symbols, seq![Task::EnableRanges]);
    let o = only_if(redetect, once(Task::MarkRangesDone));
    let p = each(ordered, group_tasks());
    let q = once(Task::Announce);
    let r = once(Task::Subscribe);
    lemma_each_stage(symbols, seed_tasks(), stage, 8);
    lemma_each_stage(symbols, restore_tasks(), stage, 9);
    lemma_each_stage(symbols, seq![Task::ReplayRanges], stage, 10);
    lemma_each_stage(symbols, seq![Task::EnableRanges], stage, 12);
    lemma_each_stage(ordered, group_tasks(), stage, 14);
    lemma_next_stage(first, g, stage, 6, 7);
    lemma_next_stage(first + g, h, stage, 7, 8);
    lemma_next_stage(first + g + h, k, stage, 8, 9);
    lemma_next_stage(first + g + h + k, l, stage, 9, 10);
    lemma_next_stage(first + g + h + k + l, m, stage, 10, 11);
    lemma_next_stage(first + g + h + k + l + m, n, stage, 11, 12);
    lemma_next_stage(first + g + h + k + l + m + n, o, stage, 12, 13);
    lemma_next_stage(first + g + h + k + l + m + n + o, p, stage, 13, 14);
    lemma_next_stage(first + g + h + k + l + m + n + o + p, q, stage, 14, 15);
    lemma_next_stage(first + g + h + k + l + m + n + o + p + q, r, stage, 15, 16);
    let all = startup_plan(symbols, groups, redetect);
    let rest = g + h + k + l + m + n + o + p + q + r;
    assert(all == first + rest);
    assert(first + rest =~= first + g + h + k + l + m + n + o + p + q + r);
    assert(all[0] == a[0]);
    assert(all.last() == r[0]);
}

/// A start replays eight periods of every instrument, minutes far back and all
/// others five hundred candles; every group gets its settings and is brought up.
pub proof fn law_a_start_replays_every_period(
    symbols: Seq<Seq<char>>,
    groups: Seq<Seq<char>>,
    redetect: bool,
    s: int,
    tf: Timeframe,
)
    requires
        0 <= s < symbols.len(),
        !(tf is MN1),
    ensures
        ({
            let all = startup_plan(symbols, groups, redetect);
            &&& all.contains(
                step_for(
                    symbols[s],
                    Task::Seed {
                        tf,
                        limit: if tf is M1 {
                            3_000i64
                        } else {
                            500i64
                        },
                    },
                ),
            )
            &&& all.contains(step_for(symbols[s], Task::Restore { tf }))
            &&& all.contains(step_for(symbols[s], Task::RebuildFromMinutes))
            &&& all.contains(step_for(symbols[s], Task::RewriteH4))
            &&& redetect ==> all.contains(step_for(symbols[s], Task::ReplayRanges))
        }),
{
    let ordered = sorted_by(groups, by_text());
    let all = startup_plan(symbols, groups, redetect);
    let t: int = match tf {
        Timeframe::M1 => 0,
        Timeframe::M5 => 1,
        Timeframe::M15 => 2,
        Timeframe::M30 => 3,
        Timeframe::H1 => 4,
        Timeframe::H4 => 5,
        Timeframe::D1 => 6,
        _ => 7,
    };
    let a = once(Task::RegisterDetectors) + each(ordered, seq![Task::ApplySettings]) + each(
        symbols,
        source_tasks(),
    );
    let d = each(symbols, seq![Task::RebuildFromMinutes]);
    let e = each(symbols, seq![Task::StageNative]);
    let f = each(symbols, seq![Task::RewriteH4]);
    let g = only_if(redetect, once(Task::DropRanges));
    let h = each(symbols, seed_tasks());
    let k = each(symbols, restore_tasks());
    let l = only_if(redetect, each(symbols, seq![Task::ReplayRanges]));
    let m = once(Task::Persist);
    let n = each(symbols, seq![Task::EnableRanges]);
    let o = only_if(redetect, once(Task::MarkRangesDone));
    let p = each(ordered, group_tasks());
    let q = once(Task::Announce);
    let r = once(Task::Subscribe);
    let first = a + d + e + f;
    let rest = g + h + k + l + m + n + o + p + q + r;
    assert(all == first + rest);
    assert forall|x: StepModel|
        d.contains(x) || f.contains(x) || h.contains(x) || k.contains(x) || l.contains(
            x,
        ) implies #[trigger] all.contains(x) by {
        lemma_sum_contains(a, d, x);
        lemma_sum_contains(a + d, e, x);
        lemma_sum_contains(a + d + e, f, x);
        lemma_sum_contains(first, rest, x);
        lemma_sum_contains(g, h, x);
        lemma_sum_contains(g + h, k, x);
        lemma_sum_contains(g + h + k, l, x);
        lemma_sum_contains(g + h + k + l, m, x);
        lemma_sum_contains(g + h + k + l + m, n, x);
        lemma_sum_contains(g + h + k + l + m + n, o, x);
        lemma_sum_contains(g + h + k + l + m + n + o, p, x);
        lemma_sum_contains(g + h + k + l + m + n + o + p, q, x);
        lemma_sum_contains(g + h + k + l + m + n + o + p + q, r, x);
    }
    lemma_each_holds(symbols, seed_tasks(), s, t);
    lemma_each_holds(symbols, restore_tasks(), s, t);
    lemma_each_holds(symbols, seq![Task::RebuildFromMinutes], s, 0);
    lemma_each_holds(symbols, seq![Task::RewriteH4], s, 0);
    if redetect {
        lemma_each_holds(symbols, seq![Task::ReplayRanges], s, 0);
    }
}

/// A group that is brought up loads its divergences, replays them, and then its
/// candidates; a changed one gets its settings first.
pub proof fn law_groups_come_up_in_order()
    ensures
        group_tasks() == seq![Task::Hydrate, Task::ReplayDivergences, Task::ReplayCandidates],
        changed_group_tasks() == seq![Task::ApplySettings] + group_tasks(),
{
    assert(changed_group_tasks() =~= seq![Task::ApplySettings] + group_tasks());
}

/// The stage of a change of the groups.
pub open spec fn reconcile_stage() -> spec_fn(Task) -> int {
    |t: Task|
        match t {
            Task::StageNative => 1,
            Task::RewriteH4 => 2,
            Task::RegisterDetectors => 3,
            Task::Seed { .. } => 4,
            Task::Subscribe => 5,
            Task::ApplySettings => 6,
            Task::Hydrate => 6,
            Task::ReplayDivergences => 6,
            Task::ReplayCandidates => 6,
            Task::Announce => 7,
            _ => 8,
        }
}

/// Once groups have changed, four hours are made ready, the detectors are set up and
/// replayed, the feed follows, the changed groups come up, and the interface is told
/// last.
pub proof fn law_changed_groups_come_up_on_ready_history(
    symbols: Seq<Seq<char>>,
    changed: Seq<Seq<char>>,
    i: int,
    j: int,
)
    requires
        0 <= i < j < reconcile_plan(symbols, changed).len(),
    ensures
        reconcile_stage()(reconcile_plan(symbols, changed)[i].task) <= reconcile_stage()(
            reconcile_plan(symbols, changed)[j].task,
        ),
        reconcile_plan(symbols, changed).last().task is Announce,
        reconcile_stage()(reconcile_plan(symbols, changed)[j].task) <= 7,
{
    let ordered = sorted_by(changed, by_text());
    let stage = reconcile_stage();
    let a = each(symbols, seq![Task::StageNative]);
    let b = each(symbols, seq![Task::RewriteH4]);
    let c = once(Task::RegisterDetectors);
    let d = each(symbols, seed_tasks());
    let e = once(Task::Subscribe);
    let f = each(ordered, changed_group_tasks());
    let g = once(Task::Announce);
    lemma_each_stage(symbols, seq![Task::StageNative], stage, 1);
    lemma_each_stage(symbols, seq![Task::RewriteH4], stage, 2);
    lemma_each_stage(symbols, seed_tasks(), stage, 4);
    lemma_each_stage(ordered, changed_group_tasks(), stage, 6);
    let none = Seq::<StepModel>::empty();
    assert(none + a =~= a);
    lemma_next_stage(none, a, stage, 1, 1);
    lemma_next_stage(a, b, stage, 1, 2);
    lemma_next_stage(a + b, c, stage, 2, 3);
    lemma_next_stage(a + b + c, d, stage, 3, 4);
    lemma_next_stage(a + b + c + d, e, stage, 4, 5);
    lemma_next_stage(a + b + c + d + e, f, stage, 5, 6);
    lemma_next_stage(a + b + c + d + e + f, g, stage, 6, 7);
    assert(reconcile_plan(symbols, changed) == a + b + c + d + e + f + g);
    assert(reconcile_plan(symbols, changed).last() == g[0]);
}

/// What a task reads and asks for: charts as far back as they are shown, minutes for
/// what they fill or rebuild, hours for four hours.
pub proof fn law_tasks_read_what_they_repair(tf: Timeframe, limit: i64)
    ensures
        reading(Task::RefreshChart { tf, limit }) == Some((tf, limit)),
        request(Task::RefreshChart { tf, limit }) == Some((tf, limit)),
        reading(Task::FillFromMinutes) == Some((Timeframe::M1, 5_000i64)),
        reading(Task::RebuildFromMinutes) == Some((Timeframe::M1, 100_000i64)),
        reading(Task::BackfillSource { tf }) == Some((tf, 1_500i64)),
        request(Task::BackfillSource { tf }) == Some((tf, 1_500i64)),
        reading(Task::StageNative) == Some((Timeframe::H1, 5_000i64)),
        request(Task::StageNative) == Some((Timeframe::H4, 1_500i64)),
        reading(Task::RewriteH4) == Some((Timeframe::H1, 5_000i64)),
        reading(Task::Inspect { tf, limit }) == Some((tf, limit)),
        reading(Task::Seed { tf, limit }) == Some((tf, limit)),
        request(Task::FillFromMinutes) is None,
        request(Task::RewriteH4) is None,
        request(Task::Inspect { tf, limit }) is None,
{
}

/// The provider is asked only for what does not suffice, and for four hours only of
/// currency pairs.
pub proof fn law_the_provider_is_spared(
    tf: Timeframe,
    limit: i64,
    forex: bool,
    symbol: Seq<char>,
    bars: Seq<BarModel>,
    now: int,
)
    ensures
        called_for(Task::RefreshChart { tf, limit }, forex, symbol, bars, now) == needs_refresh(
            bars,
            2,
            now,
        ),
        called_for(Task::BackfillSource { tf }, forex, symbol, bars, now) == needs_backfill(
            bars,
            1_100,
            now,
        ),
        !forex ==> !called_for(Task::StageNative, forex, symbol, bars, now),
        forex ==> called_for(Task::StageNative, forex, symbol, bars, now) == incomplete(
            bars,
            symbol,
            now,
        ),
        called_for(Task::Inspect { tf, limit }, forex, symbol, bars, now) == pair_incomplete(
            symbol,
            tf,
            bars,
            now,
        ),
        called_for(Task::FillFromMinutes, forex, symbol, bars, now),
        called_for(Task::RewriteH4, forex, symbol, bars, now),
{
}

/// Repairs are counted where something was stored; what is still missing is counted
/// by inspections alone.
pub proof fn law_repairs_are_counted(tf: Timeframe, limit: i64, n: usize, suffices: bool, outcome: Outcome)
    ensures
        repairs(Task::RefreshChart { tf, limit }, Outcome::Fetched { suffices }) == 1,
        repairs(Task::StageNative, Outcome::Fetched { suffices }) == 1,
        repairs(Task::BackfillSource { tf }, Outcome::Fetched { suffices: true }) == 1,
        repairs(Task::BackfillSource { tf }, Outcome::Fetched { suffices: false }) == 0,
        repairs(Task::FillFromMinutes, Outcome::Added(n)) == n,
        repairs(Task::RewriteH4, Outcome::Rewritten) == 1,
        repairs(Task::Inspect { tf, limit }, outcome) == 0,
        repairs(Task::RefreshChart { tf, limit }, Outcome::Untouched) == 0,
        lacks(Task::Inspect { tf, limit }, Outcome::Lacking) == 1,
        !(outcome is Lacking) ==> lacks(Task::Inspect { tf, limit }, outcome) == 0,
        lacks(Task::RefreshChart { tf, limit }, outcome) == 0,
{
}

/// An audit looks as far back as each period is shown or replayed.
pub proof fn law_inspections_look_far_enough(symbols: Seq<Seq<char>>, s: int)
    requires
        0 <= s < symbols.len(),
    ensures
        ({
            let all = reconnect_plan(symbols);
            let look = |tf: Timeframe, n: i64| step_for(symbols[s], Task::Inspect { tf, limit: n });
            &&& all.contains(look(Timeframe::M1, 5_000))
            &&& all.contains(look(Timeframe::M5, 1_500))
            &&& all.contains(look(Timeframe::M15, 1_500))
            &&& all.contains(look(Timeframe::M30, 1_500))
            &&& all.contains(look(Timeframe::H1, 1_500))
            &&& all.contains(look(Timeframe::H4, 64))
            &&& all.contains(look(Timeframe::D1, 500))
            &&& all.contains(look(Timeframe::W1, 500))
            &&& all.contains(look(Timeframe::MN1, 500))
        }),
{
    let all = reconnect_plan(symbols);
    let f = each(symbols, inspect_tasks());
    let first = reconnect_repairs(symbols);
    assert(all == first + f);
    assert forall|x: StepModel| f.contains(x) implies #[trigger] all.contains(x) by {
        lemma_sum_contains(first, f, x);
    }
    lemma_each_holds(symbols, inspect_tasks(), s, 0);
    lemma_each_holds(symbols, inspect_tasks(), s, 1);
    lemma_each_holds(symbols, inspect_tasks(), s, 2);
    lemma_each_holds(symbols, inspect_tasks(), s, 3);
    lemma_each_holds(symbols, inspect_tasks(), s, 4);
    lemma_each_holds(symbols, inspect_tasks(), s, 5);
    lemma_each_holds(symbols, inspect_tasks(), s, 6);
    lemma_each_holds(symbols, inspect_tasks(), s, 7);
    lemma_each_holds(symbols, inspect_tasks(), s, 8);
}

} // verus!
