//! What the feed of candles causes, and which instruments it serves.
use vstd::prelude::*;
use crate::aggregator::AggregatorModel;
use crate::history::closes_of;
use crate::sorting::{law_sorting, sorted_by, strict_weak};
use crate::subscription::{
    after, all_late_actions, all_live_actions, batch_actions, by_text, held_by, known_symbols,
    late_actions, live_actions, same_texts, to_seed, ActionModel, WorkerModel,
};
use crate::text::{lemma_push_contains, lemma_text_order, text_before};
use crate::types::{BarEventModel, BarModel};
use crate::watchlist::{union_of, with_texts, WatchlistModel};

verus! {

/// A candle that closes is stored first, then shown as closed, given to the
/// detectors, and to the divergences as live; reversals are looked for on five
/// minutes alone.
pub proof fn law_a_closed_candle_is_stored_first(bar: BarModel)
    ensures
        ({
            let all = live_actions(BarEventModel::BarClosed(bar));
            &&& all[0] == ActionModel::Store(bar)
            &&& all.contains(ActionModel::Show { bar, closed: true })
            &&& all.contains(ActionModel::DetectClosed(bar))
            &&& all.contains(ActionModel::Feed { bar, historical: false })
            &&& all.contains(ActionModel::FeedReversals { bar, seeding: false }) <==> bar.tf is M5
            &&& !all.contains(ActionModel::DetectOpen(bar))
            &&& !all.contains(ActionModel::Show { bar, closed: false })
            &&& all.len() == if bar.tf is M5 {
                5nat
            } else {
                4
            }
        }),
{
    let all = live_actions(BarEventModel::BarClosed(bar));
    assert(all[1] == ActionModel::Show { bar, closed: true });
    assert(all[2] == ActionModel::DetectClosed(bar));
    assert(all[3] == ActionModel::Feed { bar, historical: false });
    if bar.tf is M5 {
        assert(all[4] == ActionModel::FeedReversals { bar, seeding: false });
    }
}

/// An open candle is shown as open and watched, and never stored.
pub proof fn law_an_open_candle_is_only_shown(bar: BarModel, k: int)
    ensures
        ({
            let all = live_actions(BarEventModel::BarUpdate(bar));
            &&& all.contains(ActionModel::Show { bar, closed: false })
            &&& all.contains(ActionModel::DetectOpen(bar))
            &&& 0 <= k < all.len() ==> !(all[k] is Store) && !(all[k] is Feed) && !(
            all[k] is DetectClosed)
        }),
{
    let all = live_actions(BarEventModel::BarUpdate(bar));
    assert(all[0] == ActionModel::Show { bar, closed: false });
    assert(all[1] == ActionModel::DetectOpen(bar));
}

proof fn lemma_sum_contains<A>(a: Seq<A>, b: Seq<A>, x: A)
    ensures
        (a + b).contains(x) <==> a.contains(x) || b.contains(x),
{
    if a.contains(x) {
        let k = choose|k: int| 0 <= k < a.len() && a[k] == x;
        assert((a + b)[k] == x);
    }
    if b.contains(x) {
        let k = choose|k: int| 0 <= k < b.len() && b[k] == x;
        assert((a + b)[a.len() + k] == x);
    }
}

/// Several events cause what each of them causes, one after another.
pub proof fn law_events_are_handled_in_order(events: Seq<BarEventModel>, n: int, x: ActionModel)
    requires
        0 <= n <= events.len(),
    ensures
        all_live_actions(events) == all_live_actions(events.take(n)) + all_live_actions(
            events.skip(n),
        ),
        all_live_actions(events).contains(x) <==> exists|i: int|
            0 <= i < events.len() && live_actions(#[trigger] events[i]).contains(x),
    decreases events.len(),
{
    if events.len() == 0 {
        assert(events.take(n) =~= events && events.skip(n) =~= events);
        assert(all_live_actions(events) + all_live_actions(events) =~= all_live_actions(events));
    } else {
        let rest = events.drop_last();
        let m = if n < events.len() {
            n
        } else {
            rest.len() as int
        };
        law_events_are_handled_in_order(rest, m, x);
        lemma_sum_contains(all_live_actions(rest), live_actions(events.last()), x);
        if all_live_actions(rest).contains(x) {
            let i = choose|i: int|
                0 <= i < rest.len() && live_actions(#[trigger] rest[i]).contains(x);
            assert(events[i] == rest[i]);
        }
        if live_actions(events.last()).contains(x) {
            assert(events[events.len() - 1] == events.last());
        }
        if exists|i: int|
            0 <= i < events.len() && live_actions(#[trigger] events[i]).contains(x) {
            let i = choose|i: int|
                0 <= i < events.len() && live_actions(#[trigger] events[i]).contains(x);
            if i < rest.len() {
                assert(rest[i] == events[i]);
            }
        }
        if n == events.len() {
            assert(events.take(n) =~= events);
            assert(events.skip(n) =~= Seq::<BarEventModel>::empty());
            assert(all_live_actions(events) + Seq::<ActionModel>::empty() =~= all_live_actions(
                events,
            ));
        } else {
            assert(events.take(n) =~= rest.take(n));
            assert(events.skip(n).drop_last() =~= rest.skip(n));
            assert(events.skip(n).last() == events.last());
            let a = all_live_actions(events.take(n));
            let b = all_live_actions(rest.skip(n));
            let c = live_actions(events.last());
            assert((a + b) + c =~= a + (b + c));
        }
    }
}

/// The minutes that are replayed are those after the last known one.
pub proof fn law_only_new_minutes_are_replayed(bars: Seq<BarModel>, ts: i64, x: BarModel)
    ensures
        after(bars, ts).contains(x) <==> bars.contains(x) && x.ts > ts,
    decreases bars.len(),
{
    if bars.len() > 0 {
        let rest = bars.drop_last();
        law_only_new_minutes_are_replayed(rest, ts, x);
        lemma_push_contains(rest, bars.last(), x);
        lemma_push_contains(after(rest, ts), bars.last(), x);
        assert(rest.push(bars.last()) =~= bars);
    }
}

/// A first batch for an unknown instrument is replayed whole; every other batch
/// only behind what is known.
pub proof fn law_a_batch_is_replayed_once(
    w: WorkerModel,
    already_seeded: bool,
    last_ts: Option<i64>,
    bars: Seq<BarModel>,
    x: BarModel,
)
    ensures
        !w.ranges_done && !already_seeded ==> to_seed(w, already_seeded, last_ts, bars) == bars,
        w.ranges_done || already_seeded ==> (last_ts matches Some(ts) ==> (to_seed(
            w,
            already_seeded,
            last_ts,
            bars,
        ).contains(x) <==> bars.contains(x) && x.ts > ts)),
        (w.ranges_done || already_seeded) && last_ts is None ==> (to_seed(
            w,
            already_seeded,
            last_ts,
            bars,
        ).contains(x) <==> bars.contains(x) && x.ts > 0),
{
    law_only_new_minutes_are_replayed(
        bars,
        match last_ts {
            Some(ts) => ts,
            None => 0,
        },
        x,
    );
}

/// Every minute of a batch is given to the detectors and then to the divergences as
/// history; every higher candle that it completes is stored and follows likewise.
pub proof fn law_a_batch_is_history(s: AggregatorModel, bars: Seq<BarModel>, i: int, c: int)
    requires
        0 <= i < bars.len(),
        0 <= c < closes_of(s, bars).len(),
    ensures
        ({
            let all = batch_actions(s, bars);
            let close = closes_of(s, bars)[c];
            &&& all[i] == ActionModel::Seed(bars[i])
            &&& all[bars.len() + i] == (ActionModel::Feed { bar: bars[i], historical: true })
            &&& all[2 * bars.len() as int] is Persist
            &&& all.last() is Persist
            &&& all.contains(ActionModel::Store(close))
            &&& all.contains(ActionModel::Seed(close))
            &&& all.contains(ActionModel::Feed { bar: close, historical: true })
            &&& close.tf is M5 ==> all.contains(
                ActionModel::FeedReversals { bar: close, seeding: true },
            )
        }),
{
    let all = batch_actions(s, bars);
    let closes = closes_of(s, bars);
    let n = bars.len();
    let a = Seq::new(n, |i: int| ActionModel::Seed(bars[i]));
    let b = Seq::new(n, |i: int| ActionModel::Feed { bar: bars[i], historical: true });
    let p = seq![ActionModel::Persist];
    let l = all_late_actions(closes);
    assert(all == a + b + p + l + p);
    let close = closes[c];
    let own = late_actions(close);
    assert(own[0] == ActionModel::Store(close));
    assert(own[1] == ActionModel::Seed(close));
    assert(own[2] == (ActionModel::Feed { bar: close, historical: true }));
    if close.tf is M5 {
        assert(own[3] == (ActionModel::FeedReversals { bar: close, seeding: true }));
    }
    assert forall|x: ActionModel| own.contains(x) implies #[trigger] all.contains(x) by {
        lemma_late(closes, c, x);
        lemma_sum_contains(a + b + p, l, x);
        lemma_sum_contains(a + b + p + l, p, x);
    }
    assert(own.contains(own[0]) && own.contains(own[1]) && own.contains(own[2]));
    if close.tf is M5 {
        assert(own.contains(own[3]));
    }
}

proof fn lemma_late(bars: Seq<BarModel>, c: int, x: ActionModel)
    requires
        0 <= c < bars.len(),
        late_actions(bars[c]).contains(x),
    ensures
        all_late_actions(bars).contains(x),
    decreases bars.len(),
{
    let rest = bars.drop_last();
    lemma_sum_contains(all_late_actions(rest), late_actions(bars.last()), x);
    if c < rest.len() {
        assert(rest[c] == bars[c]);
        lemma_late(rest, c, x);
    }
}

/// Of a list those texts are kept that another holds, or those that it lacks.
pub proof fn law_workers_are_kept_or_released(
    list: Seq<Seq<char>>,
    other: Seq<Seq<char>>,
    x: Seq<char>,
)
    ensures
        held_by(list, other, true).contains(x) <==> list.contains(x) && other.contains(x),
        held_by(list, other, false).contains(x) <==> list.contains(x) && !other.contains(x),
    decreases list.len(),
{
    if list.len() > 0 {
        let rest = list.drop_last();
        law_workers_are_kept_or_released(rest, other, x);
        lemma_push_contains(rest, list.last(), x);
        lemma_push_contains(held_by(rest, other, true), list.last(), x);
        lemma_push_contains(held_by(rest, other, false), list.last(), x);
        assert(rest.push(list.last()) =~= list);
    }
}

proof fn lemma_with_texts(list: Seq<Seq<char>>, more: Seq<Seq<char>>, x: Seq<char>)
    ensures
        with_texts(list, more).contains(x) <==> list.contains(x) || more.contains(x),
        list.no_duplicates() ==> with_texts(list, more).no_duplicates(),
    decreases more.len(),
{
    if more.len() > 0 {
        let rest = more.drop_last();
        lemma_with_texts(list, rest, x);
        lemma_push_contains(rest, more.last(), x);
        assert(rest.push(more.last()) =~= more);
        let held = with_texts(list, rest);
        if !held.contains(more.last()) {
            lemma_push_contains(held, more.last(), x);
            if list.no_duplicates() {
                let now = held.push(more.last());
                assert forall|i: int, j: int| 0 <= i < now.len() && 0 <= j < now.len() && i != j implies
                    now[i] != now[j] by {
                    if i < held.len() && j < held.len() {
                        assert(held[i] != held[j]);
                    } else if i < held.len() {
                        assert(held.contains(held[i]));
                    } else {
                        assert(held.contains(held[j]));
                    }
                }
            }
        }
    }
}

/// The workers after a change are those of the wanted instruments, each once, and
/// the feed subscribes exactly them in order.
pub proof fn law_the_feed_serves_the_wanted_instruments(
    running: Seq<Seq<char>>,
    wanted: Seq<Seq<char>>,
    x: Seq<char>,
    i: int,
    j: int,
)
    requires
        running.no_duplicates(),
    ensures
        ({
            let next = with_texts(held_by(running, wanted, true), wanted);
            let feed = sorted_by(next, by_text());
            &&& next.contains(x) <==> wanted.contains(x)
            &&& next.no_duplicates()
            &&& feed.to_multiset() == next.to_multiset()
            &&& 0 <= i < j < feed.len() ==> !text_before(feed[j], feed[i])
        }),
{
    let kept = held_by(running, wanted, true);
    let next = with_texts(kept, wanted);
    law_workers_are_kept_or_released(running, wanted, x);
    lemma_held_once(running, wanted);
    lemma_with_texts(kept, wanted, x);
    let before = by_text();
    assert forall|a: Seq<char>, b: Seq<char>| #[trigger] before(a, b) implies !before(b, a) by {
        lemma_text_order(a, b, a);
    }
    assert forall|a: Seq<char>, b: Seq<char>, c: Seq<char>|
        !(#[trigger] before(b, a)) && !(#[trigger] before(c, b)) implies !before(c, a) by {
        lemma_text_order(a, b, c);
        lemma_text_order(c, a, b);
        lemma_text_order(b, c, a);
        lemma_text_order(c, b, a);
        lemma_text_order(b, a, c);
    }
    assert(strict_weak(before));
    law_sorting(next, before);
    let feed = sorted_by(next, before);
    if 0 <= i < j < feed.len() {
        assert(!before(feed[j], feed[i]));
    }
}

proof fn lemma_held_once(list: Seq<Seq<char>>, other: Seq<Seq<char>>)
    requires
        list.no_duplicates(),
    ensures
        held_by(list, other, true).no_duplicates(),
    decreases list.len(),
{
    if list.len() > 0 {
        let rest = list.drop_last();
        assert(rest.no_duplicates()) by {
            assert forall|i: int, j: int|
                0 <= i < rest.len() && 0 <= j < rest.len() && i != j implies rest[i] != rest[j] by {
                assert(list[i] != list[j]);
            }
        }
        lemma_held_once(rest, other);
        let held = held_by(rest, other, true);
        law_workers_are_kept_or_released(rest, other, list.last());
        if other.contains(list.last()) {
            let now = held.push(list.last());
            if held.contains(list.last()) {
                let k = choose|k: int| 0 <= k < rest.len() && rest[k] == list.last();
                assert(list[k] != list[list.len() - 1]);
            }
            assert forall|i: int, j: int| 0 <= i < now.len() && 0 <= j < now.len() && i != j implies
                now[i] != now[j] by {
                if i < held.len() && j < held.len() {
                    assert(held[i] != held[j]);
                } else if i < held.len() {
                    assert(held.contains(held[i]));
                } else {
                    assert(held.contains(held[j]));
                }
            }
        }
    }
}

/// Every instrument that is built in, saved for viewing or watched is known, each
/// once, and no other.
pub proof fn law_known_instruments(
    base: Seq<Seq<char>>,
    charts: Seq<Seq<char>>,
    groups: Seq<WatchlistModel>,
    x: Seq<char>,
)
    ensures
        known_symbols(base, charts, groups).no_duplicates(),
        known_symbols(base, charts, groups).contains(x) <==> base.contains(x) || charts.contains(x)
            || exists|g: int|
            0 <= g < groups.len() && (#[trigger] groups[g]).symbols.contains(x),
{
    let none = Seq::<Seq<char>>::empty();
    let union = union_of(groups);
    lemma_with_texts(none, base, x);
    lemma_with_texts(with_texts(none, base), charts, x);
    lemma_with_texts(with_texts(with_texts(none, base), charts), union, x);
    lemma_union(groups, x);
}

proof fn lemma_union(groups: Seq<WatchlistModel>, x: Seq<char>)
    ensures
        union_of(groups).contains(x) <==> exists|g: int|
            0 <= g < groups.len() && (#[trigger] groups[g]).symbols.contains(x),
    decreases groups.len(),
{
    if groups.len() > 0 {
        let rest = groups.drop_last();
        lemma_union(rest, x);
        lemma_with_texts(union_of(rest), groups.last().symbols, x);
        if union_of(rest).contains(x) {
            let g = choose|g: int|
                0 <= g < rest.len() && (#[trigger] rest[g]).symbols.contains(x);
            assert(groups[g] == rest[g]);
        }
        if groups.last().symbols.contains(x) {
            assert(groups[groups.len() - 1].symbols.contains(x));
        }
        if exists|g: int| 0 <= g < groups.len() && (#[trigger] groups[g]).symbols.contains(x) {
            let g = choose|g: int|
                0 <= g < groups.len() && (#[trigger] groups[g]).symbols.contains(x);
            if g < rest.len() {
                assert(rest[g] == groups[g]);
            }
        }
    }
}

/// The feed stays where the running instruments are the wanted ones.
pub proof fn law_the_same_instruments_in_any_order(a: Seq<Seq<char>>, b: Seq<Seq<char>>)
    ensures
        same_texts(a, b) <==> forall|x: Seq<char>| #[trigger] a.contains(x) == b.contains(x),
{
    if same_texts(a, b) {
        assert forall|x: Seq<char>| #[trigger] a.contains(x) == b.contains(x) by {
            if a.contains(x) {
                let k = choose|k: int| 0 <= k < a.len() && a[k] == x;
                assert(b.contains(a[k]));
            }
            if b.contains(x) {
                let k = choose|k: int| 0 <= k < b.len() && b[k] == x;
                assert(a.contains(b[k]));
            }
        }
    }
    if forall|x: Seq<char>| #[trigger] a.contains(x) == b.contains(x) {
        assert forall|i: int| 0 <= i < a.len() implies b.contains(#[trigger] a[i]) by {
            assert(a.contains(a[i]));
        }
        assert forall|i: int| 0 <= i < b.len() implies a.contains(#[trigger] b[i]) by {
            assert(b.contains(b[i]));
            assert(a.contains(b[i]) == b.contains(b[i]));
        }
    }
}

} // verus!
