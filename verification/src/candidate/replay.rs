//! Rebuilding candidates from stored divergences, reversals and candles.
use vstd::prelude::*;
use crate::candidate::engine::{
    and_then, c2_step, c3_step, compared_on, deadline_step, input_step, lemma_position,
    lemma_taken_up, lemma_update_keeps_wf, no_step, position, smt_fits, CandidateEngine,
    EngineModel, EngineStep,
};
use crate::candidate::lifecycle::{
    apply_event, break_leg, breaks_c2, changed, deadline_fits, event_applied, is_c2_break,
    is_resolved, is_seen, leg_broken, leg_validated, lemma_break_keeps_wf, lemma_event_keeps_wf,
    resolved, seen, untouched, validated_for, Outcome,
};
use crate::candidate::rules::{
    effective_dir, effective_ltf_dir, executable, executable_symbols, find_chain, first_chain,
    sweeper_detection_state, sweeper_state_of, symbol_validation_window, validation_window,
    CandidateEntry, EntryModel,
};
use crate::candidate::types::{
    CandidateChange, ChangeModel, ExpiryReason, LtfEventModel, LtfEventRef, SetupStatus,
};
use crate::detector::{
    Direction, IctStructure, IctStructureModel, ReversalConfirmKind, SmtDetectionState,
    SmtDivergence, SmtModel,
};
use crate::text::{lemma_text_order, owned, text_before, text_eq, text_lt};
use crate::types::{Bar, BarModel, Timeframe};

verus! {

/// A reversal among the detected structures.
pub open spec fn reversal_of(s: IctStructureModel) -> Option<LtfEventModel> {
    match s {
        IctStructureModel::Cisd(c) => Some(
            LtfEventModel {
                id: c.id,
                symbol: c.symbol,
                kind: ReversalConfirmKind::Cisd,
                direction: c.direction,
                ts: c.break_ts,
                price: c.break_price,
            },
        ),
        IctStructureModel::Mss(m) => Some(
            LtfEventModel {
                id: m.id,
                symbol: m.symbol,
                kind: ReversalConfirmKind::Mss,
                direction: m.direction,
                ts: m.break_ts,
                price: m.break_price,
            },
        ),
        _ => None,
    }
}

/// Order of reversals: by time, then instrument, then identifier.
pub open spec fn event_before(a: LtfEventModel, b: LtfEventModel) -> bool {
    a.ts < b.ts || (a.ts == b.ts && (text_before(a.symbol, b.symbol) || (a.symbol == b.symbol
        && text_before(a.id, b.id))))
}

/// The list with one more reversal behind those that are not after it.
pub open spec fn event_inserted(list: Seq<LtfEventModel>, e: LtfEventModel) -> Seq<LtfEventModel>
    decreases list.len(),
{
    if list.len() > 0 && event_before(e, list.last()) {
        event_inserted(list.drop_last(), e).push(list.last())
    } else {
        list.push(e)
    }
}

/// The reversals among the structures, in order.
pub open spec fn ordered_reversals(structures: Seq<IctStructureModel>) -> Seq<LtfEventModel>
    decreases structures.len(),
{
    if structures.len() == 0 {
        Seq::empty()
    } else {
        let before = ordered_reversals(structures.drop_last());
        match reversal_of(structures.last()) {
            Some(e) => event_inserted(before, e),
            None => before,
        }
    }
}

/// The list without neighbours of the same identifier; the first stays.
pub open spec fn without_repeats(list: Seq<LtfEventModel>) -> Seq<LtfEventModel>
    decreases list.len(),
{
    if list.len() == 0 {
        Seq::empty()
    } else {
        let before = without_repeats(list.drop_last());
        if before.len() > 0 && before.last().id == list.last().id {
            before
        } else {
            before.push(list.last())
        }
    }
}

/// Reversals in chronological order.
pub open spec fn chronological(list: Seq<LtfEventModel>) -> bool {
    forall|i: int, j: int|
        0 <= i < j < list.len() ==> !event_before(#[trigger] list[j], #[trigger] list[i])
}

pub proof fn lemma_event_order(a: LtfEventModel, b: LtfEventModel, c: LtfEventModel)
    ensures
        !event_before(a, a),
        event_before(a, b) && event_before(b, c) ==> event_before(a, c),
        event_before(a, b) && !event_before(c, b) ==> event_before(a, c),
{
    lemma_text_order(a.symbol, b.symbol, c.symbol);
    lemma_text_order(a.id, b.id, c.id);
    lemma_text_order(a.symbol, c.symbol, b.symbol);
    lemma_text_order(a.id, c.id, b.id);
    lemma_text_order(b.symbol, c.symbol, a.symbol);
    lemma_text_order(b.id, c.id, a.id);
    lemma_text_order(c.symbol, b.symbol, a.symbol);
    lemma_text_order(c.id, b.id, a.id);
}

proof fn lemma_event_inserted_members(list: Seq<LtfEventModel>, e: LtfEventModel)
    ensures
        event_inserted(list, e).len() == list.len() + 1,
        forall|x: LtfEventModel| #[trigger]
            event_inserted(list, e).contains(x) == (list.contains(x) || x == e),
    decreases list.len(),
{
    if list.len() > 0 && event_before(e, list.last()) {
        lemma_event_inserted_members(list.drop_last(), e);
        assert(list =~= list.drop_last().push(list.last()));
        assert forall|x: LtfEventModel| #[trigger] event_inserted(list, e).contains(x) == (
        list.contains(x) || x == e) by {
            crate::text::lemma_push_contains(event_inserted(list.drop_last(), e), list.last(), x);
            crate::text::lemma_push_contains(list.drop_last(), list.last(), x);
        }
    } else {
        assert forall|x: LtfEventModel| #[trigger] event_inserted(list, e).contains(x) == (
        list.contains(x) || x == e) by {
            crate::text::lemma_push_contains(list, e, x);
        }
    }
}

proof fn lemma_event_inserted_order(list: Seq<LtfEventModel>, e: LtfEventModel)
    requires
        chronological(list),
    ensures
        chronological(event_inserted(list, e)),
    decreases list.len(),
{
    let after = event_inserted(list, e);
    if list.len() > 0 && event_before(e, list.last()) {
        let rest = list.drop_last();
        let inner = event_inserted(rest, e);
        assert forall|i: int, j: int| 0 <= i < j < rest.len() implies !event_before(
            #[trigger] rest[j],
            #[trigger] rest[i],
        ) by {
            assert(rest[i] == list[i] && rest[j] == list[j]);
        }
        lemma_event_inserted_order(rest, e);
        lemma_event_inserted_members(rest, e);
        assert forall|i: int, j: int| 0 <= i < j < after.len() implies !event_before(
            #[trigger] after[j],
            #[trigger] after[i],
        ) by {
            if j == after.len() - 1 {
                assert(after[i] == inner[i]);
                assert(inner.contains(inner[i]));
                if inner[i] == e {
                    lemma_event_order(e, list.last(), e);
                } else {
                    assert(rest.contains(inner[i]));
                    let k = choose|k: int| 0 <= k < rest.len() && rest[k] == inner[i];
                    assert(!event_before(list[list.len() - 1], list[k]));
                }
            } else {
                assert(after[i] == inner[i] && after[j] == inner[j]);
            }
        }
    } else {
        assert forall|i: int, j: int| 0 <= i < j < after.len() implies !event_before(
            #[trigger] after[j],
            #[trigger] after[i],
        ) by {
            if j == after.len() - 1 {
                assert(after[i] == list[i]);
                if i < list.len() - 1 {
                    assert(!event_before(list[list.len() - 1], list[i]));
                    if event_before(e, list[i]) {
                        lemma_event_order(e, list[i], list.last());
                    }
                }
            } else {
                assert(after[i] == list[i] && after[j] == list[j]);
            }
        }
    }
}

proof fn lemma_without_repeats_order(list: Seq<LtfEventModel>)
    requires
        chronological(list),
    ensures
        chronological(without_repeats(list)),
        forall|x: LtfEventModel| #[trigger] without_repeats(list).contains(x) ==> list.contains(x),
    decreases list.len(),
{
    if list.len() > 0 {
        let rest = list.drop_last();
        assert forall|i: int, j: int| 0 <= i < j < rest.len() implies !event_before(
            #[trigger] rest[j],
            #[trigger] rest[i],
        ) by {
            assert(rest[i] == list[i] && rest[j] == list[j]);
        }
        lemma_without_repeats_order(rest);
        let before = without_repeats(rest);
        let after = without_repeats(list);
        assert(list =~= rest.push(list.last()));
        assert forall|x: LtfEventModel| #[trigger] after.contains(x) implies list.contains(x) by {
            crate::text::lemma_push_contains(before, list.last(), x);
            crate::text::lemma_push_contains(rest, list.last(), x);
        }
        assert forall|i: int, j: int| 0 <= i < j < after.len() implies !event_before(
            #[trigger] after[j],
            #[trigger] after[i],
        ) by {
            assert(after[i] == before[i]);
            if j < before.len() {
                assert(after[j] == before[j]);
            } else {
                assert(before.contains(before[i]));
                assert(rest.contains(before[i]));
                let k = choose|k: int| 0 <= k < rest.len() && rest[k] == before[i];
                assert(!event_before(list[list.len() - 1], list[k]));
            }
        }
    }
}

/// Extracted reversals are in chronological order, whatever the order of the
/// structures.
pub proof fn law_reversals_are_chronological(structures: Seq<IctStructureModel>)
    ensures
        chronological(ordered_reversals(structures)),
        chronological(without_repeats(ordered_reversals(structures))),
    decreases structures.len(),
{
    if structures.len() > 0 {
        law_reversals_are_chronological(structures.drop_last());
        let before = ordered_reversals(structures.drop_last());
        match reversal_of(structures.last()) {
            Some(e) => {
                lemma_event_inserted_order(before, e);
            },
            None => {},
        }
    }
    lemma_without_repeats_order(ordered_reversals(structures));
}

/// No two reversals among the structures have the same identifier.
pub open spec fn distinct_reversals(structures: Seq<IctStructureModel>) -> bool {
    forall|i: int, j: int|
        0 <= i < j < structures.len() && reversal_of(#[trigger] structures[i]) is Some
            && reversal_of(#[trigger] structures[j]) is Some ==> (reversal_of(
            structures[i],
        )->0).id != (reversal_of(structures[j])->0).id
}

/// The reversals among the structures, as they come.
pub open spec fn reversals_in(structures: Seq<IctStructureModel>) -> Seq<LtfEventModel>
    decreases structures.len(),
{
    if structures.len() == 0 {
        Seq::empty()
    } else {
        let before = reversals_in(structures.drop_last());
        match reversal_of(structures.last()) {
            Some(e) => before.push(e),
            None => before,
        }
    }
}

spec fn distinct_ids(list: Seq<LtfEventModel>) -> bool {
    forall|i: int, j: int| 0 <= i < j < list.len() ==> #[trigger] list[i].id != #[trigger] list[j].id
}

proof fn lemma_event_inserted_multiset(list: Seq<LtfEventModel>, e: LtfEventModel)
    ensures
        event_inserted(list, e).to_multiset() == list.to_multiset().insert(e),
    decreases list.len(),
{
    broadcast use vstd::seq_lib::group_to_multiset_ensures;

    if list.len() > 0 && event_before(e, list.last()) {
        lemma_event_inserted_multiset(list.drop_last(), e);
        assert(list.drop_last().push(list.last()) =~= list);
        assert(event_inserted(list, e).to_multiset() =~= list.to_multiset().insert(e));
    }
}

proof fn lemma_ordering_keeps_reversals(structures: Seq<IctStructureModel>)
    ensures
        ordered_reversals(structures).to_multiset() == reversals_in(structures).to_multiset(),
    decreases structures.len(),
{
    broadcast use vstd::seq_lib::group_to_multiset_ensures;

    if structures.len() > 0 {
        lemma_ordering_keeps_reversals(structures.drop_last());
        match reversal_of(structures.last()) {
            Some(e) => {
                lemma_event_inserted_multiset(ordered_reversals(structures.drop_last()), e);
            },
            None => {},
        }
    }
}

proof fn lemma_reversal_taken_out(structures: Seq<IctStructureModel>, k: int)
    requires
        0 <= k < structures.len(),
    ensures
        reversals_in(structures).to_multiset() == match reversal_of(structures[k]) {
            Some(e) => reversals_in(structures.remove(k)).to_multiset().insert(e),
            None => reversals_in(structures.remove(k)).to_multiset(),
        },
    decreases structures.len(),
{
    broadcast use vstd::seq_lib::group_to_multiset_ensures;

    let rest = structures.remove(k);
    if k == structures.len() - 1 {
        assert(rest =~= structures.drop_last());
    } else {
        lemma_reversal_taken_out(structures.drop_last(), k);
        assert(rest.drop_last() =~= structures.drop_last().remove(k));
        assert(rest.last() == structures.last());
        assert(structures.drop_last()[k] == structures[k]);
        match reversal_of(structures[k]) {
            Some(e) => {
                assert(reversals_in(structures).to_multiset() =~= reversals_in(
                    rest,
                ).to_multiset().insert(e));
            },
            None => {},
        }
    }
}

proof fn lemma_reversals_in_any_order(a: Seq<IctStructureModel>, b: Seq<IctStructureModel>)
    requires
        a.to_multiset() == b.to_multiset(),
    ensures
        reversals_in(a).to_multiset() == reversals_in(b).to_multiset(),
    decreases a.len(),
{
    broadcast use vstd::seq_lib::group_to_multiset_ensures;

    assert(a.len() == a.to_multiset().len());
    assert(b.len() == b.to_multiset().len());
    if a.len() > 0 {
        let m = a.len() - 1;
        assert(a.contains(a[m]));
        assert(b.to_multiset().count(a[m]) > 0);
        assert(b.contains(a[m]));
        let k = choose|k: int| 0 <= k < b.len() && b[k] == a[m];
        assert(a.remove(m).to_multiset() == a.to_multiset().remove(a[m]));
        assert(b.remove(k).to_multiset() == b.to_multiset().remove(b[k]));
        lemma_reversal_taken_out(a, m);
        lemma_reversal_taken_out(b, k);
        lemma_reversals_in_any_order(a.remove(m), b.remove(k));
    }
}

proof fn lemma_event_inserted_ids(list: Seq<LtfEventModel>, e: LtfEventModel)
    requires
        distinct_ids(list),
        forall|i: int| 0 <= i < list.len() ==> (#[trigger] list[i]).id != e.id,
    ensures
        distinct_ids(event_inserted(list, e)),
    decreases list.len(),
{
    if list.len() > 0 && event_before(e, list.last()) {
        let rest = list.drop_last();
        assert forall|i: int| 0 <= i < rest.len() implies (#[trigger] rest[i]).id != e.id by {
            assert(rest[i] == list[i]);
        }
        lemma_event_inserted_ids(rest, e);
        lemma_event_inserted_members(rest, e);
        let inner = event_inserted(rest, e);
        let last = list[list.len() - 1];
        assert forall|i: int| 0 <= i < inner.len() implies (#[trigger] inner[i]).id != last.id by {
            assert(inner.contains(inner[i]));
            if inner[i] != e {
                assert(rest.contains(inner[i]));
                let k = choose|k: int| 0 <= k < rest.len() && rest[k] == inner[i];
                assert(list[k].id != list[list.len() - 1].id);
            }
        }
    }
}

proof fn lemma_ordered_ids(structures: Seq<IctStructureModel>)
    requires
        distinct_reversals(structures),
    ensures
        distinct_ids(ordered_reversals(structures)),
        forall|i: int|
            0 <= i < ordered_reversals(structures).len() ==> exists|k: int|
                0 <= k < structures.len() && reversal_of(#[trigger] structures[k]) == Some(
                    #[trigger] ordered_reversals(structures)[i],
                ),
    decreases structures.len(),
{
    if structures.len() > 0 {
        let rest = structures.drop_last();
        let last = structures[structures.len() - 1];
        assert forall|i: int, j: int|
            0 <= i < j < rest.len() && reversal_of(#[trigger] rest[i]) is Some && reversal_of(
                #[trigger] rest[j],
            ) is Some implies (reversal_of(rest[i])->0).id != (reversal_of(rest[j])->0).id by {
            assert(rest[i] == structures[i] && rest[j] == structures[j]);
        }
        lemma_ordered_ids(rest);
        let before = ordered_reversals(rest);
        let after = ordered_reversals(structures);
        match reversal_of(last) {
            Some(e) => {
                assert forall|i: int| 0 <= i < before.len() implies (#[trigger] before[i]).id
                    != e.id by {
                    let k = choose|k: int|
                        0 <= k < rest.len() && reversal_of(#[trigger] rest[k]) == Some(before[i]);
                    assert(structures[k] == rest[k]);
                    assert(reversal_of(structures[structures.len() - 1]) is Some);
                }
                lemma_event_inserted_ids(before, e);
                lemma_event_inserted_members(before, e);
            },
            None => {},
        }
        assert forall|i: int| 0 <= i < after.len() implies exists|k: int|
            0 <= k < structures.len() && reversal_of(#[trigger] structures[k]) == Some(
                #[trigger] after[i],
            ) by {
            assert(after.contains(after[i]));
            if reversal_of(last) == Some(after[i]) {
                assert(reversal_of(structures[structures.len() - 1]) == Some(after[i]));
            } else {
                assert(before.contains(after[i]));
                let t = choose|t: int| 0 <= t < before.len() && before[t] == after[i];
                let k = choose|k: int|
                    0 <= k < rest.len() && reversal_of(#[trigger] rest[k]) == Some(before[t]);
                assert(reversal_of(structures[k]) == Some(after[i]));
            }
        }
    }
}

proof fn lemma_nothing_repeated(list: Seq<LtfEventModel>)
    requires
        distinct_ids(list),
    ensures
        without_repeats(list) == list,
    decreases list.len(),
{
    if list.len() > 0 {
        let rest = list.drop_last();
        lemma_nothing_repeated(rest);
        assert(rest.push(list.last()) =~= list);
        if rest.len() > 0 {
            assert(list[list.len() - 2].id != list[list.len() - 1].id);
        }
    } else {
        assert(without_repeats(list) =~= list);
    }
}

proof fn lemma_chronological_is_unique(a: Seq<LtfEventModel>, b: Seq<LtfEventModel>)
    requires
        chronological(a),
        chronological(b),
        distinct_ids(a),
        a.to_multiset() == b.to_multiset(),
    ensures
        a == b,
    decreases a.len(),
{
    broadcast use vstd::seq_lib::group_to_multiset_ensures;

    assert(a.len() == a.to_multiset().len());
    assert(b.len() == b.to_multiset().len());
    if a.len() == 0 {
        assert(a =~= b);
    } else {
        let m = a.len() - 1;
        let x = a[m];
        let y = b[m];
        assert(a.contains(x) && b.contains(y));
        assert(b.to_multiset().count(x) > 0);
        assert(a.to_multiset().count(y) > 0);
        assert(b.contains(x) && a.contains(y));
        let j = choose|j: int| 0 <= j < b.len() && b[j] == x;
        let i = choose|i: int| 0 <= i < a.len() && a[i] == y;
        if x != y {
            assert(!event_before(b[m], b[j]));
            assert(!event_before(a[m], a[i]));
            lemma_text_order(x.symbol, y.symbol, x.symbol);
            lemma_text_order(x.id, y.id, x.id);
            assert(a[i].id != a[m].id);
        }
        let c = a.drop_last();
        let d = b.drop_last();
        assert(c =~= a.remove(m) && d =~= b.remove(m));
        assert(a.remove(m).to_multiset() == a.to_multiset().remove(a[m]));
        assert(b.remove(m).to_multiset() == b.to_multiset().remove(b[m]));
        assert forall|p: int, q: int| 0 <= p < q < c.len() implies !event_before(
            #[trigger] c[q],
            #[trigger] c[p],
        ) by {
            assert(c[p] == a[p] && c[q] == a[q]);
        }
        assert forall|p: int, q: int| 0 <= p < q < d.len() implies !event_before(
            #[trigger] d[q],
            #[trigger] d[p],
        ) by {
            assert(d[p] == b[p] && d[q] == b[q]);
        }
        lemma_chronological_is_unique(c, d);
        assert(c.push(x) =~= a);
        assert(d.push(y) =~= b);
    }
}

/// Where no two reversals share an identifier, every reversal among the structures
/// is extracted once, and nothing else is.
pub proof fn law_every_reversal_is_extracted(structures: Seq<IctStructureModel>)
    requires
        distinct_reversals(structures),
    ensures
        without_repeats(ordered_reversals(structures)).to_multiset() == reversals_in(
            structures,
        ).to_multiset(),
{
    lemma_ordered_ids(structures);
    lemma_nothing_repeated(ordered_reversals(structures));
    lemma_ordering_keeps_reversals(structures);
}

/// Where no two reversals share an identifier, what is extracted does not depend on
/// the order of the structures.
pub proof fn law_structures_may_come_in_any_order(
    a: Seq<IctStructureModel>,
    b: Seq<IctStructureModel>,
)
    requires
        a.to_multiset() == b.to_multiset(),
        distinct_reversals(a),
    ensures
        without_repeats(ordered_reversals(a)) == without_repeats(ordered_reversals(b)),
{
    lemma_ordered_ids(a);
    lemma_ordering_keeps_reversals(a);
    lemma_ordering_keeps_reversals(b);
    lemma_reversals_in_any_order(a, b);
    law_reversals_are_chronological(a);
    law_reversals_are_chronological(b);
    lemma_chronological_is_unique(ordered_reversals(a), ordered_reversals(b));
}

proof fn lemma_event_inserted_at(list: Seq<LtfEventModel>, e: LtfEventModel, i: int)
    requires
        0 <= i <= list.len(),
        forall|k: int| i <= k < list.len() ==> event_before(e, #[trigger] list[k]),
        i > 0 ==> !event_before(e, list[i - 1]),
    ensures
        event_inserted(list, e) == list.insert(i, e),
    decreases list.len(),
{
    if i < list.len() {
        assert(event_before(e, list[list.len() - 1]));
        assert forall|k: int| i <= k < list.len() - 1 implies event_before(
            e,
            #[trigger] list.drop_last()[k],
        ) by {
            assert(list.drop_last()[k] == list[k]);
        }
        lemma_event_inserted_at(list.drop_last(), e, i);
    }
    assert(event_inserted(list, e) =~= list.insert(i, e));
}

fn is_event_before(a: &LtfEventRef, b: &LtfEventRef) -> (r: bool)
    ensures
        r == event_before(a@, b@),
{
    if a.ts != b.ts {
        return a.ts < b.ts;
    }
    if text_lt(a.symbol.as_str(), b.symbol.as_str()) {
        return true;
    }
    text_eq(a.symbol.as_str(), b.symbol.as_str()) && text_lt(a.id.as_str(), b.id.as_str())
}

fn insert_event(list: &mut Vec<LtfEventRef>, e: LtfEventRef)
    ensures
        final(list).deep_view() == event_inserted(old(list).deep_view(), e@),
{
    let ghost before = list.deep_view();
    let mut i: usize = list.len();
    while i > 0 && is_event_before(&e, &list[i - 1])
        invariant
            i <= list.len(),
            list.deep_view() == before,
            forall|k: int| i <= k < before.len() ==> event_before(e@, #[trigger] before[k]),
        decreases i,
    {
        assert(before[i - 1] == list@[i - 1]@);
        i -= 1;
    }
    proof {
        if i > 0 {
            assert(before[i - 1] == list@[i - 1]@);
        }
        lemma_event_inserted_at(before, e@, i as int);
    }
    list.insert(i, e);
    assert(list.deep_view() =~= before.insert(i as int, e@));
}

/// The reversals among the structures, in chronological order and without
/// repetitions.
pub fn extract_ltf_events(structures: &[IctStructure]) -> (r: Vec<LtfEventRef>)
    ensures
        r.deep_view() == without_repeats(ordered_reversals(structures.deep_view())),
{
    let mut events: Vec<LtfEventRef> = Vec::new();
    let mut i: usize = 0;
    assert(events.deep_view() =~= ordered_reversals(structures.deep_view().take(0)));
    while i < structures.len()
        invariant
            i <= structures.len(),
            events.deep_view() == ordered_reversals(structures.deep_view().take(i as int)),
        decreases structures.len() - i,
    {
        proof {
            let now = structures.deep_view().take(i + 1);
            assert(now.drop_last() =~= structures.deep_view().take(i as int));
            assert(now.last() == structures@[i as int]@);
        }
        match &structures[i] {
            IctStructure::Cisd(c) => {
                insert_event(
                    &mut events,
                    LtfEventRef {
                        id: c.id.clone(),
                        symbol: c.symbol.clone(),
                        kind: ReversalConfirmKind::Cisd,
                        direction: c.direction,
                        ts: c.break_ts,
                        price: c.break_price,
                    },
                );
            },
            IctStructure::Mss(m) => {
                insert_event(
                    &mut events,
                    LtfEventRef {
                        id: m.id.clone(),
                        symbol: m.symbol.clone(),
                        kind: ReversalConfirmKind::Mss,
                        direction: m.direction,
                        ts: m.break_ts,
                        price: m.break_price,
                    },
                );
            },
            _ => {},
        }
        i += 1;
    }
    assert(structures.deep_view().take(i as int) =~= structures.deep_view());
    let mut out: Vec<LtfEventRef> = Vec::new();
    let mut j: usize = 0;
    assert(out.deep_view() =~= without_repeats(events.deep_view().take(0)));
    while j < events.len()
        invariant
            j <= events.len(),
            out.deep_view() == without_repeats(events.deep_view().take(j as int)),
        decreases events.len() - j,
    {
        let ghost before = out.deep_view();
        proof {
            let now = events.deep_view().take(j + 1);
            assert(now.drop_last() =~= events.deep_view().take(j as int));
            assert(now.last() == events@[j as int]@);
            if out.len() > 0 {
                assert(before.last() == out@[out.len() - 1]@);
            }
        }
        let repeated: bool = out.len() > 0 && text_eq(
            out[out.len() - 1].id.as_str(),
            events[j].id.as_str(),
        );
        if !repeated {
            out.push(events[j].clone());
            assert(out.deep_view() =~= before.push(events@[j as int]@));
        }
        j += 1;
    }
    assert(events.deep_view().take(j as int) =~= events.deep_view());
    out
}

/// Stored reversals of one instrument.
pub struct SymbolEvents {
    pub symbol: String,
    pub events: Vec<LtfEventRef>,
}

/// Stored five-minute candles of one instrument.
pub struct SymbolBars {
    pub symbol: String,
    pub bars: Vec<Bar>,
}

/// First list of reversals that is filed under an instrument.
pub open spec fn events_for(book: Seq<SymbolEvents>, symbol: Seq<char>) -> Seq<LtfEventModel>
    decreases book.len(),
{
    if book.len() == 0 {
        Seq::empty()
    } else if book[0].symbol@ == symbol {
        book[0].events.deep_view()
    } else {
        events_for(book.drop_first(), symbol)
    }
}

/// First list of candles that is filed under an instrument.
pub open spec fn bars_for(book: Seq<SymbolBars>, symbol: Seq<char>) -> Seq<BarModel>
    decreases book.len(),
{
    if book.len() == 0 {
        Seq::empty()
    } else if book[0].symbol@ == symbol {
        book[0].bars.deep_view()
    } else {
        bars_for(book.drop_first(), symbol)
    }
}

/// A stored candle or reversal of one instrument.
pub enum ReplayBody {
    Bar(Bar),
    Reversal(LtfEventRef),
}

/// An input of the replay.
pub struct ReplayInput {
    pub symbol: String,
    pub body: ReplayBody,
}

/// Mathematical content of a [`ReplayBody`].
pub enum BodyModel {
    Bar(BarModel),
    Reversal(LtfEventModel),
}

/// Mathematical content of a [`ReplayInput`].
pub struct InputModel {
    pub symbol: Seq<char>,
    pub body: BodyModel,
}

impl View for ReplayInput {
    type V = InputModel;

    open spec fn view(&self) -> InputModel {
        InputModel {
            symbol: self.symbol@,
            body: match self.body {
                ReplayBody::Bar(b) => BodyModel::Bar(b@),
                ReplayBody::Reversal(e) => BodyModel::Reversal(e@),
            },
        }
    }
}

impl DeepView for ReplayInput {
    type V = InputModel;

    open spec fn deep_view(&self) -> InputModel {
        self@
    }
}

impl InputModel {
    /// Market time of the input.
    pub open spec fn ts(self) -> i64 {
        match self.body {
            BodyModel::Bar(b) => b.ts,
            BodyModel::Reversal(e) => e.ts,
        }
    }
}

/// Order of inputs: by time; at the same time candles before reversals, then by
/// instrument.
pub open spec fn input_before(a: InputModel, b: InputModel) -> bool {
    a.ts() < b.ts() || (a.ts() == b.ts() && ((a.body is Bar && b.body is Reversal) || (
    a.body is Bar == b.body is Bar && text_before(a.symbol, b.symbol))))
}

/// The list with one more input behind those that are not after it.
pub open spec fn input_inserted(list: Seq<InputModel>, x: InputModel) -> Seq<InputModel>
    decreases list.len(),
{
    if list.len() > 0 && input_before(x, list.last()) {
        input_inserted(list.drop_last(), x).push(list.last())
    } else {
        list.push(x)
    }
}

/// The inputs in order; inputs of equal rank keep their order.
pub open spec fn timeline(inputs: Seq<InputModel>) -> Seq<InputModel>
    decreases inputs.len(),
{
    if inputs.len() == 0 {
        Seq::empty()
    } else {
        input_inserted(timeline(inputs.drop_last()), inputs.last())
    }
}

/// Candles inside `[from, end)` as inputs of an instrument.
pub open spec fn bar_inputs(bars: Seq<BarModel>, symbol: Seq<char>, from: i64, end: i64) -> Seq<InputModel>
    decreases bars.len(),
{
    if bars.len() == 0 {
        Seq::empty()
    } else {
        let before = bar_inputs(bars.drop_last(), symbol, from, end);
        if from <= bars.last().ts < end {
            before.push(InputModel { symbol, body: BodyModel::Bar(bars.last()) })
        } else {
            before
        }
    }
}

/// Reversals inside `[from, end)` as inputs of an instrument.
pub open spec fn event_inputs(events: Seq<LtfEventModel>, symbol: Seq<char>, from: i64, end: i64) -> Seq<
    InputModel,
>
    decreases events.len(),
{
    if events.len() == 0 {
        Seq::empty()
    } else {
        let before = event_inputs(events.drop_last(), symbol, from, end);
        if from <= events.last().ts < end {
            before.push(InputModel { symbol, body: BodyModel::Reversal(events.last()) })
        } else {
            before
        }
    }
}

/// Inputs of one instrument inside its validation window.
pub open spec fn symbol_inputs(
    smt: SmtModel,
    symbol: Seq<char>,
    events: Seq<SymbolEvents>,
    bars: Seq<SymbolBars>,
) -> Seq<InputModel> {
    match validation_window(smt, symbol) {
        None => Seq::empty(),
        Some(w) => bar_inputs(bars_for(bars, symbol), symbol, w.0, w.2) + event_inputs(
            events_for(events, symbol),
            symbol,
            w.0,
            w.2,
        ),
    }
}

/// Inputs of several instruments, one after the other.
pub open spec fn all_inputs(
    smt: SmtModel,
    symbols: Seq<Seq<char>>,
    events: Seq<SymbolEvents>,
    bars: Seq<SymbolBars>,
) -> Seq<InputModel>
    decreases symbols.len(),
{
    if symbols.len() == 0 {
        Seq::empty()
    } else {
        all_inputs(smt, symbols.drop_last(), events, bars) + symbol_inputs(
            smt,
            symbols.last(),
            events,
            bars,
        )
    }
}

/// An entry after one stored input: nothing where the candidate or the leg is
/// resolved, else the same rules as live.
pub open spec fn input_outcome(e: EntryModel, smt: SmtModel, input: InputModel) -> Outcome {
    let dir = effective_dir(
        smt.candidate_direction,
        input.symbol,
        smt.sweeper_symbol,
        smt.relationship,
    );
    let status = e.candidate.setup_status;
    if status is Invalidated || status is Expired || status is ReCheck || resolved(
        e.candidate,
        input.symbol,
    ) {
        untouched(e)
    } else {
        match input.body {
            BodyModel::Bar(bar) => if breaks_c2(e, input.symbol, dir, bar.close) {
                changed(leg_broken(e, input.symbol, ExpiryReason::C2Break, bar.ts), bar.ts, None)
            } else {
                untouched(e)
            },
            BodyModel::Reversal(ev) => if ev.direction == dir && seen(e.candidate, ev.id) {
                untouched(e)
            } else {
                event_applied(e, input.symbol, ev, dir, c3_open(e.smt_snapshot, input.symbol))
            },
        }
    }
}

/// Open of an instrument's third candle.
pub open spec fn c3_open(smt: SmtModel, symbol: Seq<char>) -> Option<i64> {
    match first_chain(smt.chains, symbol) {
        Some(chain) => match chain.c3_candle {
            Some(c) => Some(c.ts),
            None => None,
        },
        None => None,
    }
}

/// A stored input keeps the invariant and the divergence of an entry.
pub proof fn lemma_input_keeps_wf(e: EntryModel, smt: SmtModel, input: InputModel)
    requires
        e.wf(),
    ensures
        input_outcome(e, smt, input).entry.wf(),
        input_outcome(e, smt, input).entry.candidate.smt_id == e.candidate.smt_id,
        input_outcome(e, smt, input).entry.candidate.comparison_timeframe
            == e.candidate.comparison_timeframe,
{
    let dir = effective_dir(
        smt.candidate_direction,
        input.symbol,
        smt.sweeper_symbol,
        smt.relationship,
    );
    match input.body {
        BodyModel::Bar(bar) => {
            lemma_break_keeps_wf(e, input.symbol, ExpiryReason::C2Break, bar.ts);
        },
        BodyModel::Reversal(ev) => {
            if !validated_for(e.candidate, input.symbol) {
                lemma_event_keeps_wf(
                    e,
                    input.symbol,
                    ev,
                    dir,
                    c3_open(e.smt_snapshot, input.symbol),
                );
            }
        },
    }
    reveal(leg_broken);
    reveal(leg_validated);
}

/// Applies one stored input to an entry.
pub fn apply_input(
    entry: &mut CandidateEntry,
    smt: &SmtDivergence,
    input: &ReplayInput,
    changes: &mut Vec<CandidateChange>,
)
    ensures
        final(entry)@ == input_outcome(old(entry)@, smt@, input@).entry,
        final(changes).deep_view() == old(changes).deep_view() + input_outcome(
            old(entry)@,
            smt@,
            input@,
        ).changes,
{
    let ghost before = changes.deep_view();
    let symbol = input.symbol.as_str();
    let over: bool = matches!(
        entry.candidate.setup_status,
        SetupStatus::Invalidated | SetupStatus::Expired | SetupStatus::ReCheck
    );
    if over || is_resolved(&entry.candidate, symbol) {
        assert(changes.deep_view() =~= before + Seq::<ChangeModel>::empty());
        return;
    }
    let dir: Direction = effective_ltf_dir(
        smt.candidate_direction,
        symbol,
        smt.sweeper_symbol.as_str(),
        smt.relationship,
    );
    match &input.body {
        ReplayBody::Bar(bar) => {
            if is_c2_break(entry, symbol, dir, bar.close) {
                let change = break_leg(entry, symbol, ExpiryReason::C2Break, bar.ts);
                changes.push(change);
                assert(changes.deep_view() =~= before + seq![change@]);
            } else {
                assert(changes.deep_view() =~= before + Seq::<ChangeModel>::empty());
            }
        },
        ReplayBody::Reversal(ev) => {
            if ev.direction == dir && is_seen(&entry.candidate, ev.id.as_str()) {
                assert(changes.deep_view() =~= before + Seq::<ChangeModel>::empty());
            } else {
                let c3: Option<i64> = match find_chain(&entry.smt_snapshot.chains, symbol) {
                    Some(chain) => match chain.c3_candle {
                        Some(c) => Some(c.ts),
                        None => None,
                    },
                    None => None,
                };
                apply_event(entry, symbol, ev, dir, c3, changes);
            }
        },
    }
}

proof fn lemma_input_inserted_at(list: Seq<InputModel>, x: InputModel, i: int)
    requires
        0 <= i <= list.len(),
        forall|k: int| i <= k < list.len() ==> input_before(x, #[trigger] list[k]),
        i > 0 ==> !input_before(x, list[i - 1]),
    ensures
        input_inserted(list, x) == list.insert(i, x),
    decreases list.len(),
{
    if i < list.len() {
        assert(input_before(x, list[list.len() - 1]));
        assert forall|k: int| i <= k < list.len() - 1 implies input_before(
            x,
            #[trigger] list.drop_last()[k],
        ) by {
            assert(list.drop_last()[k] == list[k]);
        }
        lemma_input_inserted_at(list.drop_last(), x, i);
    }
    assert(input_inserted(list, x) =~= list.insert(i, x));
}

fn input_ts(x: &ReplayInput) -> (r: i64)
    ensures
        r == x@.ts(),
{
    match &x.body {
        ReplayBody::Bar(b) => b.ts,
        ReplayBody::Reversal(e) => e.ts,
    }
}

fn input_is_bar(x: &ReplayInput) -> (r: bool)
    ensures
        r == x@.body is Bar,
{
    match &x.body {
        ReplayBody::Bar(_) => true,
        ReplayBody::Reversal(_) => false,
    }
}

fn is_input_before(a: &ReplayInput, b: &ReplayInput) -> (r: bool)
    ensures
        r == input_before(a@, b@),
{
    let ta: i64 = input_ts(a);
    let tb: i64 = input_ts(b);
    if ta != tb {
        return ta < tb;
    }
    let bar_a: bool = input_is_bar(a);
    let bar_b: bool = input_is_bar(b);
    if bar_a && !bar_b {
        return true;
    }
    bar_a == bar_b && text_lt(a.symbol.as_str(), b.symbol.as_str())
}

fn insert_input(list: &mut Vec<ReplayInput>, x: ReplayInput, Ghost(inputs): Ghost<Seq<InputModel>>)
    requires
        old(list).deep_view() == timeline(inputs),
    ensures
        final(list).deep_view() == timeline(inputs.push(x@)),
{
    let ghost before = list.deep_view();
    let mut i: usize = list.len();
    while i > 0 && is_input_before(&x, &list[i - 1])
        invariant
            i <= list.len(),
            list.deep_view() == before,
            forall|k: int| i <= k < before.len() ==> input_before(x@, #[trigger] before[k]),
        decreases i,
    {
        assert(before[i - 1] == list@[i - 1]@);
        i -= 1;
    }
    proof {
        if i > 0 {
            assert(before[i - 1] == list@[i - 1]@);
        }
        lemma_input_inserted_at(before, x@, i as int);
        assert(inputs.push(x@).drop_last() =~= inputs);
    }
    list.insert(i, x);
    assert(list.deep_view() =~= before.insert(i as int, x@));
}

fn find_events<'a>(book: &'a Vec<SymbolEvents>, symbol: &str) -> (r: Option<&'a Vec<LtfEventRef>>)
    ensures
        events_for(book@, symbol@) == match r {
            Some(list) => list.deep_view(),
            None => Seq::empty(),
        },
{
    let mut i: usize = 0;
    assert(book@.skip(0) =~= book@);
    while i < book.len()
        invariant
            i <= book.len(),
            events_for(book@, symbol@) == events_for(book@.skip(i as int), symbol@),
        decreases book.len() - i,
    {
        assert(book@.skip(i as int)[0] == book@[i as int]);
        if text_eq(book[i].symbol.as_str(), symbol) {
            return Some(&book[i].events);
        }
        assert(book@.skip(i as int).drop_first() =~= book@.skip(i + 1));
        i += 1;
    }
    None
}

fn find_bars<'a>(book: &'a Vec<SymbolBars>, symbol: &str) -> (r: Option<&'a Vec<Bar>>)
    ensures
        bars_for(book@, symbol@) == match r {
            Some(list) => list.deep_view(),
            None => Seq::empty(),
        },
{
    let mut i: usize = 0;
    assert(book@.skip(0) =~= book@);
    while i < book.len()
        invariant
            i <= book.len(),
            bars_for(book@, symbol@) == bars_for(book@.skip(i as int), symbol@),
        decreases book.len() - i,
    {
        assert(book@.skip(i as int)[0] == book@[i as int]);
        if text_eq(book[i].symbol.as_str(), symbol) {
            return Some(&book[i].bars);
        }
        assert(book@.skip(i as int).drop_first() =~= book@.skip(i + 1));
        i += 1;
    }
    None
}

fn add_bars(
    list: &mut Vec<ReplayInput>,
    bars: &Vec<Bar>,
    symbol: &str,
    from: i64,
    end: i64,
    Ghost(inputs): Ghost<Seq<InputModel>>,
)
    requires
        old(list).deep_view() == timeline(inputs),
    ensures
        final(list).deep_view() == timeline(
            inputs + bar_inputs(bars.deep_view(), symbol@, from, end),
        ),
{
    let mut i: usize = 0;
    assert(inputs + bar_inputs(bars.deep_view().take(0), symbol@, from, end) =~= inputs);
    while i < bars.len()
        invariant
            i <= bars.len(),
            list.deep_view() == timeline(
                inputs + bar_inputs(bars.deep_view().take(i as int), symbol@, from, end),
            ),
        decreases bars.len() - i,
    {
        let ghost done = bar_inputs(bars.deep_view().take(i as int), symbol@, from, end);
        proof {
            let now = bars.deep_view().take(i + 1);
            assert(now.drop_last() =~= bars.deep_view().take(i as int));
            assert(now.last() == bars@[i as int]@);
        }
        if from <= bars[i].ts && bars[i].ts < end {
            let x = ReplayInput { symbol: owned(symbol), body: ReplayBody::Bar(bars[i].clone()) };
            insert_input(list, x, Ghost(inputs + done));
            assert((inputs + done).push(x@) =~= inputs + done.push(x@));
        }
        i += 1;
    }
    assert(bars.deep_view().take(i as int) =~= bars.deep_view());
}

fn add_events(
    list: &mut Vec<ReplayInput>,
    events: &Vec<LtfEventRef>,
    symbol: &str,
    from: i64,
    end: i64,
    Ghost(inputs): Ghost<Seq<InputModel>>,
)
    requires
        old(list).deep_view() == timeline(inputs),
    ensures
        final(list).deep_view() == timeline(
            inputs + event_inputs(events.deep_view(), symbol@, from, end),
        ),
{
    let mut i: usize = 0;
    assert(inputs + event_inputs(events.deep_view().take(0), symbol@, from, end) =~= inputs);
    while i < events.len()
        invariant
            i <= events.len(),
            list.deep_view() == timeline(
                inputs + event_inputs(events.deep_view().take(i as int), symbol@, from, end),
            ),
        decreases events.len() - i,
    {
        let ghost done = event_inputs(events.deep_view().take(i as int), symbol@, from, end);
        proof {
            let now = events.deep_view().take(i + 1);
            assert(now.drop_last() =~= events.deep_view().take(i as int));
            assert(now.last() == events@[i as int]@);
        }
        if from <= events[i].ts && events[i].ts < end {
            let x = ReplayInput {
                symbol: owned(symbol),
                body: ReplayBody::Reversal(events[i].clone()),
            };
            insert_input(list, x, Ghost(inputs + done));
            assert((inputs + done).push(x@) =~= inputs + done.push(x@));
        }
        i += 1;
    }
    assert(events.deep_view().take(i as int) =~= events.deep_view());
}

fn build_timeline(
    smt: &SmtDivergence,
    events: &Vec<SymbolEvents>,
    bars: &Vec<SymbolBars>,
) -> (r: Vec<ReplayInput>)
    ensures
        r.deep_view() == timeline(all_inputs(smt@, executable(smt@), events@, bars@)),
{
    let symbols = executable_symbols(smt);
    let mut list: Vec<ReplayInput> = Vec::new();
    let mut i: usize = 0;
    assert(list.deep_view() =~= timeline(
        all_inputs(smt@, symbols.deep_view().take(0), events@, bars@),
    ));
    while i < symbols.len()
        invariant
            i <= symbols.len(),
            list.deep_view() == timeline(
                all_inputs(smt@, symbols.deep_view().take(i as int), events@, bars@),
            ),
        decreases symbols.len() - i,
    {
        let symbol = symbols[i].as_str();
        let ghost done = all_inputs(smt@, symbols.deep_view().take(i as int), events@, bars@);
        proof {
            let now = symbols.deep_view().take(i + 1);
            assert(now.drop_last() =~= symbols.deep_view().take(i as int));
            assert(now.last() == symbols@[i as int]@);
        }
        match symbol_validation_window(smt, symbol) {
            None => {
                assert(done + Seq::<InputModel>::empty() =~= done);
            },
            Some(w) => {
                let ghost first = bar_inputs(bars_for(bars@, symbol@), symbol@, w.0, w.2);
                let ghost second = event_inputs(events_for(events@, symbol@), symbol@, w.0, w.2);
                match find_bars(bars, symbol) {
                    Some(b) => {
                        add_bars(&mut list, b, symbol, w.0, w.2, Ghost(done));
                    },
                    None => {
                        assert(done + first =~= done);
                    },
                }
                match find_events(events, symbol) {
                    Some(e) => {
                        add_events(&mut list, e, symbol, w.0, w.2, Ghost(done + first));
                    },
                    None => {
                        assert((done + first) + second =~= done + first);
                    },
                }
                assert((done + first) + second =~= done + (first + second));
            },
        }
        i += 1;
    }
    assert(symbols.deep_view().take(i as int) =~= symbols.deep_view());
    list
}

/// The engine after a list of stored inputs of one divergence.
pub open spec fn inputs_step(s: EngineModel, smt: SmtModel, inputs: Seq<InputModel>) -> EngineStep
    decreases inputs.len(),
{
    if inputs.len() == 0 {
        no_step(s)
    } else {
        let first = inputs_step(s, smt, inputs.drop_last());
        and_then(first, input_step(first.engine, smt, inputs.last()))
    }
}

/// The engine after a stored divergence was taken up again.
pub open spec fn respawn_step(s: EngineModel, smt: SmtModel) -> EngineStep {
    match sweeper_state_of(smt) {
        Some(SmtDetectionState::C2Confirmed) => c2_step(s, smt),
        Some(SmtDetectionState::C3Entry) => {
            let first = c2_step(s, smt);
            and_then(first, c3_step(first.engine, smt))
        },
        _ => no_step(s),
    }
}

/// The engine after one stored divergence and the stored inputs of its
/// instruments. Ended divergences and those outside a price area are skipped.
pub open spec fn replay_one(
    s: EngineModel,
    smt: SmtModel,
    events: Seq<SymbolEvents>,
    bars: Seq<SymbolBars>,
) -> EngineStep {
    if sweeper_state_of(smt) == Some(SmtDetectionState::Invalidated) || smt.htf_pda_ref is None {
        no_step(s)
    } else {
        let first = respawn_step(s, smt);
        and_then(
            first,
            inputs_step(
                first.engine,
                smt,
                timeline(all_inputs(smt, executable(smt), events, bars)),
            ),
        )
    }
}

/// The engine after several stored divergences.
pub open spec fn replay_many(
    s: EngineModel,
    smts: Seq<SmtModel>,
    events: Seq<SymbolEvents>,
    bars: Seq<SymbolBars>,
) -> EngineStep
    decreases smts.len(),
{
    if smts.len() == 0 {
        no_step(s)
    } else {
        let first = replay_many(s, smts.drop_last(), events, bars);
        and_then(first, replay_one(first.engine, smts.last(), events, bars))
    }
}

/// The engine after a replay: the stored divergences, then the deadlines.
pub open spec fn replay_step(
    s: EngineModel,
    smts: Seq<SmtModel>,
    events: Seq<SymbolEvents>,
    bars: Seq<SymbolBars>,
    now: i64,
) -> EngineStep {
    let first = replay_many(s, smts, events, bars);
    and_then(first, deadline_step(first.engine, now))
}

/// A comparison timeframe that a divergence may be compared on in a replay: that of
/// its entry, or of a stored divergence of the same identifier.
pub open spec fn may_compare(
    s: EngineModel,
    smts: Seq<SmtModel>,
    id: Seq<char>,
    tf: Timeframe,
) -> bool {
    ||| exists|i: int|
        0 <= i < s.entries.len() && (#[trigger] s.entries[i]).candidate.smt_id == id
            && s.entries[i].candidate.comparison_timeframe == tf
    ||| exists|i: int|
        0 <= i < smts.len() && (#[trigger] smts[i]).id == id && smts[i].comparison_timeframe == tf
}

/// Every deadline that a replay may set fits the clock.
pub open spec fn all_fit(s: EngineModel, smts: Seq<SmtModel>) -> bool {
    forall|i: int, tf: Timeframe|
        0 <= i < smts.len() && sweeper_state_of(#[trigger] smts[i]) == Some(
            SmtDetectionState::C3Entry,
        ) && #[trigger] may_compare(s, smts, smts[i].id, tf) ==> deadline_fits(
            smts[i],
            tf,
            s.expiry_mtf_bars,
        )
}

/// Entries keep their divergence and timeframe; new ones take those of the divergence.
spec fn grown(s: EngineModel, t: EngineModel, smt: SmtModel) -> bool {
    &&& s.entries.len() <= t.entries.len()
    &&& forall|i: int|
        0 <= i < t.entries.len() ==> if i < s.entries.len() {
            (#[trigger] t.entries[i]).candidate.smt_id == s.entries[i].candidate.smt_id
                && t.entries[i].candidate.comparison_timeframe
                == s.entries[i].candidate.comparison_timeframe
        } else {
            t.entries[i].candidate.smt_id == smt.id && t.entries[i].candidate.comparison_timeframe
                == smt.comparison_timeframe
        }
}

/// Every entry has a timeframe that was there before or came with a stored divergence.
spec fn timeframes_known(t: EngineModel, s: EngineModel, smts: Seq<SmtModel>) -> bool {
    forall|i: int|
        0 <= i < t.entries.len() ==> may_compare(
            s,
            smts,
            (#[trigger] t.entries[i]).candidate.smt_id,
            t.entries[i].candidate.comparison_timeframe,
        )
}

proof fn lemma_inputs_grow(s: EngineModel, smt: SmtModel, inputs: Seq<InputModel>)
    requires
        s.wf(),
    ensures
        grown(s, inputs_step(s, smt, inputs).engine, smt),
        inputs_step(s, smt, inputs).engine.wf(),
    decreases inputs.len(),
{
    if inputs.len() > 0 {
        lemma_inputs_grow(s, smt, inputs.drop_last());
        let mid = inputs_step(s, smt, inputs.drop_last()).engine;
        let at = position(mid.entries, smt.id);
        lemma_position(mid.entries, smt.id);
        if at < mid.entries.len() {
            lemma_input_keeps_wf(mid.entries[at], smt, inputs.last());
            let next = input_step(mid, smt, inputs.last()).engine;
            lemma_update_keeps_wf(mid, at, next.entries[at]);
        }
    }
}

proof fn lemma_replay_grows(
    s: EngineModel,
    smt: SmtModel,
    events: Seq<SymbolEvents>,
    bars: Seq<SymbolBars>,
)
    requires
        s.wf(),
        respawn_step(s, smt).engine.wf(),
    ensures
        grown(s, replay_one(s, smt, events, bars).engine, smt),
{
    lemma_position(s.entries, smt.id);
    let up = c2_step(s, smt).engine;
    lemma_position(up.entries, smt.id);
    assert(grown(s, up, smt));
    let first = respawn_step(s, smt).engine;
    assert(grown(s, first, smt));
    lemma_inputs_grow(first, smt, timeline(all_inputs(smt, executable(smt), events, bars)));
}

proof fn lemma_timeframes_stay_known(
    t: EngineModel,
    u: EngineModel,
    s: EngineModel,
    smts: Seq<SmtModel>,
    k: int,
)
    requires
        timeframes_known(t, s, smts),
        0 <= k < smts.len(),
        grown(t, u, smts[k]),
    ensures
        timeframes_known(u, s, smts),
{
    assert forall|i: int| 0 <= i < u.entries.len() implies may_compare(
        s,
        smts,
        (#[trigger] u.entries[i]).candidate.smt_id,
        u.entries[i].candidate.comparison_timeframe,
    ) by {
        if i < t.entries.len() {
            assert(may_compare(
                s,
                smts,
                t.entries[i].candidate.smt_id,
                t.entries[i].candidate.comparison_timeframe,
            ));
        } else {
            assert(smts[k].id == u.entries[i].candidate.smt_id);
        }
    }
}

proof fn lemma_fits_in_turn(t: EngineModel, s: EngineModel, smts: Seq<SmtModel>, k: int)
    requires
        all_fit(s, smts),
        timeframes_known(t, s, smts),
        t.expiry_mtf_bars == s.expiry_mtf_bars,
        0 <= k < smts.len(),
    ensures
        smt_fits(t, smts[k]),
{
    let tf = compared_on(t, smts[k]);
    lemma_position(t.entries, smts[k].id);
    assert(may_compare(s, smts, smts[k].id, tf)) by {
        let at = position(t.entries, smts[k].id);
        if at < t.entries.len() {
            assert(may_compare(
                s,
                smts,
                t.entries[at].candidate.smt_id,
                t.entries[at].candidate.comparison_timeframe,
            ));
        } else {
            assert(smts[k].comparison_timeframe == tf);
        }
    }
}

impl CandidateEngine {
    fn replay_smt(
        &mut self,
        smt: &SmtDivergence,
        events: &Vec<SymbolEvents>,
        bars: &Vec<SymbolBars>,
        changes: &mut Vec<CandidateChange>,
    )
        requires
            old(self)@.wf(),
            smt_fits(old(self)@, smt@),
        ensures
            final(self)@ == replay_one(old(self)@, smt@, events@, bars@).engine,
            final(changes).deep_view() == old(changes).deep_view() + replay_one(
                old(self)@,
                smt@,
                events@,
                bars@,
            ).changes,
            final(self)@.wf(),
            final(self)@.expiry_mtf_bars == old(self)@.expiry_mtf_bars,
            grown(old(self)@, final(self)@, smt@),
    {
        let ghost before = changes.deep_view();
        let ghost s0 = self@;
        let state = sweeper_detection_state(smt);
        let ended: bool = matches!(state, Some(SmtDetectionState::Invalidated));
        if ended || smt.htf_pda_ref.is_none() {
            assert(changes.deep_view() =~= before + Seq::<ChangeModel>::empty());
            return;
        }
        match state {
            Some(SmtDetectionState::C2Confirmed) => {
                self.confirm_c2(smt, changes);
            },
            Some(SmtDetectionState::C3Entry) => {
                self.confirm_c2(smt, changes);
                proof {
                    lemma_taken_up(s0, smt@);
                }
                self.enter_c3(smt, changes);
            },
            _ => {},
        }
        let ghost first = respawn_step(s0, smt@);
        assert(changes.deep_view() =~= before + first.changes);
        assert(self@ == first.engine);
        proof {
            lemma_replay_grows(s0, smt@, events@, bars@);
        }
        let list = build_timeline(smt, events, bars);
        let mut i: usize = 0;
        assert(inputs_step(first.engine, smt@, list.deep_view().take(0)).engine == first.engine);
        assert(changes.deep_view() =~= before + first.changes + inputs_step(
            first.engine,
            smt@,
            list.deep_view().take(0),
        ).changes);
        while i < list.len()
            invariant
                i <= list.len(),
                self@.wf(),
                self@.expiry_mtf_bars == s0.expiry_mtf_bars,
                self@ == inputs_step(first.engine, smt@, list.deep_view().take(i as int)).engine,
                changes.deep_view() == before + first.changes + inputs_step(
                    first.engine,
                    smt@,
                    list.deep_view().take(i as int),
                ).changes,
            decreases list.len() - i,
        {
            let ghost done = inputs_step(first.engine, smt@, list.deep_view().take(i as int));
            let ghost mid = changes.deep_view();
            self.feed_input(smt, &list[i], changes);
            proof {
                let now = list.deep_view().take(i + 1);
                assert(now.drop_last() =~= list.deep_view().take(i as int));
                assert(now.last() == list@[i as int]@);
                let one = input_step(done.engine, smt@, list@[i as int]@);
                assert(before + first.changes + done.changes + one.changes =~= before
                    + first.changes + (done.changes + one.changes));
            }
            i += 1;
        }
        proof {
            assert(list.deep_view().take(i as int) =~= list.deep_view());
            let second = inputs_step(first.engine, smt@, list.deep_view());
            assert(before + first.changes + second.changes =~= before + (first.changes
                + second.changes));
        }
    }

    /// Rebuilds candidates after a restart from stored divergences, reversals
    /// and five-minute candles, then applies the deadlines.
    pub fn replay(
        &mut self,
        smt_list: Vec<SmtDivergence>,
        ltf_events_by_symbol: &Vec<SymbolEvents>,
        ltf_bars_by_symbol: &Vec<SymbolBars>,
        now_ms: i64,
    ) -> (r: Vec<CandidateChange>)
        requires
            old(self)@.wf(),
            all_fit(old(self)@, smt_list.deep_view()),
        ensures
            final(self)@ == replay_step(
                old(self)@,
                smt_list.deep_view(),
                ltf_events_by_symbol@,
                ltf_bars_by_symbol@,
                now_ms,
            ).engine,
            r.deep_view() == replay_step(
                old(self)@,
                smt_list.deep_view(),
                ltf_events_by_symbol@,
                ltf_bars_by_symbol@,
                now_ms,
            ).changes,
            final(self)@.wf(),
    {
        let ghost s0 = self@;
        let ghost es = ltf_events_by_symbol@;
        let ghost bs = ltf_bars_by_symbol@;
        let mut changes: Vec<CandidateChange> = Vec::new();
        let mut i: usize = 0;
        assert(changes.deep_view() =~= replay_many(
            s0,
            smt_list.deep_view().take(0),
            es,
            bs,
        ).changes);
        while i < smt_list.len()
            invariant
                i <= smt_list.len(),
                es == ltf_events_by_symbol@,
                bs == ltf_bars_by_symbol@,
                self@.wf(),
                self@.expiry_mtf_bars == s0.expiry_mtf_bars,
                all_fit(s0, smt_list.deep_view()),
                timeframes_known(self@, s0, smt_list.deep_view()),
                self@ == replay_many(s0, smt_list.deep_view().take(i as int), es, bs).engine,
                changes.deep_view() == replay_many(
                    s0,
                    smt_list.deep_view().take(i as int),
                    es,
                    bs,
                ).changes,
            decreases smt_list.len() - i,
        {
            assert(smt_list.deep_view()[i as int] == smt_list@[i as int]@);
            proof {
                lemma_fits_in_turn(self@, s0, smt_list.deep_view(), i as int);
            }
            let ghost mid = self@;
            self.replay_smt(&smt_list[i], ltf_events_by_symbol, ltf_bars_by_symbol, &mut changes);
            proof {
                lemma_timeframes_stay_known(mid, self@, s0, smt_list.deep_view(), i as int);
                let now = smt_list.deep_view().take(i + 1);
                assert(now.drop_last() =~= smt_list.deep_view().take(i as int));
                assert(now.last() == smt_list@[i as int]@);
            }
            i += 1;
        }
        assert(smt_list.deep_view().take(i as int) =~= smt_list.deep_view());
        self.pass_deadlines(now_ms, &mut changes);
        changes
    }
}

} // verus!
