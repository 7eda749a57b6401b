//! What holds of every candidate.
use vstd::prelude::*;
use crate::candidate::engine::{
    after_bar, and_then, bar_step, c2_step, c3_step, deadline_step, event_smt, input_step,
    lemma_position, ltf_step, structure_step, EngineModel,
};
use crate::candidate::lifecycle::{
    bar_outcome, breaks_c2, c3_outcome, changed, deadline_outcome, decides, earlier_event,
    entry_dir, event_applied, first_deciding, is_active, leg_broken, leg_ended, leg_validated,
    legs_ended, lemma_reason_push, reason_of, resolved, seen, smt_ended_outcome, untouched, validated_for,
};
use crate::candidate::replay::{
    all_inputs, input_before, input_inserted, input_outcome, inputs_step, replay_many, replay_one,
    replay_step, respawn_step, timeline, BodyModel, InputModel, SymbolBars, SymbolEvents,
};
use crate::candidate::rules::{
    decision_of, evidence_of, executable, known_by, sweeper_state_of, validation_window, EntryModel,
};
use crate::candidate::types::{
    CandidateModel, ExpiryReason, LtfEventModel, SetupStatus, SymbolReasonModel,
};
use crate::detector::{Direction, SmtDetectionState, SmtModel, StructureEventModel};
use crate::text::{lemma_push_contains, lemma_text_order};
use crate::types::BarModel;

verus! {

/// A candidate that is no longer active reacts neither to candles and
/// reversals nor to its deadline.
pub proof fn law_inactive_candidates_are_final(
    e: EntryModel,
    symbol: Seq<char>,
    bar: BarModel,
    events: Seq<LtfEventModel>,
    now: i64,
)
    requires
        !is_active(e.candidate),
    ensures
        after_bar(e, symbol, bar, events) == untouched(e),
        deadline_outcome(e, now) == untouched(e),
{
}

/// A validated or ended leg stays as it is.
pub proof fn law_resolved_legs_are_final(
    e: EntryModel,
    symbol: Seq<char>,
    bar: BarModel,
    events: Seq<LtfEventModel>,
)
    requires
        resolved(e.candidate, symbol),
    ensures
        bar_outcome(e, symbol, bar, events) == untouched(e),
{
}

/// The sweeper is context only: its candles and reversals never validate or
/// end anything.
pub proof fn law_sweeper_never_validates(
    e: EntryModel,
    bar: BarModel,
    events: Seq<LtfEventModel>,
)
    requires
        e.wf(),
    ensures
        after_bar(e, e.candidate.sweeper_symbol, bar, events) == untouched(e),
{
}

/// The first reason on record for a leg stays, and ending a leg puts a reason
/// on record.
pub proof fn law_first_reason_stays(
    c: CandidateModel,
    ended: Seq<char>,
    reason: ExpiryReason,
    symbol: Seq<char>,
)
    ensures
        reason_of(c.symbol_invalidation_reasons, symbol) is Some ==> reason_of(
            leg_ended(c, ended, reason).symbol_invalidation_reasons,
            symbol,
        ) == reason_of(c.symbol_invalidation_reasons, symbol),
        reason_of(leg_ended(c, ended, reason).symbol_invalidation_reasons, ended) is Some,
        leg_ended(c, ended, reason).invalidated_symbols.contains(ended),
{
    let one = SymbolReasonModel { symbol: ended, reason };
    lemma_reason_push(c.symbol_invalidation_reasons, one, symbol);
    lemma_reason_push(c.symbol_invalidation_reasons, one, ended);
    lemma_push_contains(c.invalidated_symbols, ended, ended);
}

/// Ending one leg leaves every other leg as it was.
pub proof fn law_legs_end_alone(
    c: CandidateModel,
    ended: Seq<char>,
    reason: ExpiryReason,
    other: Seq<char>,
)
    requires
        other != ended,
    ensures
        leg_ended(c, ended, reason).invalidated_symbols.contains(other)
            == c.invalidated_symbols.contains(other),
        reason_of(leg_ended(c, ended, reason).symbol_invalidation_reasons, other) == reason_of(
            c.symbol_invalidation_reasons,
            other,
        ),
        validated_for(leg_ended(c, ended, reason), other) == validated_for(c, other),
{
    let one = SymbolReasonModel { symbol: ended, reason };
    lemma_reason_push(c.symbol_invalidation_reasons, one, other);
    lemma_push_contains(c.invalidated_symbols, ended, other);
}

proof fn lemma_deciding_exists(
    c: CandidateModel,
    events: Seq<LtfEventModel>,
    from: i64,
    bar_ts: i64,
    end: i64,
    dir: Direction,
    i: int,
)
    requires
        0 <= i < events.len(),
        decides(c, events[i], from, bar_ts, end, dir),
    ensures
        first_deciding(c, events, from, bar_ts, end, dir) is Some,
    decreases events.len(),
{
    if i > 0 && !decides(c, events[0], from, bar_ts, end, dir) {
        assert(events.drop_first()[i - 1] == events[i]);
        lemma_deciding_exists(c, events.drop_first(), from, bar_ts, end, dir, i - 1);
    }
}

proof fn lemma_none_decides(
    c: CandidateModel,
    events: Seq<LtfEventModel>,
    from: i64,
    bar_ts: i64,
    end: i64,
    dir: Direction,
)
    requires
        forall|i: int|
            0 <= i < events.len() ==> !decides(c, #[trigger] events[i], from, bar_ts, end, dir),
    ensures
        first_deciding(c, events, from, bar_ts, end, dir) is None,
    decreases events.len(),
{
    if events.len() > 0 {
        assert(!decides(c, events[0], from, bar_ts, end, dir));
        assert forall|i: int| 0 <= i < events.drop_first().len() implies !decides(
            c,
            #[trigger] events.drop_first()[i],
            from,
            bar_ts,
            end,
            dir,
        ) by {
            assert(events.drop_first()[i] == events[i + 1]);
        }
        lemma_none_decides(c, events.drop_first(), from, bar_ts, end, dir);
    }
}

/// A close beyond the second candle ends the leg even where a reversal closes
/// on the same bar.
pub proof fn law_c2_break_beats_same_bar_reversal(
    e: EntryModel,
    symbol: Seq<char>,
    bar: BarModel,
    events: Seq<LtfEventModel>,
)
    requires
        validation_window(e.smt_snapshot, symbol) is Some,
        !resolved(e.candidate, symbol),
        breaks_c2(e, symbol, entry_dir(e, symbol), bar.close),
        forall|i: int| 0 <= i < events.len() ==> (#[trigger] events[i]).ts >= bar.ts,
    ensures
        bar_outcome(e, symbol, bar, events) == changed(
            leg_broken(e, symbol, ExpiryReason::C2Break, bar.ts),
            bar.ts,
            None,
        ),
{
}

/// A reversal that closed earlier in the window counts before a later close
/// beyond the second candle: the leg is decided by a reversal.
pub proof fn law_earlier_reversal_beats_break(
    e: EntryModel,
    symbol: Seq<char>,
    bar: BarModel,
    events: Seq<LtfEventModel>,
)
    requires
        validation_window(e.smt_snapshot, symbol) is Some,
        !resolved(e.candidate, symbol),
        ({
            let w = validation_window(e.smt_snapshot, symbol)->0;
            earlier_event(e.candidate, events, w.0, bar.ts, w.2)
        }),
    ensures
        ({
            let w = validation_window(e.smt_snapshot, symbol)->0;
            let dir = entry_dir(e, symbol);
            let ev = first_deciding(e.candidate, events, w.0, bar.ts, w.2, dir);
            ev is Some && bar_outcome(e, symbol, bar, events) == event_applied(
                e,
                symbol,
                ev->0,
                dir,
                w.1,
            )
        }),
{
    let w = validation_window(e.smt_snapshot, symbol)->0;
    let i = choose|i: int|
        0 <= i < events.len() && w.0 <= (#[trigger] events[i]).ts < bar.ts && events[i].ts < w.2
            && !seen(e.candidate, events[i].id);
    lemma_deciding_exists(e.candidate, events, w.0, bar.ts, w.2, entry_dir(e, symbol), i);
}

/// Reversals before the second candle, after the window or after the current
/// bar neither validate nor end anything.
pub proof fn law_reversals_outside_the_window_are_ignored(
    e: EntryModel,
    symbol: Seq<char>,
    bar: BarModel,
    events: Seq<LtfEventModel>,
)
    requires
        validation_window(e.smt_snapshot, symbol) is Some,
        !breaks_c2(e, symbol, entry_dir(e, symbol), bar.close),
        ({
            let w = validation_window(e.smt_snapshot, symbol)->0;
            forall|i: int|
                0 <= i < events.len() ==> (#[trigger] events[i]).ts < w.0 || events[i].ts >= w.2
                    || events[i].ts > bar.ts
        }),
    ensures
        bar_outcome(e, symbol, bar, events) == untouched(e),
{
    let w = validation_window(e.smt_snapshot, symbol)->0;
    lemma_none_decides(e.candidate, events, w.0, bar.ts, w.2, entry_dir(e, symbol));
}

/// One close changes a candidate at most once, and the change is logged at
/// market time: that of the bar or of a reversal not after it.
pub proof fn law_changes_carry_market_time(
    e: EntryModel,
    symbol: Seq<char>,
    bar: BarModel,
    events: Seq<LtfEventModel>,
)
    ensures
        bar_outcome(e, symbol, bar, events).changes.len() <= 1,
        bar_outcome(e, symbol, bar, events).changes.len() == 1 ==> {
            let change = bar_outcome(e, symbol, bar, events).changes[0];
            &&& change.decision.created_at <= bar.ts
            &&& change.candidate == bar_outcome(e, symbol, bar, events).entry.candidate
            &&& change.decision.candidate_id == change.candidate.id
        },
{
    reveal(decision_of);
    match validation_window(e.smt_snapshot, symbol) {
        None => {},
        Some(w) => {
            lemma_first_deciding_decides(
                e.candidate,
                events,
                w.0,
                bar.ts,
                w.2,
                entry_dir(e, symbol),
            );
        },
    }
}

proof fn lemma_first_deciding_decides(
    c: CandidateModel,
    events: Seq<LtfEventModel>,
    from: i64,
    bar_ts: i64,
    end: i64,
    dir: Direction,
)
    ensures
        first_deciding(c, events, from, bar_ts, end, dir) matches Some(ev) ==> decides(
            c,
            ev,
            from,
            bar_ts,
            end,
            dir,
        ),
    decreases events.len(),
{
    if events.len() > 0 {
        lemma_first_deciding_decides(c, events.drop_first(), from, bar_ts, end, dir);
    }
}

/// The evidence in the log holds nothing from after its time.
pub proof fn law_evidence_has_no_future(e: EntryModel, ts: i64)
    ensures
        forall|i: int|
            0 <= i < evidence_of(e, ts).ltf_cisd_mss.len() ==> (#[trigger] evidence_of(
                e,
                ts,
            ).ltf_cisd_mss[i]).ts <= ts,
{
    lemma_known_by(e.ltf_events, ts);
}

proof fn lemma_known_by(events: Seq<LtfEventModel>, ts: i64)
    ensures
        forall|i: int| 0 <= i < known_by(events, ts).len() ==> (#[trigger] known_by(events, ts)[i]).ts <= ts,
    decreases events.len(),
{
    if events.len() > 0 {
        lemma_known_by(events.drop_last(), ts);
    }
}

/// At its deadline a validated candidate expires and one without validation
/// goes to manual review; before it, or without one, nothing happens.
pub proof fn law_deadline(e: EntryModel, now: i64)
    ensures
        e.candidate.expiry_at is None ==> deadline_outcome(e, now) == untouched(e),
        e.candidate.expiry_at matches Some(at) ==> (now < at ==> deadline_outcome(e, now)
            == untouched(e)),
        e.candidate.expiry_at matches Some(at) ==> (now >= at && e.candidate.setup_status
            is Validated ==> deadline_outcome(e, now).entry.candidate.setup_status is Expired),
        e.candidate.expiry_at matches Some(at) ==> (now >= at && e.candidate.setup_status
            is C2Confirmed ==> deadline_outcome(e, now).entry.candidate.setup_status is ReCheck),
{
}

/// Reporting the same third candle again changes nothing and logs nothing.
pub proof fn law_repeated_c3_is_idempotent(e: EntryModel, smt: SmtModel, bars: int)
    ensures
        c3_outcome(c3_outcome(e, smt, bars).entry, smt, bars) == untouched(
            c3_outcome(e, smt, bars).entry,
        ),
{
}

proof fn lemma_legs_ended(c: CandidateModel, symbols: Seq<Seq<char>>, reason: ExpiryReason, s: Seq<char>)
    ensures
        symbols.contains(s) || c.invalidated_symbols.contains(s) ==> legs_ended(
            c,
            symbols,
            reason,
        ).invalidated_symbols.contains(s),
        legs_ended(c, symbols, reason).setup_status == c.setup_status,
        legs_ended(c, symbols, reason).trade_symbols == c.trade_symbols,
    decreases symbols.len(),
{
    if symbols.len() > 0 {
        lemma_legs_ended(c, symbols.drop_last(), reason, s);
        let before = legs_ended(c, symbols.drop_last(), reason);
        assert(symbols =~= symbols.drop_last().push(symbols.last()));
        lemma_push_contains(symbols.drop_last(), symbols.last(), s);
        lemma_push_contains(before.invalidated_symbols, symbols.last(), s);
    }
}

/// When the divergence ends, the candidate and every executable leg end with
/// it, unless the candidate had ended or expired before or is kept for manual
/// review.
pub proof fn law_divergence_end_ends_every_leg(
    e: EntryModel,
    latest: Option<SmtModel>,
    ts: i64,
    symbol: Seq<char>,
)
    requires
        !(e.candidate.setup_status is Invalidated),
        !(e.candidate.setup_status is Expired),
        !(e.candidate.setup_status is ReCheck),
        e.candidate.trade_symbols.contains(symbol),
    ensures
        smt_ended_outcome(e, latest, ts).entry.candidate.setup_status is Invalidated,
        smt_ended_outcome(e, latest, ts).entry.candidate.invalidated_symbols.contains(symbol),
        smt_ended_outcome(e, latest, ts).changes.len() == 1,
        smt_ended_outcome(smt_ended_outcome(e, latest, ts).entry, latest, ts).changes.len() == 0,
{
    let ended = CandidateModel {
        setup_status: SetupStatus::Invalidated,
        expiry_reason: Some(ExpiryReason::SmtInvalidated),
        invalidated_at: Some(ts),
        ..e.candidate
    };
    lemma_legs_ended(ended, ended.trade_symbols, ExpiryReason::SmtInvalidated, symbol);
}

/// The lifecycle: a candidate whose second candle is confirmed may be
/// validated, go to manual review or be invalidated, a validated one may
/// expire or be invalidated, and every other status is final.
pub open spec fn may_follow(before: SetupStatus, after: SetupStatus) -> bool {
    ||| after == before
    ||| before is C2Confirmed && (after is Validated || after is ReCheck || after is Invalidated)
    ||| before is Validated && (after is Expired || after is Invalidated)
}

/// Every transition of one entry follows the lifecycle.
pub proof fn law_transitions_follow_the_lifecycle(
    e: EntryModel,
    symbol: Seq<char>,
    bar: BarModel,
    events: Seq<LtfEventModel>,
    smt: SmtModel,
    bars: int,
    latest: Option<SmtModel>,
    input: InputModel,
    ts: i64,
)
    ensures
        may_follow(
            e.candidate.setup_status,
            after_bar(e, symbol, bar, events).entry.candidate.setup_status,
        ),
        may_follow(
            e.candidate.setup_status,
            deadline_outcome(e, ts).entry.candidate.setup_status,
        ),
        c3_outcome(e, smt, bars).entry.candidate.setup_status == e.candidate.setup_status,
        may_follow(
            e.candidate.setup_status,
            smt_ended_outcome(e, latest, ts).entry.candidate.setup_status,
        ),
        may_follow(
            e.candidate.setup_status,
            input_outcome(e, smt, input).entry.candidate.setup_status,
        ),
{
    reveal(leg_broken);
    reveal(leg_validated);
    let ended = CandidateModel {
        setup_status: SetupStatus::Invalidated,
        expiry_reason: Some(ExpiryReason::SmtInvalidated),
        invalidated_at: Some(ts),
        ..e.candidate
    };
    lemma_legs_ended(ended, ended.trade_symbols, ExpiryReason::SmtInvalidated, symbol);
}

/// Every candidate is still there, at its place, and one that was final has
/// the status that it had.
pub open spec fn final_ones_stay(before: Seq<EntryModel>, after: Seq<EntryModel>) -> bool {
    &&& before.len() <= after.len()
    &&& forall|k: int|
        0 <= k < before.len() && !is_active((#[trigger] before[k]).candidate)
            ==> after[k].candidate.setup_status == before[k].candidate.setup_status
}

proof fn lemma_stay_in_turn(a: Seq<EntryModel>, b: Seq<EntryModel>, c: Seq<EntryModel>)
    requires
        final_ones_stay(a, b),
        final_ones_stay(b, c),
    ensures
        final_ones_stay(a, c),
{
    assert forall|k: int| 0 <= k < a.len() && !is_active((#[trigger] a[k]).candidate) implies
        c[k].candidate.setup_status == a[k].candidate.setup_status by {
        assert(!is_active(b[k].candidate));
    }
}

proof fn lemma_c2_c3_stay(s: EngineModel, smt: SmtModel)
    ensures
        final_ones_stay(s.entries, c2_step(s, smt).engine.entries),
        final_ones_stay(s.entries, c3_step(s, smt).engine.entries),
        final_ones_stay(
            s.entries,
            and_then(
                c2_step(s, smt),
                c3_step(c2_step(s, smt).engine, smt),
            ).engine.entries,
        ),
{
    lemma_position(s.entries, smt.id);
    let first = c2_step(s, smt).engine;
    lemma_position(first.entries, smt.id);
    assert(final_ones_stay(first.entries, c3_step(first, smt).engine.entries));
    lemma_stay_in_turn(s.entries, first.entries, c3_step(first, smt).engine.entries);
}

/// No event of a divergence changes the status of a candidate that was
/// invalidated, has expired or is kept for manual review.
pub proof fn law_events_leave_final_candidates(
    s: EngineModel,
    event: StructureEventModel,
    now: i64,
)
    ensures
        final_ones_stay(s.entries, structure_step(s, event, now).engine.entries),
{
    match event_smt(event) {
        Some(smt) => {
            lemma_position(s.entries, smt.id);
            lemma_c2_c3_stay(s, smt);
        },
        None => {},
    }
    match event {
        StructureEventModel::Invalidated { id, kind } => {
            lemma_position(s.entries, id);
        },
        _ => {},
    }
}

/// Neither a five-minute close nor the deadlines that follow it change the
/// status of a candidate that was invalidated, has expired or is kept for
/// manual review.
pub proof fn law_closes_leave_final_candidates(
    s: EngineModel,
    symbol: Seq<char>,
    bar: BarModel,
    events: Seq<LtfEventModel>,
    now: i64,
)
    ensures
        final_ones_stay(s.entries, deadline_step(s, now).engine.entries),
        final_ones_stay(s.entries, ltf_step(s, symbol, bar, events, now).engine.entries),
{
    let first = bar_step(s, symbol, bar, events).engine;
    lemma_stay_in_turn(s.entries, first.entries, deadline_step(first, now).engine.entries);
}

proof fn lemma_inputs_stay(s: EngineModel, smt: SmtModel, inputs: Seq<InputModel>)
    ensures
        final_ones_stay(s.entries, inputs_step(s, smt, inputs).engine.entries),
    decreases inputs.len(),
{
    if inputs.len() > 0 {
        lemma_inputs_stay(s, smt, inputs.drop_last());
        let mid = inputs_step(s, smt, inputs.drop_last()).engine;
        lemma_position(mid.entries, smt.id);
        lemma_stay_in_turn(
            s.entries,
            mid.entries,
            input_step(mid, smt, inputs.last()).engine.entries,
        );
    }
}

proof fn lemma_many_stay(
    s: EngineModel,
    smts: Seq<SmtModel>,
    events: Seq<SymbolEvents>,
    bars: Seq<SymbolBars>,
)
    ensures
        final_ones_stay(s.entries, replay_many(s, smts, events, bars).engine.entries),
    decreases smts.len(),
{
    if smts.len() > 0 {
        lemma_many_stay(s, smts.drop_last(), events, bars);
        let mid = replay_many(s, smts.drop_last(), events, bars).engine;
        let smt = smts.last();
        lemma_c2_c3_stay(mid, smt);
        let next = respawn_step(mid, smt).engine;
        let list = timeline(all_inputs(smt, executable(smt), events, bars));
        lemma_inputs_stay(next, smt, list);
        lemma_stay_in_turn(
            mid.entries,
            next.entries,
            inputs_step(next, smt, list).engine.entries,
        );
        lemma_stay_in_turn(
            s.entries,
            mid.entries,
            replay_one(mid, smt, events, bars).engine.entries,
        );
    }
}

/// No replay changes the status of a candidate that was invalidated, has
/// expired or is kept for manual review.
pub proof fn law_replays_leave_final_candidates(
    s: EngineModel,
    smts: Seq<SmtModel>,
    events: Seq<SymbolEvents>,
    bars: Seq<SymbolBars>,
    now: i64,
)
    ensures
        final_ones_stay(s.entries, replay_step(s, smts, events, bars, now).engine.entries),
{
    lemma_many_stay(s, smts, events, bars);
    let mid = replay_many(s, smts, events, bars).engine;
    lemma_stay_in_turn(s.entries, mid.entries, deadline_step(mid, now).engine.entries);
}

/// After a replay no candidate that is still active is past its deadline.
pub proof fn law_replay_leaves_nobody_overdue(
    s: EngineModel,
    smts: Seq<SmtModel>,
    events: Seq<SymbolEvents>,
    bars: Seq<SymbolBars>,
    now: i64,
    k: int,
)
    requires
        0 <= k < replay_step(s, smts, events, bars, now).engine.entries.len(),
        is_active(replay_step(s, smts, events, bars, now).engine.entries[k].candidate),
    ensures
        replay_step(s, smts, events, bars, now).engine.entries[k].candidate.expiry_at matches Some(
            at,
        ) ==> now < at,
{
}

/// What a divergence with a confirmed second candle or an entered third one
/// does to the candidates does not depend on when it is reported.
pub proof fn law_confirmations_ignore_the_clock(
    s: EngineModel,
    event: StructureEventModel,
    a: i64,
    b: i64,
)
    requires
        event_smt(event) matches Some(smt) && (sweeper_state_of(smt) == Some(
            SmtDetectionState::C2Confirmed,
        ) || sweeper_state_of(smt) == Some(SmtDetectionState::C3Entry)),
    ensures
        structure_step(s, event, a) == structure_step(s, event, b),
{
}

/// A stored candle decides as the same candle did live.
pub proof fn law_replayed_candle_matches_live(
    e: EntryModel,
    symbol: Seq<char>,
    bar: BarModel,
)
    requires
        is_active(e.candidate),
        validation_window(e.smt_snapshot, symbol) is Some,
        e.candidate.candidate_direction == e.smt_snapshot.candidate_direction,
        e.candidate.sweeper_symbol == e.smt_snapshot.sweeper_symbol,
    ensures
        input_outcome(e, e.smt_snapshot, (InputModel { symbol, body: BodyModel::Bar(bar) }))
            == bar_outcome(e, symbol, bar, Seq::empty()),
{
}

/// A stored reversal inside the window decides as it did live with a candle
/// that breaks nothing.
pub proof fn law_replayed_reversal_matches_live(
    e: EntryModel,
    symbol: Seq<char>,
    bar: BarModel,
    ev: LtfEventModel,
)
    requires
        is_active(e.candidate),
        validation_window(e.smt_snapshot, symbol) is Some,
        e.candidate.candidate_direction == e.smt_snapshot.candidate_direction,
        e.candidate.sweeper_symbol == e.smt_snapshot.sweeper_symbol,
        !breaks_c2(e, symbol, entry_dir(e, symbol), bar.close),
        ({
            let w = validation_window(e.smt_snapshot, symbol)->0;
            w.0 <= ev.ts <= bar.ts && ev.ts < w.2
        }),
    ensures
        input_outcome(e, e.smt_snapshot, (InputModel { symbol, body: BodyModel::Reversal(ev) }))
            == bar_outcome(e, symbol, bar, seq![ev]),
{
    reveal(validation_window);
    reveal_with_fuel(first_deciding, 3);
    assert(seq![ev].drop_first() =~= Seq::<LtfEventModel>::empty());
}

/// The replay goes through its inputs in market order.
pub open spec fn ordered(list: Seq<InputModel>) -> bool {
    forall|i: int, j: int|
        0 <= i < j < list.len() ==> !input_before(#[trigger] list[j], #[trigger] list[i])
}

proof fn lemma_input_order(a: InputModel, b: InputModel, c: InputModel)
    ensures
        !input_before(a, a),
        input_before(a, b) && input_before(b, c) ==> input_before(a, c),
        input_before(a, b) && !input_before(c, b) ==> input_before(a, c),
{
    lemma_text_order(a.symbol, b.symbol, c.symbol);
    lemma_text_order(a.symbol, c.symbol, b.symbol);
    lemma_text_order(b.symbol, c.symbol, a.symbol);
    lemma_text_order(c.symbol, b.symbol, a.symbol);
}

proof fn lemma_input_inserted(list: Seq<InputModel>, x: InputModel)
    requires
        ordered(list),
    ensures
        ordered(input_inserted(list, x)),
        forall|y: InputModel| #[trigger]
            input_inserted(list, x).contains(y) == (list.contains(y) || y == x),
    decreases list.len(),
{
    let after = input_inserted(list, x);
    if list.len() > 0 && input_before(x, list.last()) {
        let rest = list.drop_last();
        let inner = input_inserted(rest, x);
        assert forall|i: int, j: int| 0 <= i < j < rest.len() implies !input_before(
            #[trigger] rest[j],
            #[trigger] rest[i],
        ) by {
            assert(rest[i] == list[i] && rest[j] == list[j]);
        }
        lemma_input_inserted(rest, x);
        assert(list =~= rest.push(list.last()));
        assert forall|y: InputModel| #[trigger] after.contains(y) == (list.contains(y) || y
            == x) by {
            lemma_push_contains(inner, list.last(), y);
            lemma_push_contains(rest, list.last(), y);
        }
        assert forall|i: int, j: int| 0 <= i < j < after.len() implies !input_before(
            #[trigger] after[j],
            #[trigger] after[i],
        ) by {
            if j == after.len() - 1 {
                assert(after[i] == inner[i]);
                assert(inner.contains(inner[i]));
                if inner[i] == x {
                    lemma_input_order(x, list.last(), x);
                } else {
                    assert(rest.contains(inner[i]));
                    let k = choose|k: int| 0 <= k < rest.len() && rest[k] == inner[i];
                    assert(!input_before(list[list.len() - 1], list[k]));
                }
            } else {
                assert(after[i] == inner[i] && after[j] == inner[j]);
            }
        }
    } else {
        assert forall|y: InputModel| #[trigger] after.contains(y) == (list.contains(y) || y
            == x) by {
            lemma_push_contains(list, x, y);
        }
        assert forall|i: int, j: int| 0 <= i < j < after.len() implies !input_before(
            #[trigger] after[j],
            #[trigger] after[i],
        ) by {
            if j == after.len() - 1 {
                assert(after[i] == list[i]);
                if i < list.len() - 1 {
                    assert(!input_before(list[list.len() - 1], list[i]));
                    if input_before(x, list[i]) {
                        lemma_input_order(x, list[i], list.last());
                    }
                }
            } else {
                assert(after[i] == list[i] && after[j] == list[j]);
            }
        }
    }
}

/// The replay takes the inputs of all instruments on one timeline in market
/// order, and no input is lost or made up.
pub proof fn law_replay_follows_market_time(inputs: Seq<InputModel>)
    ensures
        ordered(timeline(inputs)),
        forall|x: InputModel| #[trigger] timeline(inputs).contains(x) == inputs.contains(x),
    decreases inputs.len(),
{
    if inputs.len() > 0 {
        law_replay_follows_market_time(inputs.drop_last());
        lemma_input_inserted(timeline(inputs.drop_last()), inputs.last());
        assert(inputs =~= inputs.drop_last().push(inputs.last()));
        assert forall|x: InputModel| #[trigger] timeline(inputs).contains(x) == inputs.contains(
            x,
        ) by {
            lemma_push_contains(inputs.drop_last(), inputs.last(), x);
        }
    }
}

} // verus!
