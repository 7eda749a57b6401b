//! What a five-minute close, a deadline and the end of a divergence mean for a
//! candidate, in prices and times.
use vstd::prelude::*;
use crate::candidate::engine::{
    after_bar, bar_changes, bar_step, c2_step, c3_step, deadline_step, ended_step, lemma_position,
    position, smt_step, EngineModel,
};
use crate::candidate::lifecycle::{
    breaks_c2, c3_outcome, deadline_outcome, decides, entry_dir, first_deciding, leg_broken,
    leg_ended, leg_validated, legs_ended, lemma_reason_push, reason_of, seen, smt_ended_outcome,
    validation_before, validation_inserted, validation_of,
};
use crate::candidate::rules::{
    decision_of, executable, first_chain, lemma_without, score_of, validation_window, EntryModel,
};
use crate::candidate::types::{
    CandidateModel, ExpiryReason, LtfEventModel, SetupStatus, SymbolReasonModel, ValidationModel,
};
use crate::detector::{Direction, SmtModel, SymbolChainModel};
use crate::text::lemma_push_contains;
use crate::types::{duration, BarModel};

verus! {

/// The first chain of the instrument stands at a place of the list.
pub open spec fn chain_at(chains: Seq<SymbolChainModel>, symbol: Seq<char>, i: int) -> bool {
    &&& 0 <= i < chains.len()
    &&& chains[i].symbol == symbol
    &&& forall|j: int| 0 <= j < i ==> (#[trigger] chains[j]).symbol != symbol
}

/// The chain that stands there is found.
pub proof fn lemma_chain_at(chains: Seq<SymbolChainModel>, symbol: Seq<char>, i: int)
    requires
        chain_at(chains, symbol, i),
    ensures
        first_chain(chains, symbol) == Some(chains[i]),
    decreases i,
{
    if i > 0 {
        assert(chains[0].symbol != symbol);
        let rest = chains.drop_first();
        assert forall|j: int| 0 <= j < i - 1 implies (#[trigger] rest[j]).symbol != symbol by {
            assert(rest[j] == chains[j + 1]);
        }
        lemma_chain_at(rest, symbol, i - 1);
    }
}

/// The instrument is to rise where the candidate is right: it moves with a
/// rising candidate or against a falling one.
pub open spec fn leg_rises(e: EntryModel, symbol: Seq<char>) -> bool {
    let against = symbol != e.candidate.sweeper_symbol && e.smt_snapshot.relationship is Negative;
    (e.candidate.candidate_direction is Bullish && !against)
        || (e.candidate.candidate_direction is Bearish && against)
}

/// The reversal points where the instrument is to go.
pub open spec fn agrees_with_leg(e: EntryModel, symbol: Seq<char>, ev: LtfEventModel) -> bool {
    (ev.direction is Bullish) == leg_rises(e, symbol)
}

/// A live leg of a live candidate: neither validated nor ended, with a second
/// candle `c2` in the chain at place `i`.
pub open spec fn open_leg(e: EntryModel, symbol: Seq<char>, i: int) -> bool {
    let c = e.candidate;
    &&& c.setup_status is C2Confirmed || c.setup_status is Validated
    &&& c.trade_symbols.contains(symbol)
    &&& forall|k: int| 0 <= k < c.validations.len() ==> (#[trigger] c.validations[k]).symbol != symbol
    &&& !c.invalidated_symbols.contains(symbol)
    &&& chain_at(e.smt_snapshot.chains, symbol, i)
    &&& e.smt_snapshot.chains[i].detection_state !is Invalidated
    &&& e.smt_snapshot.chains[i].c2_candle is Some
    &&& window_end(e, i) <= i64::MAX
}

/// When the reversals of a leg stop counting: one comparison candle after its
/// third candle opened, or after its second while there is no third.
pub open spec fn window_end(e: EntryModel, i: int) -> int {
    let chain = e.smt_snapshot.chains[i];
    duration(e.smt_snapshot.comparison_timeframe) + match chain.c3_candle {
        Some(c3) => c3.ts as int,
        None => chain.c2_candle->0.ts as int,
    }
}

/// The reversal was collected before.
pub open spec fn collected_before(e: EntryModel, ev: LtfEventModel) -> bool {
    e.candidate.c2_cisd_event_ids.contains(ev.id) || e.candidate.c3_cisd_event_ids.contains(ev.id)
}

/// The reversal lies in the window of the leg and not after a time.
pub open spec fn in_window(e: EntryModel, i: int, ev: LtfEventModel, until: int) -> bool {
    &&& e.smt_snapshot.chains[i].c2_candle->0.ts <= ev.ts
    &&& ev.ts < window_end(e, i)
    &&& ev.ts <= until
}

proof fn lemma_window(e: EntryModel, symbol: Seq<char>, i: int)
    requires
        open_leg(e, symbol, i),
    ensures
        validation_window(e.smt_snapshot, symbol) matches Some(w) && {
            &&& w.0 == e.smt_snapshot.chains[i].c2_candle->0.ts
            &&& w.2 == window_end(e, i)
            &&& w.1 == match e.smt_snapshot.chains[i].c3_candle {
                Some(c3) => Some(c3.ts),
                None => None,
            }
        },
{
    reveal(validation_window);
    lemma_chain_at(e.smt_snapshot.chains, symbol, i);
}

/// A close strictly beyond the second candle on the losing side - below its low
/// where the instrument is to rise, above its high where it is to fall - ends
/// the leg, unless an earlier reversal is still to be counted. No other close
/// ends a leg for that reason. The candidate ends with its last leg where
/// nothing was validated.
pub proof fn law_a_close_beyond_c2_ends_the_leg(
    e: EntryModel,
    symbol: Seq<char>,
    i: int,
    bar: BarModel,
    events: Seq<LtfEventModel>,
)
    requires
        open_leg(e, symbol, i),
        forall|k: int| #![trigger events[k]]
            0 <= k < events.len() && in_window(e, i, events[k], bar.ts - 1) ==> collected_before(
                e,
                events[k],
            ),
    ensures
        ({
            let c2 = e.smt_snapshot.chains[i].c2_candle->0;
            let old_c = e.candidate;
            let r = after_bar(e, symbol, bar, events);
            let new_c = r.entry.candidate;
            let beyond = if leg_rises(e, symbol) {
                bar.close < c2.low
            } else {
                bar.close > c2.high
            };
            let last_leg = old_c.validations.len() == 0 && forall|t: int|
                0 <= t < old_c.trade_symbols.len() ==> #[trigger] old_c.trade_symbols[t] == symbol
                    || old_c.invalidated_symbols.contains(old_c.trade_symbols[t]);
            &&& beyond ==> {
                &&& r.changes.len() == 1
                &&& r.changes[0].candidate == new_c
                &&& r.changes[0].validation_event is None
                &&& new_c.invalidated_symbols == old_c.invalidated_symbols.push(symbol)
                &&& new_c.validations == old_c.validations
                &&& reason_of(old_c.symbol_invalidation_reasons, symbol) is None
                    ==> new_c.symbol_invalidation_reasons == old_c.symbol_invalidation_reasons.push(
                    SymbolReasonModel { symbol, reason: ExpiryReason::C2Break },
                )
                &&& last_leg ==> new_c.setup_status is Invalidated && new_c.expiry_reason == Some(
                    ExpiryReason::C2Break,
                ) && new_c.invalidated_at == Some(bar.ts)
                &&& !last_leg ==> new_c.setup_status == old_c.setup_status && new_c.expiry_reason
                    == old_c.expiry_reason && new_c.invalidated_at == old_c.invalidated_at
            }
            &&& !beyond ==> forall|k: int|
                0 <= k < new_c.symbol_invalidation_reasons.len() ==> (
                #[trigger] new_c.symbol_invalidation_reasons[k]).reason is Reverse || (k
                    < old_c.symbol_invalidation_reasons.len()
                    && new_c.symbol_invalidation_reasons[k] == old_c.symbol_invalidation_reasons[k])
            &&& !beyond && events.len() == 0 ==> r.entry == e && r.changes.len() == 0
        }),
{
    reveal(breaks_c2);
    reveal(leg_broken);
    reveal(leg_validated);
    lemma_window(e, symbol, i);
    lemma_chain_at(e.smt_snapshot.chains, symbol, i);
    let c = e.candidate;
    let ended = c.invalidated_symbols.push(symbol);
    assert forall|t: int| 0 <= t < c.trade_symbols.len() implies ended.contains(
        #[trigger] c.trade_symbols[t],
    ) == (c.trade_symbols[t] == symbol || c.invalidated_symbols.contains(
        c.trade_symbols[t],
    )) by {
        lemma_push_contains(c.invalidated_symbols, symbol, c.trade_symbols[t]);
    }
}

proof fn lemma_first_deciding_is(
    c: CandidateModel,
    events: Seq<LtfEventModel>,
    from: i64,
    bar_ts: i64,
    end: i64,
    dir: Direction,
    k: int,
)
    requires
        0 <= k < events.len(),
        decides(c, events[k], from, bar_ts, end, dir),
        forall|j: int| 0 <= j < k ==> !decides(c, #[trigger] events[j], from, bar_ts, end, dir),
    ensures
        first_deciding(c, events, from, bar_ts, end, dir) == Some(events[k]),
    decreases k,
{
    if k > 0 {
        assert(!decides(c, events[0], from, bar_ts, end, dir));
        let rest = events.drop_first();
        assert forall|j: int| 0 <= j < k - 1 implies !decides(
            c,
            #[trigger] rest[j],
            from,
            bar_ts,
            end,
            dir,
        ) by {
            assert(rest[j] == events[j + 1]);
        }
        lemma_first_deciding_is(c, rest, from, bar_ts, end, dir, k - 1);
    }
}

/// The first reversal in the window that was not collected before decides about
/// the leg where no close beyond the second candle comes first: one that points
/// where the instrument is to go validates it, one that points the other way
/// ends it.
pub proof fn law_the_first_reversal_decides(
    e: EntryModel,
    symbol: Seq<char>,
    i: int,
    bar: BarModel,
    events: Seq<LtfEventModel>,
    k: int,
)
    requires
        open_leg(e, symbol, i),
        0 <= k < events.len(),
        in_window(e, i, events[k], bar.ts as int),
        !collected_before(e, events[k]),
        forall|j: int| #![trigger events[j]]
            0 <= j < k ==> !in_window(e, i, events[j], bar.ts as int) || (collected_before(
                e,
                events[j],
            ) && agrees_with_leg(e, symbol, events[j])),
        events[k].ts < bar.ts || (if leg_rises(e, symbol) {
            bar.close >= e.smt_snapshot.chains[i].c2_candle->0.low
        } else {
            bar.close <= e.smt_snapshot.chains[i].c2_candle->0.high
        }),
    ensures
        ({
            let ev = events[k];
            let old_c = e.candidate;
            let r = after_bar(e, symbol, bar, events);
            let new_c = r.entry.candidate;
            let v = ValidationModel {
                event_id: ev.id,
                symbol,
                kind: ev.kind,
                direction: ev.direction,
                ts: ev.ts,
                price: ev.price,
            };
            let earliest = old_c.validation_ts is None || ev.ts < old_c.validation_ts->0;
            let third = e.smt_snapshot.chains[i].c3_candle is Some
                && e.smt_snapshot.chains[i].c3_candle->0.ts <= ev.ts;
            &&& r.changes.len() == 1
            &&& r.changes[0].candidate == new_c
            &&& agrees_with_leg(e, symbol, ev) ==> {
                &&& new_c.setup_status is Validated
                &&& new_c.validations.contains(v)
                &&& new_c.validations.len() == old_c.validations.len() + 1
                &&& r.changes[0].validation_event == Some(v)
                &&& new_c.invalidated_symbols == old_c.invalidated_symbols
                &&& new_c.symbol_invalidation_reasons == old_c.symbol_invalidation_reasons
                &&& earliest ==> new_c.validated_at == Some(ev.ts) && new_c.validation_ts == Some(
                    ev.ts,
                ) && new_c.validation_symbol == Some(symbol) && new_c.validation_kind == Some(
                    ev.kind,
                ) && new_c.validation_direction == Some(ev.direction)
                &&& !earliest ==> new_c.validated_at == old_c.validated_at && new_c.validation_ts
                    == old_c.validation_ts && new_c.validation_symbol == old_c.validation_symbol
                    && new_c.validation_kind == old_c.validation_kind && new_c.validation_direction
                    == old_c.validation_direction
                &&& third ==> new_c.c3_cisd_event_ids == old_c.c3_cisd_event_ids.push(ev.id)
                    && new_c.c2_cisd_event_ids == old_c.c2_cisd_event_ids
                &&& !third ==> new_c.c2_cisd_event_ids == old_c.c2_cisd_event_ids.push(ev.id)
                    && new_c.c3_cisd_event_ids == old_c.c3_cisd_event_ids
                &&& r.entry.ltf_events == e.ltf_events.push(ev)
            }
            &&& !agrees_with_leg(e, symbol, ev) ==> {
                &&& r.changes[0].validation_event is None
                &&& new_c.validations == old_c.validations
                &&& new_c.invalidated_symbols == old_c.invalidated_symbols.push(symbol)
                &&& reason_of(old_c.symbol_invalidation_reasons, symbol) is None
                    ==> new_c.symbol_invalidation_reasons == old_c.symbol_invalidation_reasons.push(
                    SymbolReasonModel { symbol, reason: ExpiryReason::Reverse },
                )
                &&& new_c.setup_status == old_c.setup_status || (new_c.setup_status is Invalidated
                    && new_c.expiry_reason == Some(ExpiryReason::Reverse) && new_c.invalidated_at
                    == Some(ev.ts))
            }
        }),
{
    reveal(breaks_c2);
    reveal(leg_broken);
    reveal(leg_validated);
    lemma_window(e, symbol, i);
    lemma_chain_at(e.smt_snapshot.chains, symbol, i);
    let w = validation_window(e.smt_snapshot, symbol)->0;
    let dir = entry_dir(e, symbol);
    assert((dir is Bullish) == leg_rises(e, symbol));
    assert forall|j: int| 0 <= j < k implies !decides(
        e.candidate,
        #[trigger] events[j],
        w.0,
        bar.ts,
        w.2,
        dir,
    ) by {
        assert(!in_window(e, i, events[j], bar.ts as int) || (collected_before(e, events[j])
            && agrees_with_leg(e, symbol, events[j])));
    }
    lemma_first_deciding_is(e.candidate, events, w.0, bar.ts, w.2, dir, k);
    let v = ValidationModel {
        event_id: events[k].id,
        symbol,
        kind: events[k].kind,
        direction: events[k].direction,
        ts: events[k].ts,
        price: events[k].price,
    };
    lemma_inserted(e.candidate.validations, v);
    assert(!seen(e.candidate, events[k].id));
}

proof fn lemma_inserted(list: Seq<ValidationModel>, v: ValidationModel)
    ensures
        validation_inserted(list, v).contains(v),
        validation_inserted(list, v).len() == list.len() + 1,
    decreases list.len(),
{
    let after = validation_inserted(list, v);
    if list.len() > 0 && validation_before(v, list.last()) {
        let inner = validation_inserted(list.drop_last(), v);
        lemma_inserted(list.drop_last(), v);
        lemma_push_contains(inner, list.last(), v);
    } else {
        lemma_push_contains(list, v, v);
    }
}

/// At its deadline a candidate ends once, for want of time: at the deadline
/// itself, however late the clock is looked at, and with its legs as they are.
pub proof fn law_the_deadline_is_the_end(e: EntryModel, now: i64)
    requires
        e.candidate.setup_status is C2Confirmed || e.candidate.setup_status is Validated,
    ensures
        ({
            let r = deadline_outcome(e, now);
            let c = r.entry.candidate;
            let due = e.candidate.expiry_at is Some && e.candidate.expiry_at->0 <= now;
            &&& due ==> {
                &&& r.changes.len() == 1
                &&& r.changes[0].candidate == c
                &&& r.changes[0].decision.created_at == e.candidate.expiry_at->0
                &&& c.expired_at == e.candidate.expiry_at
                &&& c.expiry_reason == Some(ExpiryReason::Ttl)
                &&& (c.setup_status is Expired) == (e.candidate.setup_status is Validated)
                &&& (c.setup_status is ReCheck) == (e.candidate.setup_status is C2Confirmed)
                &&& c.validations == e.candidate.validations
                &&& c.invalidated_symbols == e.candidate.invalidated_symbols
            }
            &&& !due ==> r.entry == e && r.changes.len() == 0
        }),
{
    reveal(decision_of);
}

/// A third candle of the sweeper sets the deadline: so many comparison candles
/// after it opened.
pub proof fn law_the_third_candle_sets_the_deadline(e: EntryModel, smt: SmtModel, bars: int, i: int)
    requires
        chain_at(smt.chains, smt.sweeper_symbol, i),
        smt.chains[i].c3_candle is Some,
        i64::MIN <= smt.chains[i].c3_candle->0.ts + bars * duration(e.candidate.comparison_timeframe)
            <= i64::MAX,
    ensures
        ({
            let c3 = smt.chains[i].c3_candle->0;
            let r = c3_outcome(e, smt, bars);
            let c = r.entry.candidate;
            let known = e.candidate.c3_candle is Some && e.candidate.c3_candle->0.ts == c3.ts;
            &&& r.entry.smt_snapshot == smt
            &&& c.setup_status == e.candidate.setup_status
            &&& known ==> c == e.candidate && r.changes.len() == 0
            &&& !known ==> {
                &&& c.c3_candle == Some(c3)
                &&& c.expiry_at is Some
                &&& c.expiry_at->0 - c3.ts == bars * duration(e.candidate.comparison_timeframe)
                &&& r.changes.len() == 1
                &&& r.changes[0].candidate == c
            }
        }),
{
    lemma_chain_at(smt.chains, smt.sweeper_symbol, i);
}

proof fn lemma_legs_ended_reasons(
    c: CandidateModel,
    symbols: Seq<Seq<char>>,
    reason: ExpiryReason,
    s: Seq<char>,
)
    ensures
        symbols.contains(s) && reason_of(c.symbol_invalidation_reasons, s) is None ==> reason_of(
            legs_ended(c, symbols, reason).symbol_invalidation_reasons,
            s,
        ) == Some(reason),
        reason_of(c.symbol_invalidation_reasons, s) is Some ==> reason_of(
            legs_ended(c, symbols, reason).symbol_invalidation_reasons,
            s,
        ) == reason_of(c.symbol_invalidation_reasons, s),
        !symbols.contains(s) ==> reason_of(
            legs_ended(c, symbols, reason).symbol_invalidation_reasons,
            s,
        ) == reason_of(c.symbol_invalidation_reasons, s),
        legs_ended(c, symbols, reason).expiry_reason == c.expiry_reason,
        legs_ended(c, symbols, reason).invalidated_at == c.invalidated_at,
        legs_ended(c, symbols, reason).validations == c.validations,
        legs_ended(c, symbols, reason).setup_status == c.setup_status,
    decreases symbols.len(),
{
    if symbols.len() > 0 {
        let before = legs_ended(c, symbols.drop_last(), reason);
        lemma_legs_ended_reasons(c, symbols.drop_last(), reason, s);
        assert(symbols =~= symbols.drop_last().push(symbols.last()));
        lemma_push_contains(symbols.drop_last(), symbols.last(), s);
        lemma_reason_push(
            before.symbol_invalidation_reasons,
            SymbolReasonModel { symbol: symbols.last(), reason },
            s,
        );
    }
}

/// The end of a divergence ends its candidate at that time and for that reason,
/// and every leg that had not ended for another.
pub proof fn law_the_divergence_takes_its_candidate_along(
    e: EntryModel,
    latest: Option<SmtModel>,
    ts: i64,
    symbol: Seq<char>,
)
    ensures
        ({
            let r = smt_ended_outcome(e, latest, ts);
            let c = r.entry.candidate;
            let live = e.candidate.setup_status is C2Confirmed || e.candidate.setup_status
                is Validated;
            let had = reason_of(e.candidate.symbol_invalidation_reasons, symbol);
            let has = reason_of(c.symbol_invalidation_reasons, symbol);
            &&& live ==> {
                &&& c.setup_status is Invalidated
                &&& c.expiry_reason == Some(ExpiryReason::SmtInvalidated)
                &&& c.invalidated_at == Some(ts)
                &&& c.validations == e.candidate.validations
                &&& r.changes.len() == 1
                &&& r.changes[0].candidate == c
                &&& had is Some ==> has == had
                &&& had is None && e.candidate.trade_symbols.contains(symbol) ==> has == Some(
                    ExpiryReason::SmtInvalidated,
                )
                &&& had is None && !e.candidate.trade_symbols.contains(symbol) ==> has is None
                &&& r.entry.smt_snapshot == (match latest {
                    Some(smt) => smt,
                    None => e.smt_snapshot,
                })
            }
            &&& !live ==> r.entry == e && r.changes.len() == 0
        }),
{
    let ended = CandidateModel {
        setup_status: SetupStatus::Invalidated,
        expiry_reason: Some(ExpiryReason::SmtInvalidated),
        invalidated_at: Some(ts),
        ..e.candidate
    };
    lemma_legs_ended_reasons(
        ended,
        ended.trade_symbols,
        ExpiryReason::SmtInvalidated,
        symbol,
    );
}

/// A divergence that is new to the engine spawns one candidate where it formed
/// inside a price area, its sweeper has a second candle and some other member
/// can be traded; else none. The sweeper itself is never traded.
pub proof fn law_a_confirmed_divergence_spawns_a_candidate(s: EngineModel, smt: SmtModel, i: int)
    requires
        forall|k: int|
            0 <= k < s.entries.len() ==> (#[trigger] s.entries[k]).candidate.smt_id != smt.id,
        chain_at(smt.chains, smt.sweeper_symbol, i),
    ensures
        ({
            let r = c2_step(s, smt);
            let chain = smt.chains[i];
            let tradeable = exists|m: int|
                0 <= m < smt.symbol_set.len() && #[trigger] smt.symbol_set[m] != smt.sweeper_symbol;
            let spawns = smt.htf_pda_ref is Some && chain.c2_candle is Some && tradeable;
            &&& !spawns ==> r.engine == s && r.changes.len() == 0
            &&& spawns ==> {
                let e = r.engine.entries.last();
                let c = e.candidate;
                let c2 = chain.c2_candle->0;
                &&& r.engine.entries.len() == s.entries.len() + 1
                &&& r.engine.entries.drop_last() == s.entries
                &&& r.changes.len() == 1
                &&& r.changes[0].candidate == c
                &&& c.smt_id == smt.id
                &&& c.setup_status is C2Confirmed
                &&& c.candidate_direction == smt.candidate_direction
                &&& c.sweeper_symbol == smt.sweeper_symbol
                &&& c.c1_candle == chain.c1_candle && c.c2_candle == c2 && c.c3_candle is None
                &&& c.created_at == c2.ts
                &&& c.expiry_at is None
                &&& c.context_pda_id == Some(smt.htf_pda_ref->0.id)
                &&& c.validations.len() == 0 && c.invalidated_symbols.len() == 0
                &&& c.deterministic_score == score_of(c, smt)
                &&& forall|x: Seq<char>| #[trigger]
                    c.trade_symbols.contains(x) == (smt.symbol_set.contains(x) && x
                        != smt.sweeper_symbol)
                &&& e.smt_snapshot == smt && e.ltf_events.len() == 0
            }
        }),
{
    reveal(score_of);
    lemma_chain_at(smt.chains, smt.sweeper_symbol, i);
    lemma_position(s.entries, smt.id);
    let at = position(s.entries, smt.id);
    assert(at == s.entries.len());
    assert forall|x: Seq<char>| #[trigger] executable(smt).contains(x) == (smt.symbol_set.contains(
        x,
    ) && x != smt.sweeper_symbol) by {
        lemma_without(smt.symbol_set, smt.sweeper_symbol, x);
    }
    let tradeable = exists|m: int|
        0 <= m < smt.symbol_set.len() && #[trigger] smt.symbol_set[m] != smt.sweeper_symbol;
    if executable(smt).len() > 0 {
        let x = executable(smt)[0];
        assert(executable(smt).contains(x));
        let m = choose|m: int| 0 <= m < smt.symbol_set.len() && smt.symbol_set[m] == x;
        assert(smt.symbol_set[m] != smt.sweeper_symbol);
    }
    if tradeable {
        let m = choose|m: int|
            0 <= m < smt.symbol_set.len() && #[trigger] smt.symbol_set[m] != smt.sweeper_symbol;
        assert(smt.symbol_set.contains(smt.symbol_set[m]));
        assert(executable(smt).contains(smt.symbol_set[m]));
    }
    if smt.htf_pda_ref is Some && smt.chains[i].c2_candle is Some && tradeable {
        let after = c2_step(s, smt).engine.entries;
        assert(after.drop_last() =~= s.entries);
        let c = after.last().candidate;
        let blank = CandidateModel { deterministic_score: 0, ..c };
        assert(score_of(c, smt) == score_of(blank, smt));
    }
}

/// How far the sweeper has come decides what an event does: a second candle is
/// taken up, a third one also sets the deadline, a failed one ends the
/// candidate, and a first sighting changes nothing.
pub proof fn law_the_sweeper_decides_the_step(s: EngineModel, smt: SmtModel, now: i64, i: int)
    requires
        chain_at(smt.chains, smt.sweeper_symbol, i),
    ensures
        smt.chains[i].detection_state is SmtKDetected ==> smt_step(s, smt, now).engine == s
            && smt_step(s, smt, now).changes.len() == 0,
        smt.chains[i].detection_state is C2Confirmed ==> smt_step(s, smt, now) == c2_step(s, smt),
        smt.chains[i].detection_state is C3Entry ==> smt_step(s, smt, now).engine == c3_step(
            c2_step(s, smt).engine,
            smt,
        ).engine && smt_step(s, smt, now).changes == c2_step(s, smt).changes + c3_step(
            c2_step(s, smt).engine,
            smt,
        ).changes,
        smt.chains[i].detection_state is Invalidated ==> smt_step(s, smt, now) == ended_step(
            s,
            smt.id,
            Some(smt),
            now,
        ),
{
    lemma_chain_at(smt.chains, smt.sweeper_symbol, i);
}

proof fn lemma_bar_changes_some(
    entries: Seq<EntryModel>,
    symbol: Seq<char>,
    bar: BarModel,
    events: Seq<LtfEventModel>,
    n: nat,
    k: int,
)
    requires
        0 <= k < n <= entries.len(),
        after_bar(entries[k], symbol, bar, events).changes.len() > 0,
    ensures
        bar_changes(entries, symbol, bar, events, n).contains(
            after_bar(entries[k], symbol, bar, events).changes[0],
        ),
    decreases n,
{
    let one = after_bar(entries[k], symbol, bar, events).changes[0];
    let before = bar_changes(entries, symbol, bar, events, (n - 1) as nat);
    let now = after_bar(entries[n - 1], symbol, bar, events).changes;
    if k < n - 1 {
        lemma_bar_changes_some(entries, symbol, bar, events, (n - 1) as nat, k);
        let p = choose|p: int| 0 <= p < before.len() && before[p] == one;
        assert((before + now)[p] == one);
    } else {
        assert((before + now)[before.len() as int] == one);
    }
}

/// A close reaches every candidate of the engine, each by itself, and what
/// changes one is reported.
pub proof fn law_a_close_reaches_every_candidate(
    s: EngineModel,
    symbol: Seq<char>,
    bar: BarModel,
    events: Seq<LtfEventModel>,
    k: int,
)
    requires
        0 <= k < s.entries.len(),
    ensures
        bar_step(s, symbol, bar, events).engine.entries.len() == s.entries.len(),
        bar_step(s, symbol, bar, events).engine.entries[k] == after_bar(
            s.entries[k],
            symbol,
            bar,
            events,
        ).entry,
        after_bar(s.entries[k], symbol, bar, events).changes.len() > 0 ==> bar_step(
            s,
            symbol,
            bar,
            events,
        ).changes.contains(after_bar(s.entries[k], symbol, bar, events).changes[0]),
        deadline_step(s, bar.ts).engine.entries[k] == deadline_outcome(s.entries[k], bar.ts).entry,
{
    if after_bar(s.entries[k], symbol, bar, events).changes.len() > 0 {
        lemma_bar_changes_some(s.entries, symbol, bar, events, s.entries.len(), k);
    }
}

/// Validations by time.
pub open spec fn by_time(list: Seq<ValidationModel>) -> bool {
    forall|i: int, j: int| 0 <= i < j < list.len() ==> (#[trigger] list[i]).ts <= (#[trigger] list[j]).ts
}

proof fn lemma_validation_inserted(list: Seq<ValidationModel>, v: ValidationModel, x: ValidationModel)
    requires
        by_time(list),
    ensures
        by_time(validation_inserted(list, v)),
        validation_inserted(list, v).len() == list.len() + 1,
        validation_inserted(list, v).contains(x) <==> list.contains(x) || x == v,
        validation_inserted(list, v).last().ts >= v.ts,
        list.len() > 0 ==> validation_inserted(list, v).last().ts >= list.last().ts,
        validation_inserted(list, v).last() == v || (list.len() > 0 && validation_inserted(list, v).last()
            == list.last()),
    decreases list.len(),
{
    let r = validation_inserted(list, v);
    if list.len() > 0 && validation_before(v, list.last()) {
        let rest = list.drop_last();
        let inner = validation_inserted(rest, v);
        assert forall|i: int, j: int| 0 <= i < j < rest.len() implies (#[trigger] rest[i]).ts <= (
        #[trigger] rest[j]).ts by {
            assert(list[i].ts <= list[j].ts);
        }
        lemma_validation_inserted(rest, v, x);
        lemma_push_contains(inner, list.last(), x);
        lemma_push_contains(rest, list.last(), x);
        assert(rest.push(list.last()) =~= list);
        assert(inner.last().ts <= list.last().ts) by {
            if inner.last() != v {
                assert(list[rest.len() - 1].ts <= list[list.len() - 1].ts);
            }
        }
        assert forall|i: int, j: int| 0 <= i < j < r.len() implies (#[trigger] r[i]).ts <= (
        #[trigger] r[j]).ts by {
            if j < inner.len() {
                assert(inner[i].ts <= inner[j].ts);
            } else if i < inner.len() - 1 {
                assert(inner[i].ts <= inner[inner.len() - 1].ts);
            }
        }
    } else {
        lemma_push_contains(list, v, x);
        assert forall|i: int, j: int| 0 <= i < j < r.len() implies (#[trigger] r[i]).ts <= (
        #[trigger] r[j]).ts by {
            if j < list.len() {
                assert(list[i].ts <= list[j].ts);
            } else if i < list.len() - 1 {
                assert(list[i].ts <= list[list.len() - 1].ts);
            }
        }
    }
}

/// A reversal that validates a leg joins the validations in the order of time, with
/// its instrument, kind, direction and price, and none of the others is lost.
pub proof fn law_validations_are_kept_by_time(
    e: EntryModel,
    symbol: Seq<char>,
    ev: LtfEventModel,
    c3_ts: Option<i64>,
    x: ValidationModel,
)
    requires
        by_time(e.candidate.validations),
    ensures
        ({
            let r = leg_validated(e, symbol, ev, c3_ts).candidate.validations;
            &&& by_time(r)
            &&& r.len() == e.candidate.validations.len() + 1
            &&& r.contains(x) <==> e.candidate.validations.contains(x) || (x.symbol == symbol
                && x.event_id == ev.id && x.ts == ev.ts && x.price == ev.price && x.kind == ev.kind
                && x.direction == ev.direction)
        }),
{
    reveal(leg_validated);
    lemma_validation_inserted(e.candidate.validations, validation_of(symbol, ev), x);
}

/// A candidate is summed up by its earliest validation; a reversal counts to the
/// third candle from its opening on, and to the second one before.
pub proof fn law_the_earliest_validation_sums_up(
    e: EntryModel,
    symbol: Seq<char>,
    ev: LtfEventModel,
    c3_ts: Option<i64>,
)
    ensures
        ({
            let c = e.candidate;
            let r = leg_validated(e, symbol, ev, c3_ts).candidate;
            let sooner = c.validation_ts is None || ev.ts < c.validation_ts->0;
            let late = c3_ts is Some && c3_ts->0 <= ev.ts;
            &&& r.setup_status is Validated
            &&& r.validation_ts matches Some(ts) && ts <= ev.ts && (ts == ev.ts || c.validation_ts
                == Some(ts)) && (c.validation_ts matches Some(t) ==> ts <= t)
            &&& sooner ==> r.validation_symbol == Some(symbol) && r.validation_kind == Some(ev.kind)
                && r.validation_direction == Some(ev.direction) && r.validated_at == Some(ev.ts)
            &&& !sooner ==> r.validation_symbol == c.validation_symbol && r.validation_kind
                == c.validation_kind && r.validation_direction == c.validation_direction
                && r.validated_at == c.validated_at
            &&& late ==> r.c3_cisd_event_ids == c.c3_cisd_event_ids.push(ev.id)
                && r.c2_cisd_event_ids == c.c2_cisd_event_ids
            &&& !late ==> r.c2_cisd_event_ids == c.c2_cisd_event_ids.push(ev.id)
                && r.c3_cisd_event_ids == c.c3_cisd_event_ids
            &&& r.id == c.id && r.c2_candle == c.c2_candle && r.expiry_at == c.expiry_at
            &&& leg_validated(e, symbol, ev, c3_ts).ltf_events == e.ltf_events.push(ev)
        }),
{
    reveal(leg_validated);
}

/// A leg that ends is listed with its first reason; the candidate ends with it only
/// where nothing was validated and no other leg is left.
pub proof fn law_a_candidate_ends_with_its_last_leg(
    e: EntryModel,
    symbol: Seq<char>,
    reason: ExpiryReason,
    ts: i64,
    x: Seq<char>,
)
    ensures
        ({
            let c = e.candidate;
            let r = leg_broken(e, symbol, reason, ts).candidate;
            let over = c.validations.len() == 0 && forall|i: int|
                0 <= i < c.trade_symbols.len() ==> (#[trigger] c.trade_symbols[i]) == symbol
                    || c.invalidated_symbols.contains(c.trade_symbols[i]);
            &&& r.invalidated_symbols.contains(x) <==> c.invalidated_symbols.contains(x) || x == symbol
            &&& over ==> r.setup_status is Invalidated && r.expiry_reason == Some(reason)
                && r.invalidated_at == Some(ts)
            &&& !over ==> r.setup_status == c.setup_status && r.expiry_reason == c.expiry_reason
                && r.invalidated_at == c.invalidated_at
            &&& r.validations == c.validations
            &&& r.c2_candle == c.c2_candle && r.expiry_at == c.expiry_at
            &&& leg_broken(e, symbol, reason, ts).smt_snapshot == e.smt_snapshot
        }),
{
    reveal(leg_broken);
    let c = e.candidate;
    lemma_push_contains(c.invalidated_symbols, symbol, x);
    let ended = leg_ended(c, symbol, reason);
    assert forall|y: Seq<char>| #[trigger]
        ended.invalidated_symbols.contains(y) == (c.invalidated_symbols.contains(y) || y
            == symbol) by {
        lemma_push_contains(c.invalidated_symbols, symbol, y);
    }
}

} // verus!
