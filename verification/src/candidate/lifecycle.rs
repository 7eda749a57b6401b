//! Transitions of one candidate.
use vstd::prelude::*;
use crate::candidate::rules::{
    change_of, effective_dir, effective_ltf_dir, find_chain, first_chain, make_change, score_of,
    sweeper_chain, sweeper_chain_of, symbol_validation_window, validation_window, CandidateEntry,
    DeterministicRuleStrategy, EntryModel,
};
use crate::candidate::types::{
    CandidateChange, CandidateModel, CandidateSetup, ChangeModel, ExpiryReason, LtfEventModel,
    LtfEventRef, SetupStatus, SymbolReason, SymbolReasonModel, SymbolValidation, ValidationModel,
};
use crate::detector::{Direction, SmtDivergence, SmtModel};
use crate::text::{
    lemma_push_contains, lemma_text_order, list_has, owned, text_before, text_eq, text_lt,
};
use crate::types::{duration, Bar, BarModel, Timeframe};

verus! {

/// Recorded reason why a leg ended.
pub open spec fn reason_of(reasons: Seq<SymbolReasonModel>, symbol: Seq<char>) -> Option<ExpiryReason>
    decreases reasons.len(),
{
    if reasons.len() == 0 {
        None
    } else if reasons[0].symbol == symbol {
        Some(reasons[0].reason)
    } else {
        reason_of(reasons.drop_first(), symbol)
    }
}

/// A candidate after one of its legs ended. The first reason of a leg stays.
pub open spec fn leg_ended(c: CandidateModel, symbol: Seq<char>, reason: ExpiryReason) -> CandidateModel {
    CandidateModel {
        invalidated_symbols: if c.invalidated_symbols.contains(symbol) {
            c.invalidated_symbols
        } else {
            c.invalidated_symbols.push(symbol)
        },
        symbol_invalidation_reasons: if reason_of(c.symbol_invalidation_reasons, symbol) is Some {
            c.symbol_invalidation_reasons
        } else {
            c.symbol_invalidation_reasons.push(SymbolReasonModel { symbol, reason })
        },
        ..c
    }
}

pub proof fn lemma_reason_push(reasons: Seq<SymbolReasonModel>, one: SymbolReasonModel, symbol: Seq<char>)
    ensures
        reason_of(reasons.push(one), symbol) == match reason_of(reasons, symbol) {
            Some(r) => Some(r),
            None => if one.symbol == symbol {
                Some(one.reason)
            } else {
                None
            },
        },
    decreases reasons.len(),
{
    reveal_with_fuel(reason_of, 2);
    if reasons.len() > 0 {
        assert(reasons.push(one).drop_first() =~= reasons.drop_first().push(one));
        lemma_reason_push(reasons.drop_first(), one, symbol);
    } else {
        assert(reasons.push(one).drop_first() =~= Seq::<SymbolReasonModel>::empty());
    }
}

/// Looks up why a leg ended.
pub fn invalidation_reason(reasons: &Vec<SymbolReason>, symbol: &str) -> (r: Option<ExpiryReason>)
    ensures
        r == reason_of(reasons.deep_view(), symbol@),
{
    let mut i: usize = 0;
    assert(reasons.deep_view().skip(0) =~= reasons.deep_view());
    while i < reasons.len()
        invariant
            i <= reasons.len(),
            reason_of(reasons.deep_view(), symbol@) == reason_of(
                reasons.deep_view().skip(i as int),
                symbol@,
            ),
        decreases reasons.len() - i,
    {
        assert(reasons.deep_view().skip(i as int)[0] == reasons@[i as int]@);
        if text_eq(reasons[i].symbol.as_str(), symbol) {
            return Some(reasons[i].reason);
        }
        assert(reasons.deep_view().skip(i as int).drop_first() =~= reasons.deep_view().skip(i + 1));
        i += 1;
    }
    None
}

impl CandidateSetup {
    /// Ends one executable leg without touching the others. The first reason
    /// stays on record.
    pub fn invalidate_symbol(&mut self, symbol: &str, reason: ExpiryReason)
        ensures
            final(self)@ == leg_ended(old(self)@, symbol@, reason),
    {
        let ghost before = self@;
        if !list_has(&self.invalidated_symbols, symbol) {
            self.invalidated_symbols.push(owned(symbol));
            assert(self.invalidated_symbols.deep_view() =~= before.invalidated_symbols.push(
                symbol@,
            ));
        }
        if invalidation_reason(&self.symbol_invalidation_reasons, symbol).is_none() {
            self.symbol_invalidation_reasons.push(SymbolReason { symbol: owned(symbol), reason });
            assert(self.symbol_invalidation_reasons.deep_view()
                =~= before.symbol_invalidation_reasons.push(
                SymbolReasonModel { symbol: symbol@, reason },
            ));
        }
    }
}

/// Nothing was validated and every executable leg has ended.
pub open spec fn all_legs_dead(c: CandidateModel) -> bool {
    c.validations.len() == 0 && forall|i: int|
        0 <= i < c.trade_symbols.len() ==> c.invalidated_symbols.contains(
            #[trigger] c.trade_symbols[i],
        )
}

fn has_no_leg_left(c: &CandidateSetup) -> (r: bool)
    ensures
        r == all_legs_dead(c@),
{
    if c.validations.len() != 0 {
        return false;
    }
    let mut i: usize = 0;
    while i < c.trade_symbols.len()
        invariant
            i <= c.trade_symbols.len(),
            forall|k: int|
                0 <= k < i ==> c.invalidated_symbols.deep_view().contains(
                    #[trigger] c.trade_symbols.deep_view()[k],
                ),
        decreases c.trade_symbols.len() - i,
    {
        assert(c@.trade_symbols[i as int] == c.trade_symbols@[i as int]@);
        if !list_has(&c.invalidated_symbols, c.trade_symbols[i].as_str()) {
            return false;
        }
        i += 1;
    }
    true
}

/// An entry with its score brought up to date.
pub open spec fn rescored(e: EntryModel) -> EntryModel {
    EntryModel {
        candidate: CandidateModel {
            deterministic_score: score_of(e.candidate, e.smt_snapshot) as u32,
            ..e.candidate
        },
        ..e
    }
}

fn rescore(entry: &mut CandidateEntry)
    ensures
        final(entry)@ == rescored(old(entry)@),
{
    let score: u32 = DeterministicRuleStrategy::score(&entry.candidate, &entry.smt_snapshot);
    entry.candidate.deterministic_score = score;
}

/// An entry after a break or a reversal ended one leg. The candidate ends with
/// its last leg where nothing was validated.
#[verifier::opaque]
pub open spec fn leg_broken(e: EntryModel, symbol: Seq<char>, reason: ExpiryReason, ts: i64) -> EntryModel {
    let c = leg_ended(e.candidate, symbol, reason);
    let after = if all_legs_dead(c) {
        CandidateModel {
            setup_status: SetupStatus::Invalidated,
            expiry_reason: Some(reason),
            invalidated_at: Some(ts),
            ..c
        }
    } else {
        c
    };
    rescored(EntryModel { candidate: after, ..e })
}

/// Ends one leg of an entry.
pub fn break_leg(entry: &mut CandidateEntry, symbol: &str, reason: ExpiryReason, ts: i64) -> (r:
    CandidateChange)
    ensures
        final(entry)@ == leg_broken(old(entry)@, symbol@, reason, ts),
        r@ == change_of(final(entry)@, ts, None),
{
    proof {
        reveal(leg_broken);
    }
    entry.candidate.invalidate_symbol(symbol, reason);
    if has_no_leg_left(&entry.candidate) {
        entry.candidate.setup_status = SetupStatus::Invalidated;
        entry.candidate.expiry_reason = Some(reason);
        entry.candidate.invalidated_at = Some(ts);
    }
    rescore(entry);
    make_change(entry, ts, None)
}

/// Order of validations: by time, then instrument, then event.
pub open spec fn validation_before(a: ValidationModel, b: ValidationModel) -> bool {
    a.ts < b.ts || (a.ts == b.ts && (text_before(a.symbol, b.symbol) || (a.symbol == b.symbol
        && text_before(a.event_id, b.event_id))))
}

/// The list with one more validation in its place.
pub open spec fn validation_inserted(list: Seq<ValidationModel>, v: ValidationModel) -> Seq<
    ValidationModel,
>
    decreases list.len(),
{
    if list.len() > 0 && validation_before(v, list.last()) {
        validation_inserted(list.drop_last(), v).push(list.last())
    } else {
        list.push(v)
    }
}

/// Validations in order.
pub open spec fn in_order(list: Seq<ValidationModel>) -> bool {
    forall|i: int, j: int|
        0 <= i < j < list.len() ==> !validation_before(#[trigger] list[j], #[trigger] list[i])
}

pub proof fn lemma_validation_order(a: ValidationModel, b: ValidationModel, c: ValidationModel)
    ensures
        !validation_before(a, a),
        validation_before(a, b) && validation_before(b, c) ==> validation_before(a, c),
        validation_before(a, b) && !validation_before(c, b) ==> validation_before(a, c),
{
    lemma_text_order(a.symbol, b.symbol, c.symbol);
    lemma_text_order(a.event_id, b.event_id, c.event_id);
    lemma_text_order(b.symbol, c.symbol, a.symbol);
    lemma_text_order(b.event_id, c.event_id, a.event_id);
    lemma_text_order(a.symbol, c.symbol, b.symbol);
    lemma_text_order(a.event_id, c.event_id, b.event_id);
    lemma_text_order(c.symbol, b.symbol, a.symbol);
    lemma_text_order(c.event_id, b.event_id, a.event_id);
}

/// Inserting keeps the order, and adds exactly the new validation.
pub proof fn law_validations_stay_in_order(list: Seq<ValidationModel>, v: ValidationModel)
    requires
        in_order(list),
    ensures
        in_order(validation_inserted(list, v)),
        validation_inserted(list, v).len() == list.len() + 1,
        forall|x: ValidationModel| #[trigger]
            validation_inserted(list, v).contains(x) == (list.contains(x) || x == v),
    decreases list.len(),
{
    let after = validation_inserted(list, v);
    if list.len() > 0 && validation_before(v, list.last()) {
        let rest = list.drop_last();
        let inner = validation_inserted(rest, v);
        assert forall|i: int, j: int| 0 <= i < j < rest.len() implies !validation_before(
            #[trigger] rest[j],
            #[trigger] rest[i],
        ) by {
            assert(rest[i] == list[i] && rest[j] == list[j]);
        }
        law_validations_stay_in_order(rest, v);
        assert(list =~= rest.push(list.last()));
        assert forall|x: ValidationModel| #[trigger] after.contains(x) == (list.contains(x) || x
            == v) by {
            lemma_push_contains(inner, list.last(), x);
            lemma_push_contains(rest, list.last(), x);
        }
        assert forall|i: int, j: int| 0 <= i < j < after.len() implies !validation_before(
            #[trigger] after[j],
            #[trigger] after[i],
        ) by {
            if j == after.len() - 1 {
                assert(after[i] == inner[i]);
                assert(inner.contains(inner[i]));
                if inner[i] == v {
                    lemma_validation_order(v, list.last(), v);
                } else {
                    assert(rest.contains(inner[i]));
                    let k = choose|k: int| 0 <= k < rest.len() && rest[k] == inner[i];
                    assert(list[k] == inner[i]);
                    assert(!validation_before(list[list.len() - 1], list[k]));
                }
            } else {
                assert(after[i] == inner[i] && after[j] == inner[j]);
            }
        }
    } else {
        assert forall|x: ValidationModel| #[trigger] after.contains(x) == (list.contains(x) || x
            == v) by {
            lemma_push_contains(list, v, x);
        }
        assert forall|i: int, j: int| 0 <= i < j < after.len() implies !validation_before(
            #[trigger] after[j],
            #[trigger] after[i],
        ) by {
            if j == after.len() - 1 {
                assert(after[i] == list[i]);
                if i < list.len() - 1 {
                    assert(!validation_before(list[list.len() - 1], list[i]));
                    if validation_before(v, list[i]) {
                        lemma_validation_order(v, list[i], list.last());
                    }
                }
            } else {
                assert(after[i] == list[i] && after[j] == list[j]);
            }
        }
    }
}

proof fn lemma_inserted_at(list: Seq<ValidationModel>, v: ValidationModel, i: int)
    requires
        0 <= i <= list.len(),
        forall|k: int| i <= k < list.len() ==> validation_before(v, #[trigger] list[k]),
        i > 0 ==> !validation_before(v, list[i - 1]),
    ensures
        validation_inserted(list, v) == list.insert(i, v),
    decreases list.len(),
{
    if i < list.len() {
        assert(validation_before(v, list[list.len() - 1]));
        assert forall|k: int| i <= k < list.len() - 1 implies validation_before(
            v,
            #[trigger] list.drop_last()[k],
        ) by {
            assert(list.drop_last()[k] == list[k]);
        }
        lemma_inserted_at(list.drop_last(), v, i);
        assert(validation_inserted(list, v) =~= list.insert(i, v));
    } else {
        assert(validation_inserted(list, v) =~= list.insert(i, v));
    }
}

fn is_validation_before(a: &SymbolValidation, b: &SymbolValidation) -> (r: bool)
    ensures
        r == validation_before(a@, b@),
{
    if a.ts != b.ts {
        return a.ts < b.ts;
    }
    if text_lt(a.symbol.as_str(), b.symbol.as_str()) {
        return true;
    }
    text_eq(a.symbol.as_str(), b.symbol.as_str()) && text_lt(
        a.event_id.as_str(),
        b.event_id.as_str(),
    )
}

fn insert_validation(list: &mut Vec<SymbolValidation>, v: SymbolValidation)
    ensures
        final(list).deep_view() == validation_inserted(old(list).deep_view(), v@),
{
    let ghost before = list.deep_view();
    let mut i: usize = list.len();
    while i > 0 && is_validation_before(&v, &list[i - 1])
        invariant
            i <= list.len(),
            list.deep_view() == before,
            forall|k: int| i <= k < before.len() ==> validation_before(v@, #[trigger] before[k]),
        decreases i,
    {
        assert(before[i - 1] == list@[i - 1]@);
        i -= 1;
    }
    proof {
        if i > 0 {
            assert(before[i - 1] == list@[i - 1]@);
        }
        lemma_inserted_at(before, v@, i as int);
    }
    list.insert(i, v);
    assert(list.deep_view() =~= before.insert(i as int, v@));
}

/// The validation that an event gives to an instrument.
pub open spec fn validation_of(symbol: Seq<char>, ev: LtfEventModel) -> ValidationModel {
    ValidationModel {
        event_id: ev.id,
        symbol,
        kind: ev.kind,
        direction: ev.direction,
        ts: ev.ts,
        price: ev.price,
    }
}

/// An entry after an event validated one of its instruments. The summary
/// fields follow the earliest validation.
#[verifier::opaque]
pub open spec fn leg_validated(
    e: EntryModel,
    symbol: Seq<char>,
    ev: LtfEventModel,
    c3_ts: Option<i64>,
) -> EntryModel {
    let c = e.candidate;
    let earliest = match c.validation_ts {
        Some(ts) => ev.ts < ts,
        None => true,
    };
    let in_c3 = match c3_ts {
        Some(ts) => ev.ts >= ts,
        None => false,
    };
    let after = CandidateModel {
        validations: validation_inserted(c.validations, validation_of(symbol, ev)),
        setup_status: SetupStatus::Validated,
        validated_at: if earliest { Some(ev.ts) } else { c.validated_at },
        validation_kind: if earliest { Some(ev.kind) } else { c.validation_kind },
        validation_symbol: if earliest { Some(symbol) } else { c.validation_symbol },
        validation_ts: if earliest { Some(ev.ts) } else { c.validation_ts },
        validation_direction: if earliest { Some(ev.direction) } else { c.validation_direction },
        c2_cisd_event_ids: if in_c3 {
            c.c2_cisd_event_ids
        } else {
            c.c2_cisd_event_ids.push(ev.id)
        },
        c3_cisd_event_ids: if in_c3 {
            c.c3_cisd_event_ids.push(ev.id)
        } else {
            c.c3_cisd_event_ids
        },
        ..c
    };
    rescored(EntryModel { candidate: after, ltf_events: e.ltf_events.push(ev), ..e })
}

/// Validates one instrument of an entry.
pub fn validate_leg(entry: &mut CandidateEntry, symbol: &str, ev: &LtfEventRef, c3_ts: Option<i64>) -> (r:
    CandidateChange)
    ensures
        final(entry)@ == leg_validated(old(entry)@, symbol@, ev@, c3_ts),
        r@ == change_of(final(entry)@, ev.ts, Some(validation_of(symbol@, ev@))),
{
    proof {
        reveal(leg_validated);
    }
    let ghost before = entry@;
    entry.ltf_events.push(ev.clone());
    assert(entry.ltf_events.deep_view() =~= before.ltf_events.push(ev@));
    let validation = SymbolValidation {
        event_id: ev.id.clone(),
        symbol: owned(symbol),
        kind: ev.kind,
        direction: ev.direction,
        ts: ev.ts,
        price: ev.price,
    };
    insert_validation(&mut entry.candidate.validations, validation.clone());
    entry.candidate.setup_status = SetupStatus::Validated;
    let earliest: bool = match entry.candidate.validation_ts {
        Some(ts) => ev.ts < ts,
        None => true,
    };
    if earliest {
        entry.candidate.validated_at = Some(ev.ts);
        entry.candidate.validation_kind = Some(ev.kind);
        entry.candidate.validation_symbol = Some(owned(symbol));
        entry.candidate.validation_ts = Some(ev.ts);
        entry.candidate.validation_direction = Some(ev.direction);
    }
    let in_c3: bool = match c3_ts {
        Some(ts) => ev.ts >= ts,
        None => false,
    };
    if in_c3 {
        entry.candidate.c3_cisd_event_ids.push(ev.id.clone());
        assert(entry.candidate.c3_cisd_event_ids.deep_view()
            =~= before.candidate.c3_cisd_event_ids.push(ev.id@));
    } else {
        entry.candidate.c2_cisd_event_ids.push(ev.id.clone());
        assert(entry.candidate.c2_cisd_event_ids.deep_view()
            =~= before.candidate.c2_cisd_event_ids.push(ev.id@));
    }
    rescore(entry);
    make_change(entry, ev.ts, Some(validation))
}

/// The instrument has a validation.
pub open spec fn validated_for(c: CandidateModel, symbol: Seq<char>) -> bool {
    exists|i: int| 0 <= i < c.validations.len() && (#[trigger] c.validations[i]).symbol == symbol
}

/// The instrument was validated or its leg has ended.
pub open spec fn resolved(c: CandidateModel, symbol: Seq<char>) -> bool {
    validated_for(c, symbol) || c.invalidated_symbols.contains(symbol)
}

fn has_validation(list: &Vec<SymbolValidation>, symbol: &str) -> (r: bool)
    ensures
        r == exists|i: int|
            0 <= i < list.deep_view().len() && (#[trigger] list.deep_view()[i]).symbol == symbol@,
{
    let mut i: usize = 0;
    while i < list.len()
        invariant
            i <= list.len(),
            forall|k: int| 0 <= k < i ==> (#[trigger] list.deep_view()[k]).symbol != symbol@,
        decreases list.len() - i,
    {
        assert(list.deep_view()[i as int] == list@[i as int]@);
        if text_eq(list[i].symbol.as_str(), symbol) {
            return true;
        }
        i += 1;
    }
    false
}

/// Whether an instrument of the candidate was validated or has ended.
pub fn is_resolved(c: &CandidateSetup, symbol: &str) -> (r: bool)
    ensures
        r == resolved(c@, symbol@),
{
    has_validation(&c.validations, symbol) || list_has(&c.invalidated_symbols, symbol)
}

/// The event was collected before.
pub open spec fn seen(c: CandidateModel, id: Seq<char>) -> bool {
    c.c2_cisd_event_ids.contains(id) || c.c3_cisd_event_ids.contains(id)
}

/// Whether the event was collected before.
pub fn is_seen(c: &CandidateSetup, id: &str) -> (r: bool)
    ensures
        r == seen(c@, id@),
{
    list_has(&c.c2_cisd_event_ids, id) || list_has(&c.c3_cisd_event_ids, id)
}

/// A close beyond the extreme of the instrument's second candle, or of the
/// candidate's where the instrument has none.
#[verifier::opaque]
pub open spec fn breaks_c2(e: EntryModel, symbol: Seq<char>, dir: Direction, close: i64) -> bool {
    let c2 = match first_chain(e.smt_snapshot.chains, symbol) {
        Some(chain) => match chain.c2_candle {
            Some(c) => c,
            None => e.candidate.c2_candle,
        },
        None => e.candidate.c2_candle,
    };
    match dir {
        Direction::Bullish => close < c2.low,
        Direction::Bearish => close > c2.high,
    }
}

/// Whether a close breaks the second candle of an instrument.
pub fn is_c2_break(entry: &CandidateEntry, symbol: &str, dir: Direction, close: i64) -> (r: bool)
    ensures
        r == breaks_c2(entry@, symbol@, dir, close),
{
    proof {
        reveal(breaks_c2);
    }
    let c2 = match find_chain(&entry.smt_snapshot.chains, symbol) {
        Some(chain) => match chain.c2_candle {
            Some(c) => c,
            None => entry.candidate.c2_candle,
        },
        None => entry.candidate.c2_candle,
    };
    match dir {
        Direction::Bullish => close < c2.low,
        Direction::Bearish => close > c2.high,
    }
}

/// The candidate still waits for validation or its deadline.
pub open spec fn is_active(c: CandidateModel) -> bool {
    c.setup_status is C2Confirmed || c.setup_status is Validated
}

/// Whether the candidate is active.
pub fn active(c: &CandidateSetup) -> (r: bool)
    ensures
        r == is_active(c@),
{
    matches!(c.setup_status, SetupStatus::C2Confirmed | SetupStatus::Validated)
}

/// A reversal inside the window closed before the current bar and was not
/// collected yet.
pub open spec fn earlier_event(
    c: CandidateModel,
    events: Seq<LtfEventModel>,
    from: i64,
    bar_ts: i64,
    end: i64,
) -> bool {
    exists|i: int|
        0 <= i < events.len() && from <= (#[trigger] events[i]).ts < bar_ts && events[i].ts < end
            && !seen(c, events[i].id)
}

fn has_earlier_event(c: &CandidateSetup, events: &[LtfEventRef], from: i64, bar_ts: i64, end: i64) -> (r:
    bool)
    ensures
        r == earlier_event(c@, events.deep_view(), from, bar_ts, end),
{
    let mut i: usize = 0;
    while i < events.len()
        invariant
            i <= events.len(),
            forall|k: int|
                0 <= k < i ==> !(from <= (#[trigger] events.deep_view()[k]).ts < bar_ts
                    && events.deep_view()[k].ts < end && !seen(c@, events.deep_view()[k].id)),
        decreases events.len() - i,
    {
        assert(events.deep_view()[i as int] == events@[i as int]@);
        let ts: i64 = events[i].ts;
        if from <= ts && ts < bar_ts && ts < end && !is_seen(c, events[i].id.as_str()) {
            return true;
        }
        i += 1;
    }
    false
}

/// The event decides about the instrument: inside the window, not after the
/// current bar, and not a repetition of a collected confirmation.
pub open spec fn decides(
    c: CandidateModel,
    ev: LtfEventModel,
    from: i64,
    bar_ts: i64,
    end: i64,
    dir: Direction,
) -> bool {
    from <= ev.ts <= bar_ts && ev.ts < end && !(ev.direction == dir && seen(c, ev.id))
}

/// First event that decides.
pub open spec fn first_deciding(
    c: CandidateModel,
    events: Seq<LtfEventModel>,
    from: i64,
    bar_ts: i64,
    end: i64,
    dir: Direction,
) -> Option<LtfEventModel>
    decreases events.len(),
{
    if events.len() == 0 {
        None
    } else if decides(c, events[0], from, bar_ts, end, dir) {
        Some(events[0])
    } else {
        first_deciding(c, events.drop_first(), from, bar_ts, end, dir)
    }
}

fn find_deciding(
    c: &CandidateSetup,
    events: &[LtfEventRef],
    from: i64,
    bar_ts: i64,
    end: i64,
    dir: Direction,
) -> (r: Option<usize>)
    ensures
        r matches Some(i) ==> i < events.len() && first_deciding(
            c@,
            events.deep_view(),
            from,
            bar_ts,
            end,
            dir,
        ) == Some(events@[i as int]@),
        r is None ==> first_deciding(c@, events.deep_view(), from, bar_ts, end, dir) is None,
{
    let mut i: usize = 0;
    assert(events.deep_view().skip(0) =~= events.deep_view());
    while i < events.len()
        invariant
            i <= events.len(),
            first_deciding(c@, events.deep_view(), from, bar_ts, end, dir) == first_deciding(
                c@,
                events.deep_view().skip(i as int),
                from,
                bar_ts,
                end,
                dir,
            ),
        decreases events.len() - i,
    {
        assert(events.deep_view().skip(i as int)[0] == events@[i as int]@);
        let ev = &events[i];
        let known: bool = ev.direction == dir && is_seen(c, ev.id.as_str());
        if from <= ev.ts && ev.ts <= bar_ts && ev.ts < end && !known {
            return Some(i);
        }
        assert(events.deep_view().skip(i as int).drop_first() =~= events.deep_view().skip(i + 1));
        i += 1;
    }
    None
}

/// An entry with the changes that led to it.
pub struct Outcome {
    pub entry: EntryModel,
    pub changes: Seq<ChangeModel>,
}

/// An entry that nothing happened to.
pub open spec fn untouched(e: EntryModel) -> Outcome {
    Outcome { entry: e, changes: Seq::empty() }
}

/// An entry after one change.
pub open spec fn changed(e: EntryModel, ts: i64, validation: Option<ValidationModel>) -> Outcome {
    Outcome { entry: e, changes: seq![change_of(e, ts, validation)] }
}

/// An entry after the first event that decides about an instrument.
pub open spec fn event_applied(
    e: EntryModel,
    symbol: Seq<char>,
    ev: LtfEventModel,
    dir: Direction,
    c3_ts: Option<i64>,
) -> Outcome {
    if ev.direction == dir {
        changed(
            leg_validated(e, symbol, ev, c3_ts),
            ev.ts,
            Some(validation_of(symbol, ev)),
        )
    } else {
        changed(leg_broken(e, symbol, ExpiryReason::Reverse, ev.ts), ev.ts, None)
    }
}

/// Direction that a reversal of the instrument needs for this entry.
pub open spec fn entry_dir(e: EntryModel, symbol: Seq<char>) -> Direction {
    effective_dir(
        e.candidate.candidate_direction,
        symbol,
        e.candidate.sweeper_symbol,
        e.smt_snapshot.relationship,
    )
}

/// An active entry after a five-minute close of one of its instruments. A
/// resolved instrument stays as it is. A close beyond the second candle ends
/// the leg, unless an earlier reversal is still to be counted; otherwise the
/// first deciding reversal validates or ends it.
pub open spec fn bar_outcome(
    e: EntryModel,
    symbol: Seq<char>,
    bar: BarModel,
    events: Seq<LtfEventModel>,
) -> Outcome {
    match validation_window(e.smt_snapshot, symbol) {
        None => untouched(e),
        Some(w) => {
            let dir = entry_dir(e, symbol);
            if resolved(e.candidate, symbol) {
                untouched(e)
            } else if !earlier_event(e.candidate, events, w.0, bar.ts, w.2) && breaks_c2(
                e,
                symbol,
                dir,
                bar.close,
            ) {
                changed(leg_broken(e, symbol, ExpiryReason::C2Break, bar.ts), bar.ts, None)
            } else {
                match first_deciding(e.candidate, events, w.0, bar.ts, w.2, dir) {
                    None => untouched(e),
                    Some(ev) => event_applied(e, symbol, ev, dir, w.1),
                }
            }
        },
    }
}

/// Applies a five-minute close to an active entry.
pub fn apply_bar(
    entry: &mut CandidateEntry,
    symbol: &str,
    bar: &Bar,
    events: &[LtfEventRef],
    changes: &mut Vec<CandidateChange>,
)
    ensures
        final(entry)@ == bar_outcome(old(entry)@, symbol@, bar@, events.deep_view()).entry,
        final(changes).deep_view() == old(changes).deep_view() + bar_outcome(
            old(entry)@,
            symbol@,
            bar@,
            events.deep_view(),
        ).changes,
{
    let ghost before = changes.deep_view();
    let ghost e0 = entry@;
    let window = match symbol_validation_window(&entry.smt_snapshot, symbol) {
        Some(w) => w,
        None => {
            assert(changes.deep_view() =~= before + Seq::<ChangeModel>::empty());
            return;
        },
    };
    if is_resolved(&entry.candidate, symbol) {
        assert(changes.deep_view() =~= before + Seq::<ChangeModel>::empty());
        return;
    }
    let dir: Direction = effective_ltf_dir(
        entry.candidate.candidate_direction,
        symbol,
        entry.candidate.sweeper_symbol.as_str(),
        entry.smt_snapshot.relationship,
    );
    if !has_earlier_event(&entry.candidate, events, window.0, bar.ts, window.2) && is_c2_break(
        entry,
        symbol,
        dir,
        bar.close,
    ) {
        let change = break_leg(entry, symbol, ExpiryReason::C2Break, bar.ts);
        changes.push(change);
        assert(changes.deep_view() =~= before + seq![change@]);
        return;
    }
    match find_deciding(&entry.candidate, events, window.0, bar.ts, window.2, dir) {
        None => {
            assert(changes.deep_view() =~= before + Seq::<ChangeModel>::empty());
        },
        Some(i) => {
            apply_event(entry, symbol, &events[i], dir, window.1, changes);
        },
    }
}

/// Applies a deciding event to an entry.
pub fn apply_event(
    entry: &mut CandidateEntry,
    symbol: &str,
    ev: &LtfEventRef,
    dir: Direction,
    c3_ts: Option<i64>,
    changes: &mut Vec<CandidateChange>,
)
    ensures
        final(entry)@ == event_applied(old(entry)@, symbol@, ev@, dir, c3_ts).entry,
        final(changes).deep_view() == old(changes).deep_view() + event_applied(
            old(entry)@,
            symbol@,
            ev@,
            dir,
            c3_ts,
        ).changes,
{
    let ghost before = changes.deep_view();
    let change = if ev.direction == dir {
        validate_leg(entry, symbol, ev, c3_ts)
    } else {
        break_leg(entry, symbol, ExpiryReason::Reverse, ev.ts)
    };
    changes.push(change);
    assert(changes.deep_view() =~= before + seq![change@]);
}

/// The deadline of an active candidate has passed.
pub open spec fn overdue(c: CandidateModel, now: i64) -> bool {
    is_active(c) && (c.expiry_at matches Some(at) && now >= at)
}

/// An entry at a time: an overdue candidate expires where it was validated and
/// goes to manual review where it was not.
pub open spec fn deadline_outcome(e: EntryModel, now: i64) -> Outcome {
    if overdue(e.candidate, now) {
        let at = e.candidate.expiry_at->0;
        let after = CandidateModel {
            setup_status: if e.candidate.setup_status is Validated {
                SetupStatus::Expired
            } else {
                SetupStatus::ReCheck
            },
            expiry_reason: Some(ExpiryReason::Ttl),
            expired_at: Some(at),
            ..e.candidate
        };
        changed(rescored(EntryModel { candidate: after, ..e }), at, None)
    } else {
        untouched(e)
    }
}

/// Expires an entry whose deadline has passed.
pub fn apply_deadline(entry: &mut CandidateEntry, now_ms: i64, changes: &mut Vec<CandidateChange>)
    ensures
        final(entry)@ == deadline_outcome(old(entry)@, now_ms).entry,
        final(changes).deep_view() == old(changes).deep_view() + deadline_outcome(
            old(entry)@,
            now_ms,
        ).changes,
{
    let ghost before = changes.deep_view();
    let at: i64 = match entry.candidate.expiry_at {
        Some(at) => at,
        None => {
            assert(changes.deep_view() =~= before + Seq::<ChangeModel>::empty());
            return;
        },
    };
    if !active(&entry.candidate) || now_ms < at {
        assert(changes.deep_view() =~= before + Seq::<ChangeModel>::empty());
        return;
    }
    let validated: bool = matches!(entry.candidate.setup_status, SetupStatus::Validated);
    entry.candidate.setup_status = if validated {
        SetupStatus::Expired
    } else {
        SetupStatus::ReCheck
    };
    entry.candidate.expiry_reason = Some(ExpiryReason::Ttl);
    entry.candidate.expired_at = Some(at);
    rescore(entry);
    let change = make_change(entry, at, None);
    changes.push(change);
    assert(changes.deep_view() =~= before + seq![change@]);
}

/// Deadline: a number of comparison candles after the third one opened.
pub open spec fn deadline(c: CandidateModel, c3_ts: int, bars: int) -> int {
    c3_ts + bars * duration(c.comparison_timeframe)
}

/// An entry after its divergence reported a third candle. A repeated report of
/// the same third candle only refreshes the divergence.
pub open spec fn c3_outcome(e: EntryModel, smt: SmtModel, bars: int) -> Outcome {
    match sweeper_chain_of(smt) {
        None => untouched(e),
        Some(chain) => match chain.c3_candle {
            None => untouched(e),
            Some(c3) => {
                let known = match e.candidate.c3_candle {
                    Some(c) => c.ts == c3.ts,
                    None => false,
                };
                if known {
                    untouched(EntryModel { smt_snapshot: smt, ..e })
                } else {
                    let after = CandidateModel {
                        c3_candle: Some(c3),
                        expiry_at: Some(deadline(e.candidate, c3.ts as int, bars) as i64),
                        ..e.candidate
                    };
                    changed(
                        rescored(EntryModel { candidate: after, smt_snapshot: smt, ..e }),
                        c3.ts,
                        None,
                    )
                }
            },
        },
    }
}

/// The deadline that a third candle of this divergence sets on the comparison
/// timeframe fits the clock.
pub open spec fn deadline_fits(smt: SmtModel, tf: Timeframe, bars: int) -> bool {
    sweeper_chain_of(smt) matches Some(chain) ==> (chain.c3_candle matches Some(c3) ==> bars
        * duration(tf) <= i64::MAX && c3.ts + bars * duration(tf) <= i64::MAX)
}

/// Whether [`deadline_fits`] holds.
pub fn is_deadline_fit(smt: &SmtDivergence, tf: Timeframe, bars: usize) -> (r: bool)
    ensures
        r == deadline_fits(smt@, tf, bars as int),
{
    match sweeper_chain(smt) {
        Some(chain) => match chain.c3_candle {
            Some(c3) => {
                let dur: i64 = tf.duration_ms();
                proof {
                    assert(0 <= bars * dur <= 0xffff_ffff_ffff_ffff * 0x7fff_ffff_ffff_ffff)
                        by (nonlinear_arith)
                        requires
                            0 <= bars <= 0xffff_ffff_ffff_ffff,
                            0 <= dur <= 0x7fff_ffff_ffff_ffff,
                    ;
                }
                let span: i128 = bars as i128 * dur as i128;
                span <= i64::MAX as i128 && c3.ts as i128 + span <= i64::MAX as i128
            },
            None => true,
        },
        None => true,
    }
}

/// Applies a third candle to an entry.
pub fn apply_c3(
    entry: &mut CandidateEntry,
    smt: &SmtDivergence,
    bars: usize,
    changes: &mut Vec<CandidateChange>,
)
    requires
        deadline_fits(smt@, old(entry)@.candidate.comparison_timeframe, bars as int),
    ensures
        final(entry)@ == c3_outcome(old(entry)@, smt@, bars as int).entry,
        final(changes).deep_view() == old(changes).deep_view() + c3_outcome(
            old(entry)@,
            smt@,
            bars as int,
        ).changes,
{
    let ghost before = changes.deep_view();
    let chain = match sweeper_chain(smt) {
        Some(c) => c,
        None => {
            assert(changes.deep_view() =~= before + Seq::<ChangeModel>::empty());
            return;
        },
    };
    let c3 = match chain.c3_candle {
        Some(c) => c,
        None => {
            assert(changes.deep_view() =~= before + Seq::<ChangeModel>::empty());
            return;
        },
    };
    let known: bool = match entry.candidate.c3_candle {
        Some(c) => c.ts == c3.ts,
        None => false,
    };
    entry.smt_snapshot = smt.clone();
    if known {
        assert(changes.deep_view() =~= before + Seq::<ChangeModel>::empty());
        return;
    }
    entry.candidate.c3_candle = Some(c3);
    let dur: i64 = entry.candidate.comparison_timeframe.duration_ms();
    assert(bars <= bars * dur) by (nonlinear_arith)
        requires
            0 < dur,
            bars >= 0,
    ;
    let span: i64 = bars as i64 * dur;
    entry.candidate.expiry_at = Some(c3.ts + span);
    rescore(entry);
    let change = make_change(entry, c3.ts, None);
    changes.push(change);
    assert(changes.deep_view() =~= before + seq![change@]);
}

/// A candidate after every leg in a list ended for one reason.
pub open spec fn legs_ended(c: CandidateModel, symbols: Seq<Seq<char>>, reason: ExpiryReason) -> CandidateModel
    decreases symbols.len(),
{
    if symbols.len() == 0 {
        c
    } else {
        leg_ended(legs_ended(c, symbols.drop_last(), reason), symbols.last(), reason)
    }
}

/// An entry after its divergence ended. A candidate that was invalidated, has
/// expired or is kept for manual review stays as it is.
pub open spec fn smt_ended_outcome(e: EntryModel, latest: Option<SmtModel>, ts: i64) -> Outcome {
    if e.candidate.setup_status is Invalidated || e.candidate.setup_status is Expired
        || e.candidate.setup_status is ReCheck {
        untouched(e)
    } else {
        let ended = CandidateModel {
            setup_status: SetupStatus::Invalidated,
            expiry_reason: Some(ExpiryReason::SmtInvalidated),
            invalidated_at: Some(ts),
            ..e.candidate
        };
        let after = EntryModel {
            candidate: legs_ended(ended, ended.trade_symbols, ExpiryReason::SmtInvalidated),
            smt_snapshot: match latest {
                Some(smt) => smt,
                None => e.smt_snapshot,
            },
            ..e
        };
        changed(rescored(after), ts, None)
    }
}

/// Ends an entry with its divergence.
pub fn apply_smt_end(
    entry: &mut CandidateEntry,
    latest: Option<&SmtDivergence>,
    ts: i64,
    changes: &mut Vec<CandidateChange>,
)
    ensures
        final(entry)@ == smt_ended_outcome(old(entry)@, latest.deep_view(), ts).entry,
        final(changes).deep_view() == old(changes).deep_view() + smt_ended_outcome(
            old(entry)@,
            latest.deep_view(),
            ts,
        ).changes,
{
    let ghost before = changes.deep_view();
    if matches!(
        entry.candidate.setup_status,
        SetupStatus::Invalidated | SetupStatus::Expired | SetupStatus::ReCheck
    ) {
        assert(changes.deep_view() =~= before + Seq::<ChangeModel>::empty());
        return;
    }
    entry.candidate.setup_status = SetupStatus::Invalidated;
    entry.candidate.expiry_reason = Some(ExpiryReason::SmtInvalidated);
    entry.candidate.invalidated_at = Some(ts);
    let ghost ended = entry@.candidate;
    let ghost rest = entry@;
    let legs = entry.candidate.trade_symbols.clone();
    assert(legs.deep_view() =~= ended.trade_symbols);
    let mut i: usize = 0;
    assert(legs.deep_view().take(0) =~= Seq::<Seq<char>>::empty());
    while i < legs.len()
        invariant
            i <= legs.len(),
            entry@ == (EntryModel {
                candidate: legs_ended(
                    ended,
                    legs.deep_view().take(i as int),
                    ExpiryReason::SmtInvalidated,
                ),
                ..rest
            }),
        decreases legs.len() - i,
    {
        entry.candidate.invalidate_symbol(legs[i].as_str(), ExpiryReason::SmtInvalidated);
        proof {
            let now = legs.deep_view().take(i + 1);
            assert(now.drop_last() =~= legs.deep_view().take(i as int));
            assert(now.last() == legs@[i as int]@);
        }
        i += 1;
    }
    assert(legs.deep_view().take(i as int) =~= legs.deep_view());
    match latest {
        Some(smt) => {
            entry.smt_snapshot = smt.clone();
        },
        None => {},
    }
    rescore(entry);
    let change = make_change(entry, ts, None);
    changes.push(change);
    assert(changes.deep_view() =~= before + seq![change@]);
}

impl EntryModel {
    /// Validations are in order and at most one per instrument, and the sweeper
    /// is never executable.
    pub open spec fn wf(self) -> bool {
        &&& in_order(self.candidate.validations)
        &&& forall|i: int, j: int|
            0 <= i < j < self.candidate.validations.len() ==> (
            #[trigger] self.candidate.validations[i]).symbol != (
            #[trigger] self.candidate.validations[j]).symbol
        &&& !self.candidate.trade_symbols.contains(self.candidate.sweeper_symbol)
    }
}

proof fn lemma_distinct_after_insert(list: Seq<ValidationModel>, v: ValidationModel)
    requires
        forall|i: int, j: int|
            0 <= i < j < list.len() ==> (#[trigger] list[i]).symbol != (#[trigger] list[j]).symbol,
        forall|i: int| 0 <= i < list.len() ==> (#[trigger] list[i]).symbol != v.symbol,
    ensures
        forall|i: int, j: int|
            0 <= i < j < validation_inserted(list, v).len() ==> (#[trigger] validation_inserted(
                list,
                v,
            )[i]).symbol != (#[trigger] validation_inserted(list, v)[j]).symbol,
        forall|i: int|
            0 <= i < validation_inserted(list, v).len() ==> (#[trigger] validation_inserted(
                list,
                v,
            )[i]).symbol == v.symbol || exists|k: int|
                0 <= k < list.len() && (#[trigger] list[k]).symbol == validation_inserted(
                    list,
                    v,
                )[i].symbol,
    decreases list.len(),
{
    let after = validation_inserted(list, v);
    if list.len() > 0 && validation_before(v, list.last()) {
        let rest = list.drop_last();
        let inner = validation_inserted(rest, v);
        lemma_distinct_after_insert(rest, v);
        assert forall|i: int| 0 <= i < inner.len() implies (#[trigger] inner[i]).symbol
            != list.last().symbol by {
            if inner[i].symbol != v.symbol {
                let k = choose|k: int|
                    0 <= k < rest.len() && (#[trigger] rest[k]).symbol == inner[i].symbol;
                assert(list[k] == rest[k]);
                assert(list[list.len() - 1].symbol != list[k].symbol);
            }
        }
        assert forall|i: int| 0 <= i < after.len() implies (#[trigger] after[i]).symbol == v.symbol
            || exists|k: int|
            0 <= k < list.len() && (#[trigger] list[k]).symbol == after[i].symbol by {
            if i < inner.len() {
                assert(after[i] == inner[i]);
                if inner[i].symbol != v.symbol {
                    let k = choose|k: int|
                        0 <= k < rest.len() && (#[trigger] rest[k]).symbol == inner[i].symbol;
                    assert(list[k] == rest[k]);
                }
            } else {
                assert(list[list.len() - 1] == after[i]);
            }
        }
        assert forall|i: int, j: int| 0 <= i < j < after.len() implies (#[trigger] after[i]).symbol
            != (#[trigger] after[j]).symbol by {
            assert(after[i] == inner[i]);
            if j < inner.len() {
                assert(after[j] == inner[j]);
            }
        }
    } else {
        assert forall|i: int| 0 <= i < after.len() implies (#[trigger] after[i]).symbol == v.symbol
            || exists|k: int|
            0 <= k < list.len() && (#[trigger] list[k]).symbol == after[i].symbol by {
            if i < list.len() {
                assert(list[i] == after[i]);
            }
        }
        assert forall|i: int, j: int| 0 <= i < j < after.len() implies (#[trigger] after[i]).symbol
            != (#[trigger] after[j]).symbol by {
            assert(after[i] == list[i]);
            if j < list.len() {
                assert(after[j] == list[j]);
            }
        }
    }
}

pub proof fn lemma_event_keeps_wf(
    e: EntryModel,
    symbol: Seq<char>,
    ev: LtfEventModel,
    dir: Direction,
    c3_ts: Option<i64>,
)
    requires
        e.wf(),
        !validated_for(e.candidate, symbol),
    ensures
        event_applied(e, symbol, ev, dir, c3_ts).entry.wf(),
{
    reveal(leg_broken);
    reveal(leg_validated);
    let v = validation_of(symbol, ev);
    law_validations_stay_in_order(e.candidate.validations, v);
    assert forall|i: int| 0 <= i < e.candidate.validations.len() implies (
    #[trigger] e.candidate.validations[i]).symbol != v.symbol by {
    }
    lemma_distinct_after_insert(e.candidate.validations, v);
}

pub proof fn lemma_break_keeps_wf(e: EntryModel, symbol: Seq<char>, reason: ExpiryReason, ts: i64)
    requires
        e.wf(),
    ensures
        leg_broken(e, symbol, reason, ts).wf(),
{
    reveal(leg_broken);
}

proof fn lemma_legs_ended_frame(c: CandidateModel, symbols: Seq<Seq<char>>, reason: ExpiryReason)
    ensures
        legs_ended(c, symbols, reason).validations == c.validations,
        legs_ended(c, symbols, reason).trade_symbols == c.trade_symbols,
        legs_ended(c, symbols, reason).sweeper_symbol == c.sweeper_symbol,
        legs_ended(c, symbols, reason).smt_id == c.smt_id,
        legs_ended(c, symbols, reason).setup_status == c.setup_status,
        legs_ended(c, symbols, reason).expiry_reason == c.expiry_reason,
        legs_ended(c, symbols, reason).invalidated_at == c.invalidated_at,
    decreases symbols.len(),
{
    if symbols.len() > 0 {
        lemma_legs_ended_frame(c, symbols.drop_last(), reason);
    }
}

/// Every transition keeps the invariant and the divergence of an entry.
pub proof fn law_transitions_keep_wf(
    e: EntryModel,
    symbol: Seq<char>,
    bar: BarModel,
    events: Seq<LtfEventModel>,
    smt: SmtModel,
    bars: int,
    latest: Option<SmtModel>,
    ts: i64,
)
    requires
        e.wf(),
    ensures
        bar_outcome(e, symbol, bar, events).entry.wf(),
        bar_outcome(e, symbol, bar, events).entry.candidate.smt_id == e.candidate.smt_id,
        deadline_outcome(e, ts).entry.wf(),
        deadline_outcome(e, ts).entry.candidate.smt_id == e.candidate.smt_id,
        c3_outcome(e, smt, bars).entry.wf(),
        c3_outcome(e, smt, bars).entry.candidate.smt_id == e.candidate.smt_id,
        smt_ended_outcome(e, latest, ts).entry.wf(),
        smt_ended_outcome(e, latest, ts).entry.candidate.smt_id == e.candidate.smt_id,
{
    match validation_window(e.smt_snapshot, symbol) {
        None => {},
        Some(w) => {
            let dir = entry_dir(e, symbol);
            lemma_break_keeps_wf(e, symbol, ExpiryReason::C2Break, bar.ts);
            match first_deciding(e.candidate, events, w.0, bar.ts, w.2, dir) {
                None => {},
                Some(ev) => {
                    if !validated_for(e.candidate, symbol) {
                        lemma_event_keeps_wf(e, symbol, ev, dir, w.1);
                    }
                },
            }
            reveal(leg_broken);
            reveal(leg_validated);
        },
    }
    let ended = CandidateModel {
        setup_status: SetupStatus::Invalidated,
        expiry_reason: Some(ExpiryReason::SmtInvalidated),
        invalidated_at: Some(ts),
        ..e.candidate
    };
    lemma_legs_ended_frame(ended, ended.trade_symbols, ExpiryReason::SmtInvalidated);
}

} // verus!
