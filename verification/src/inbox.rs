//! What the inboxes list: confirmed alerts with their current lifecycle,
//! recorded reversals and candidates, each traceable to its divergence.
use vstd::prelude::*;
use crate::alert::records::first_validation;
use crate::alert::types::{AlertModel, AlertRecord, AlertTrigger};
use crate::candidate::lifecycle::{invalidation_reason, reason_of};
use crate::candidate::rules::{find_chain, first_chain};
use crate::candidate::types::{
    CandidateModel, CandidateSetup, ExpiryReason, SetupStatus, SymbolValidation, ValidationModel,
};
use crate::detector::{SmtDetectionState, SmtDivergence, SmtModel, SymbolChain, SymbolChainModel};
use crate::smt::public::{
    episode_key, find_last_smt, is_public, last_smt, public_smt_attempt, smt_episode_key, state_of,
    sweeper_state,
};
use crate::sorting::{sorted_by, stable_sort};
use crate::text::{list_has, text_before, text_eq, text_lt};

verus! {

/// An absent name comes before any name.
pub open spec fn name_before(a: Option<Seq<char>>, b: Option<Seq<char>>) -> bool {
    match (a, b) {
        (None, Some(_)) => true,
        (Some(x), Some(y)) => text_before(x, y),
        _ => false,
    }
}

fn is_name_before(a: &Option<String>, b: &Option<String>) -> (r: bool)
    ensures
        r == name_before(a.deep_view(), b.deep_view()),
{
    match (a, b) {
        (None, Some(_)) => true,
        (Some(x), Some(y)) => text_lt(x.as_str(), y.as_str()),
        _ => false,
    }
}

fn same_name(a: &Option<String>, b: &Option<String>) -> (r: bool)
    ensures
        r == (a.deep_view() == b.deep_view()),
{
    match (a, b) {
        (None, None) => true,
        (Some(x), Some(y)) => text_eq(x.as_str(), y.as_str()),
        _ => false,
    }
}

/// One record is listed before another: the newest first, then by group, by
/// instrument and by identity.
pub open spec fn listed_before(a: AlertModel, b: AlertModel) -> bool {
    ||| a.created_at > b.created_at
    ||| a.created_at == b.created_at && text_before(a.watchlist_id, b.watchlist_id)
    ||| a.created_at == b.created_at && a.watchlist_id == b.watchlist_id && name_before(
        a.validation_symbol,
        b.validation_symbol,
    )
    ||| a.created_at == b.created_at && a.watchlist_id == b.watchlist_id && a.validation_symbol
        == b.validation_symbol && text_before(a.id, b.id)
}

fn is_listed_before(a: &AlertRecord, b: &AlertRecord) -> (r: bool)
    ensures
        r == listed_before(a@, b@),
{
    if a.created_at != b.created_at {
        return a.created_at > b.created_at;
    }
    if text_lt(a.watchlist_id.as_str(), b.watchlist_id.as_str()) {
        return true;
    }
    if !text_eq(a.watchlist_id.as_str(), b.watchlist_id.as_str()) {
        return false;
    }
    if is_name_before(&a.validation_symbol, &b.validation_symbol) {
        return true;
    }
    same_name(&a.validation_symbol, &b.validation_symbol) && text_lt(a.id.as_str(), b.id.as_str())
}

/// The order of records in a list.
pub open spec fn record_order() -> spec_fn(AlertModel, AlertModel) -> bool {
    |a: AlertModel, b: AlertModel| listed_before(a, b)
}

/// Sorts records for a list.
pub fn sort_alert_records_stably(records: Vec<AlertRecord>) -> (r: Vec<AlertRecord>)
    ensures
        r.deep_view() == sorted_by(records.deep_view(), record_order()),
{
    let comes_before = |a: &AlertRecord, b: &AlertRecord| -> (r: bool)
        ensures
            r == listed_before(a@, b@),
        { is_listed_before(a, b) };
    stable_sort(records, comes_before, Ghost(record_order()))
}

/// The first records of a list, as many as a limit says; a negative limit
/// leaves none.
pub open spec fn limited(list: Seq<AlertModel>, limit: Option<i64>) -> Seq<AlertModel> {
    match limit {
        Some(n) => if n <= 0 {
            Seq::empty()
        } else if n < list.len() {
            list.take(n as int)
        } else {
            list
        },
        None => list,
    }
}

fn limit_records(records: Vec<AlertRecord>, limit: Option<i64>) -> (r: Vec<AlertRecord>)
    ensures
        r.deep_view() == limited(records.deep_view(), limit),
{
    let mut out = records;
    let ghost all = out.deep_view();
    match limit {
        Some(n) => {
            let keep: u64 = if n <= 0 {
                0
            } else {
                n as u64
            };
            while out.len() as u64 > keep
                invariant
                    out.len() <= all.len(),
                    out.deep_view() == all.take(out.len() as int),
                    out.len() >= keep || out.len() == all.len(),
                decreases out.len(),
            {
                let ghost before = out.deep_view();
                out.pop();
                assert(out.deep_view() =~= before.drop_last());
                assert(out.deep_view() =~= all.take(out.len() as int));
            }
            assert(out.deep_view() =~= limited(all, limit));
        },
        None => {},
    }
    out
}

/// Identity of the price area of a divergence.
pub open spec fn area_id(smt: SmtModel) -> Option<Seq<char>> {
    match smt.htf_pda_ref {
        Some(pda) => Some(pda.id),
        None => None,
    }
}

fn has_area(smt: &SmtDivergence, id: &Option<String>) -> (r: bool)
    ensures
        r == (id.deep_view() == area_id(smt@)),
{
    match (&smt.htf_pda_ref, id) {
        (None, None) => true,
        (Some(pda), Some(x)) => text_eq(pda.id.as_str(), x.as_str()),
        _ => false,
    }
}

/// A chain still has the second candle that fired an alert.
pub open spec fn keeps_c2(chain: Option<SymbolChainModel>, ts: i64) -> bool {
    match chain {
        Some(k) => match k.c2_candle {
            Some(c2) => c2.ts == ts,
            None => false,
        },
        None => false,
    }
}

/// An alert with the lifecycle that its candidate has now. What fired stays:
/// its second candle, its case and its first candle are never replaced. An
/// alert whose divergence ended or was revised counts as ended.
pub open spec fn projected(
    a: AlertModel,
    symbol: Seq<char>,
    c: CandidateModel,
    source: Option<SmtModel>,
) -> AlertModel {
    let chain = match source {
        Some(smt) => first_chain(smt.chains, symbol),
        None => None,
    };
    let kept = keeps_c2(chain, a.c2_candle_ts);
    let status = if c.invalidated_symbols.contains(symbol) {
        SetupStatus::Invalidated
    } else {
        c.setup_status
    };
    let own = reason_of(c.symbol_invalidation_reasons, symbol);
    let reason = if status is Invalidated && own is None && c.setup_status is Invalidated {
        c.expiry_reason
    } else {
        own
    };
    let revised = match source {
        Some(smt) => state_of(smt) is Invalidated || !kept || c.context_pda_id != area_id(smt),
        None => false,
    };
    let validation = first_validation(c.validations, symbol);
    AlertModel {
        c3_candle_ts: if kept && chain->0.c3_candle is Some {
            Some(chain->0.c3_candle->0.ts)
        } else {
            a.c3_candle_ts
        },
        setup_status: if revised {
            SetupStatus::Invalidated
        } else {
            status
        },
        invalidation_reason: if revised && reason is None {
            Some(ExpiryReason::SmtInvalidated)
        } else {
            reason
        },
        validation_kind: match validation {
            Some(v) => Some(v.kind),
            None => a.validation_kind,
        },
        validation_ts: match validation {
            Some(v) => Some(v.ts),
            None => a.validation_ts,
        },
        validation_direction: match validation {
            Some(v) => Some(v.direction),
            None => a.validation_direction,
        },
        ..a
    }
}

fn find_validation<'a>(list: &'a Vec<SymbolValidation>, symbol: &str) -> (r: Option<
    &'a SymbolValidation,
>)
    ensures
        r.deep_view() == first_validation(list.deep_view(), symbol@),
{
    let mut i: usize = 0;
    assert(list.deep_view().skip(0) =~= list.deep_view());
    while i < list.len()
        invariant
            i <= list.len(),
            first_validation(list.deep_view(), symbol@) == first_validation(
                list.deep_view().skip(i as int),
                symbol@,
            ),
        decreases list.len() - i,
    {
        assert(list.deep_view().skip(i as int)[0] == list@[i as int]@);
        if text_eq(list[i].symbol.as_str(), symbol) {
            return Some(&list[i]);
        }
        assert(list.deep_view().skip(i as int).drop_first() =~= list.deep_view().skip(i + 1));
        i += 1;
    }
    None
}

fn chain_keeps_c2(chain: Option<&SymbolChain>, ts: i64) -> (r: bool)
    ensures
        r == keeps_c2(chain.deep_view(), ts),
{
    match chain {
        Some(k) => match k.c2_candle {
            Some(c2) => c2.ts == ts,
            None => false,
        },
        None => false,
    }
}

/// Refreshes the lifecycle of one alert.
pub fn project_alert(
    alert: &AlertRecord,
    symbol: &str,
    candidate: &CandidateSetup,
    source: Option<&SmtDivergence>,
) -> (r: AlertRecord)
    ensures
        r@ == projected(alert@, symbol@, candidate@, source.deep_view()),
{
    let chain = match source {
        Some(smt) => find_chain(&smt.chains, symbol),
        None => None,
    };
    let kept = chain_keeps_c2(chain, alert.c2_candle_ts);
    let status = if list_has(&candidate.invalidated_symbols, symbol) {
        SetupStatus::Invalidated
    } else {
        candidate.setup_status
    };
    let own = invalidation_reason(&candidate.symbol_invalidation_reasons, symbol);
    let reason = if status == SetupStatus::Invalidated && own.is_none() && candidate.setup_status
        == SetupStatus::Invalidated {
        candidate.expiry_reason
    } else {
        own
    };
    let revised = match source {
        Some(smt) => sweeper_state(smt) == SmtDetectionState::Invalidated || !kept || !has_area(
            smt,
            &candidate.context_pda_id,
        ),
        None => false,
    };
    let mut out = alert.clone();
    if kept {
        match chain {
            Some(k) => match k.c3_candle {
                Some(c3) => {
                    out.c3_candle_ts = Some(c3.ts);
                },
                None => {},
            },
            None => {},
        }
    }
    out.setup_status = if revised {
        SetupStatus::Invalidated
    } else {
        status
    };
    out.invalidation_reason = if revised && reason.is_none() {
        Some(ExpiryReason::SmtInvalidated)
    } else {
        reason
    };
    match find_validation(&candidate.validations, symbol) {
        Some(v) => {
            out.validation_kind = Some(v.kind);
            out.validation_ts = Some(v.ts);
            out.validation_direction = Some(v.direction);
        },
        None => {},
    }
    out
}

/// Last candidate of the selected groups with an identity.
pub open spec fn candidate_with(
    candidates: Seq<CandidateModel>,
    selected: Seq<Seq<char>>,
    id: Seq<char>,
) -> Option<CandidateModel>
    decreases candidates.len(),
{
    if candidates.len() == 0 {
        None
    } else {
        let c = candidates.last();
        if c.id == id && selected.contains(c.watchlist_id) {
            Some(c)
        } else {
            candidate_with(candidates.drop_last(), selected, id)
        }
    }
}

fn find_candidate<'a>(candidates: &'a Vec<CandidateSetup>, selected: &Vec<String>, id: &str) -> (r:
    Option<&'a CandidateSetup>)
    ensures
        r.deep_view() == candidate_with(candidates.deep_view(), selected.deep_view(), id@),
{
    let mut i: usize = candidates.len();
    assert(candidates.deep_view().take(i as int) =~= candidates.deep_view());
    while i > 0
        invariant
            i <= candidates.len(),
            candidate_with(candidates.deep_view(), selected.deep_view(), id@) == candidate_with(
                candidates.deep_view().take(i as int),
                selected.deep_view(),
                id@,
            ),
        decreases i,
    {
        let ghost now = candidates.deep_view().take(i as int);
        i -= 1;
        proof {
            assert(now.last() == candidates@[i as int]@);
            assert(now.drop_last() =~= candidates.deep_view().take(i as int));
        }
        if text_eq(candidates[i].id.as_str(), id) && list_has(
            selected,
            candidates[i].watchlist_id.as_str(),
        ) {
            return Some(&candidates[i]);
        }
    }
    None
}

/// What is listed of one alert: only a confirmation of a known candidate.
pub open spec fn alert_row(
    a: AlertModel,
    candidates: Seq<CandidateModel>,
    selected: Seq<Seq<char>>,
    smts: Seq<SmtModel>,
) -> Option<AlertModel> {
    match (candidate_with(candidates, selected, a.candidate_id), a.validation_symbol) {
        (Some(c), Some(symbol)) => if a.trigger is C2Confirmed {
            Some(projected(a, symbol, c, last_smt(smts, a.smt_id)))
        } else {
            None
        },
        _ => None,
    }
}

/// The listed alerts: one row per record, so that a later attempt never hides
/// an earlier one.
pub open spec fn alert_rows(
    alerts: Seq<AlertModel>,
    candidates: Seq<CandidateModel>,
    selected: Seq<Seq<char>>,
    smts: Seq<SmtModel>,
) -> Seq<AlertModel>
    decreases alerts.len(),
{
    if alerts.len() == 0 {
        Seq::empty()
    } else {
        let rest = alert_rows(alerts.drop_last(), candidates, selected, smts);
        match alert_row(alerts.last(), candidates, selected, smts) {
            Some(row) => rest.push(row),
            None => rest,
        }
    }
}

/// Refreshes the lifecycle of all confirmations.
pub fn project_alert_history(
    alerts: &Vec<AlertRecord>,
    candidates: &Vec<CandidateSetup>,
    selected: &Vec<String>,
    smts: &Vec<SmtDivergence>,
) -> (r: Vec<AlertRecord>)
    ensures
        r.deep_view() == alert_rows(
            alerts.deep_view(),
            candidates.deep_view(),
            selected.deep_view(),
            smts.deep_view(),
        ),
{
    let mut out: Vec<AlertRecord> = Vec::new();
    let mut i: usize = 0;
    let ghost cs = candidates.deep_view();
    let ghost ids = selected.deep_view();
    let ghost ds = smts.deep_view();
    assert(out.deep_view() =~= Seq::<AlertModel>::empty());
    while i < alerts.len()
        invariant
            i <= alerts.len(),
            cs == candidates.deep_view(),
            ids == selected.deep_view(),
            ds == smts.deep_view(),
            out.deep_view() == alert_rows(alerts.deep_view().take(i as int), cs, ids, ds),
        decreases alerts.len() - i,
    {
        let ghost before = out.deep_view();
        let alert = &alerts[i];
        proof {
            let now = alerts.deep_view().take(i + 1);
            assert(now.drop_last() =~= alerts.deep_view().take(i as int));
            assert(now.last() == alert@);
        }
        if alert.trigger == AlertTrigger::C2Confirmed {
            let candidate = find_candidate(candidates, selected, alert.candidate_id.as_str());
            match (candidate, &alert.validation_symbol) {
                (Some(c), Some(symbol)) => {
                    let source = find_last_smt(smts, alert.smt_id.as_str());
                    let row = project_alert(alert, symbol.as_str(), c, source);
                    let ghost m = row@;
                    out.push(row);
                    assert(out.deep_view() =~= before.push(m));
                },
                _ => {},
            }
        }
        i += 1;
    }
    assert(alerts.deep_view().take(i as int) =~= alerts.deep_view());
    out
}

/// Lists the confirmed alerts of the selected groups.
pub fn list_alerts(
    alerts: &Vec<AlertRecord>,
    candidates: &Vec<CandidateSetup>,
    selected: &Vec<String>,
    smts: &Vec<SmtDivergence>,
    limit: Option<i64>,
) -> (r: Vec<AlertRecord>)
    ensures
        r.deep_view() == limited(
            sorted_by(
                alert_rows(
                    alerts.deep_view(),
                    candidates.deep_view(),
                    selected.deep_view(),
                    smts.deep_view(),
                ),
                record_order(),
            ),
            limit,
        ),
{
    let rows = project_alert_history(alerts, candidates, selected, smts);
    limit_records(sort_alert_records_stably(rows), limit)
}

/// A candidate belongs to its divergence: both name the same price area.
pub open spec fn traceable(c: CandidateModel, smts: Seq<SmtModel>) -> bool {
    c.context_pda_id is Some && match last_smt(smts, c.smt_id) {
        Some(smt) => area_id(smt) == c.context_pda_id,
        None => false,
    }
}

fn is_traceable(c: &CandidateSetup, smts: &Vec<SmtDivergence>) -> (r: bool)
    ensures
        r == traceable(c@, smts.deep_view()),
{
    if c.context_pda_id.is_none() {
        return false;
    }
    match find_last_smt(smts, c.smt_id.as_str()) {
        Some(smt) => has_area(smt, &c.context_pda_id),
        None => false,
    }
}

/// Last traceable candidate of the selected groups with an identity.
pub open spec fn traceable_with(
    candidates: Seq<CandidateModel>,
    selected: Seq<Seq<char>>,
    smts: Seq<SmtModel>,
    id: Seq<char>,
) -> Option<CandidateModel>
    decreases candidates.len(),
{
    if candidates.len() == 0 {
        None
    } else {
        let c = candidates.last();
        if c.id == id && selected.contains(c.watchlist_id) && traceable(c, smts) {
            Some(c)
        } else {
            traceable_with(candidates.drop_last(), selected, smts, id)
        }
    }
}

fn find_traceable<'a>(
    candidates: &'a Vec<CandidateSetup>,
    selected: &Vec<String>,
    smts: &Vec<SmtDivergence>,
    id: &str,
) -> (r: Option<&'a CandidateSetup>)
    ensures
        r.deep_view() == traceable_with(
            candidates.deep_view(),
            selected.deep_view(),
            smts.deep_view(),
            id@,
        ),
{
    let mut i: usize = candidates.len();
    assert(candidates.deep_view().take(i as int) =~= candidates.deep_view());
    while i > 0
        invariant
            i <= candidates.len(),
            traceable_with(candidates.deep_view(), selected.deep_view(), smts.deep_view(), id@)
                == traceable_with(
                candidates.deep_view().take(i as int),
                selected.deep_view(),
                smts.deep_view(),
                id@,
            ),
        decreases i,
    {
        let ghost now = candidates.deep_view().take(i as int);
        i -= 1;
        proof {
            assert(now.last() == candidates@[i as int]@);
            assert(now.drop_last() =~= candidates.deep_view().take(i as int));
        }
        if text_eq(candidates[i].id.as_str(), id) && list_has(
            selected,
            candidates[i].watchlist_id.as_str(),
        ) && is_traceable(&candidates[i], smts) {
            return Some(&candidates[i]);
        }
    }
    None
}

/// A validation is the one that a record tells of.
pub open spec fn same_reversal(v: ValidationModel, a: AlertModel) -> bool {
    a.validation_symbol == Some(v.symbol) && a.validation_ts == Some(v.ts) && a.validation_kind
        == Some(v.kind) && a.validation_direction == Some(v.direction)
}

/// A record tells of a reversal that its candidate still holds, in its list
/// of validations or, where that is empty, in its summary.
pub open spec fn genuine(a: AlertModel, c: CandidateModel) -> bool {
    &&& a.validation_symbol is Some && a.validation_ts is Some && a.validation_kind is Some
        && a.validation_direction is Some
    &&& {
        ||| exists|i: int| 0 <= i < c.validations.len() && same_reversal(
            #[trigger] c.validations[i],
            a,
        )
        ||| c.validations.len() == 0 && c.validation_symbol == a.validation_symbol
            && c.validation_ts == a.validation_ts && c.validation_kind == a.validation_kind
            && c.validation_direction == a.validation_direction
    }
}

/// Whether a record tells of a reversal that its candidate still holds.
pub fn is_genuine(a: &AlertRecord, c: &CandidateSetup) -> (r: bool)
    ensures
        r == genuine(a@, c@),
{
    match (&a.validation_symbol, a.validation_ts, a.validation_kind, a.validation_direction) {
        (Some(symbol), Some(ts), Some(kind), Some(direction)) => {
            let mut i: usize = 0;
            while i < c.validations.len()
                invariant
                    i <= c.validations.len(),
                    a@.validation_symbol == Some(symbol@),
                    a@.validation_ts == Some(ts),
                    a@.validation_kind == Some(kind),
                    a@.validation_direction == Some(direction),
                    forall|k: int|
                        0 <= k < i ==> !same_reversal(#[trigger] c@.validations[k], a@),
                decreases c.validations.len() - i,
            {
                let v = &c.validations[i];
                assert(c@.validations[i as int] == v@);
                if text_eq(v.symbol.as_str(), symbol.as_str()) && v.ts == ts && v.kind == kind
                    && v.direction == direction {
                    assert(same_reversal(c@.validations[i as int], a@));
                    return true;
                }
                i += 1;
            }
            if c.validations.len() > 0 {
                return false;
            }
            match (
                &c.validation_symbol,
                c.validation_ts,
                c.validation_kind,
                c.validation_direction,
            ) {
                (Some(x), Some(t), Some(k), Some(d)) => text_eq(x.as_str(), symbol.as_str()) && t
                    == ts && k == kind && d == direction,
                _ => false,
            }
        },
        _ => false,
    }
}

/// What is listed of a reversal record: its key, or nothing where it is not
/// listed.
pub open spec fn reversal_key(
    a: AlertModel,
    candidates: Seq<CandidateModel>,
    selected: Seq<Seq<char>>,
    smts: Seq<SmtModel>,
) -> Option<Seq<char>> {
    match (traceable_with(candidates, selected, smts, a.candidate_id), last_smt(smts, a.smt_id)) {
        (Some(c), Some(smt)) => if a.trigger is Validated && genuine(a, c) {
            Some(episode_key(smt) + "|"@ + a.validation_symbol->0)
        } else {
            None
        },
        _ => None,
    }
}

fn key_of_reversal(
    a: &AlertRecord,
    candidates: &Vec<CandidateSetup>,
    selected: &Vec<String>,
    smts: &Vec<SmtDivergence>,
) -> (r: Option<String>)
    ensures
        r.deep_view() == reversal_key(
            a@,
            candidates.deep_view(),
            selected.deep_view(),
            smts.deep_view(),
        ),
{
    if a.trigger != AlertTrigger::Validated {
        return None;
    }
    match find_traceable(candidates, selected, smts, a.candidate_id.as_str()) {
        None => None,
        Some(c) => {
            if !is_genuine(a, c) {
                return None;
            }
            match (find_last_smt(smts, a.smt_id.as_str()), &a.validation_symbol) {
                (Some(smt), Some(symbol)) => {
                    let mut key = smt_episode_key(smt);
                    key.append("|");
                    key.append(symbol.as_str());
                    Some(key)
                },
                _ => None,
            }
        },
    }
}

/// Records kept by key.
pub struct Kept<T> {
    pub keys: Seq<Seq<char>>,
    pub rows: Seq<T>,
}

/// Where a key is, or the length where it is not.
pub open spec fn key_at(keys: Seq<Seq<char>>, key: Seq<char>) -> int
    decreases keys.len(),
{
    if keys.len() == 0 || keys[0] == key {
        0
    } else {
        1 + key_at(keys.drop_first(), key)
    }
}

/// The kept records after another one: it takes the place of a lesser one
/// under its key.
pub open spec fn kept_with<T>(
    k: Kept<T>,
    key: Seq<char>,
    row: T,
    better: spec_fn(T, T) -> bool,
) -> Kept<T> {
    let at = key_at(k.keys, key);
    if at == k.keys.len() {
        Kept { keys: k.keys.push(key), rows: k.rows.push(row) }
    } else if better(row, k.rows[at]) {
        Kept { keys: k.keys, rows: k.rows.update(at, row) }
    } else {
        k
    }
}

fn find_key(keys: &Vec<String>, key: &str) -> (r: usize)
    ensures
        r == key_at(keys.deep_view(), key@),
        r <= keys.len(),
{
    let mut i: usize = 0;
    assert(keys.deep_view().skip(0) =~= keys.deep_view());
    while i < keys.len()
        invariant
            i <= keys.len(),
            key_at(keys.deep_view(), key@) == i + key_at(keys.deep_view().skip(i as int), key@),
        decreases keys.len() - i,
    {
        assert(keys.deep_view().skip(i as int)[0] == keys@[i as int]@);
        assert(keys.deep_view().skip(i as int).drop_first() =~= keys.deep_view().skip(i + 1));
        if text_eq(keys[i].as_str(), key) {
            return i;
        }
        i += 1;
    }
    i
}

/// A newer record replaces an older one.
pub open spec fn newer_record() -> spec_fn(AlertModel, AlertModel) -> bool {
    |a: AlertModel, b: AlertModel| a.created_at > b.created_at
}

/// The listed reversals by key: one per episode and instrument, the newest.
pub open spec fn kept_reversals(
    alerts: Seq<AlertModel>,
    candidates: Seq<CandidateModel>,
    selected: Seq<Seq<char>>,
    smts: Seq<SmtModel>,
) -> Kept<AlertModel>
    decreases alerts.len(),
{
    if alerts.len() == 0 {
        Kept { keys: Seq::empty(), rows: Seq::empty() }
    } else {
        let rest = kept_reversals(alerts.drop_last(), candidates, selected, smts);
        match reversal_key(alerts.last(), candidates, selected, smts) {
            Some(key) => kept_with(rest, key, alerts.last(), newer_record()),
            None => rest,
        }
    }
}

/// Lists the recorded reversals of the selected groups.
pub fn list_reversals(
    alerts: &Vec<AlertRecord>,
    candidates: &Vec<CandidateSetup>,
    selected: &Vec<String>,
    smts: &Vec<SmtDivergence>,
    limit: Option<i64>,
) -> (r: Vec<AlertRecord>)
    ensures
        r.deep_view() == limited(
            sorted_by(
                kept_reversals(
                    alerts.deep_view(),
                    candidates.deep_view(),
                    selected.deep_view(),
                    smts.deep_view(),
                ).rows,
                record_order(),
            ),
            limit,
        ),
{
    let mut keys: Vec<String> = Vec::new();
    let mut rows: Vec<AlertRecord> = Vec::new();
    let mut i: usize = 0;
    let ghost cs = candidates.deep_view();
    let ghost ids = selected.deep_view();
    let ghost ds = smts.deep_view();
    assert(keys.deep_view() =~= Seq::<Seq<char>>::empty());
    assert(rows.deep_view() =~= Seq::<AlertModel>::empty());
    while i < alerts.len()
        invariant
            i <= alerts.len(),
            keys.len() == rows.len(),
            cs == candidates.deep_view(),
            ids == selected.deep_view(),
            ds == smts.deep_view(),
            keys.deep_view() == kept_reversals(
                alerts.deep_view().take(i as int),
                cs,
                ids,
                ds,
            ).keys,
            rows.deep_view() == kept_reversals(
                alerts.deep_view().take(i as int),
                cs,
                ids,
                ds,
            ).rows,
        decreases alerts.len() - i,
    {
        let ghost held = Kept { keys: keys.deep_view(), rows: rows.deep_view() };
        proof {
            let now = alerts.deep_view().take(i + 1);
            assert(now.drop_last() =~= alerts.deep_view().take(i as int));
            assert(now.last() == alerts@[i as int]@);
        }
        match key_of_reversal(&alerts[i], candidates, selected, smts) {
            Some(key) => {
                let at: usize = find_key(&keys, key.as_str());
                let ghost k = key@;
                if at == keys.len() {
                    keys.push(key);
                    rows.push(alerts[i].clone());
                    assert(keys.deep_view() =~= held.keys.push(k));
                    assert(rows.deep_view() =~= held.rows.push(alerts@[i as int]@));
                } else {
                    assert(held.rows[at as int] == rows@[at as int]@);
                    if alerts[i].created_at > rows[at].created_at {
                        rows.set(at, alerts[i].clone());
                        assert(rows.deep_view() =~= held.rows.update(
                            at as int,
                            alerts@[i as int]@,
                        ));
                    }
                }
            },
            None => {},
        }
        i += 1;
    }
    assert(alerts.deep_view().take(i as int) =~= alerts.deep_view());
    limit_records(sort_alert_records_stably(rows), limit)
}

/// A later candidate replaces an earlier one; of two at one time the one with
/// the greater identity stays.
pub open spec fn later_candidate() -> spec_fn(CandidateModel, CandidateModel) -> bool {
    |a: CandidateModel, b: CandidateModel|
        a.created_at > b.created_at || (a.created_at == b.created_at && text_before(b.id, a.id))
}

/// The episode of a candidate that is listed: one of the selected groups whose
/// divergence is public and names the same price area.
pub open spec fn candidate_key(
    c: CandidateModel,
    selected: Seq<Seq<char>>,
    smts: Seq<SmtModel>,
    rule: Seq<char>,
) -> Option<Seq<char>> {
    match last_smt(smts, c.smt_id) {
        Some(smt) => if selected.contains(c.watchlist_id) && traceable(c, smts) && is_public(
            smt,
            rule,
        ) {
            Some(episode_key(smt))
        } else {
            None
        },
        None => None,
    }
}

/// The listed candidates by episode.
pub open spec fn kept_candidates(
    candidates: Seq<CandidateModel>,
    selected: Seq<Seq<char>>,
    smts: Seq<SmtModel>,
    rule: Seq<char>,
) -> Kept<CandidateModel>
    decreases candidates.len(),
{
    if candidates.len() == 0 {
        Kept { keys: Seq::empty(), rows: Seq::empty() }
    } else {
        let rest = kept_candidates(candidates.drop_last(), selected, smts, rule);
        match candidate_key(candidates.last(), selected, smts, rule) {
            Some(key) => kept_with(rest, key, candidates.last(), later_candidate()),
            None => rest,
        }
    }
}

/// The live candidates whose divergence is stored.
pub open spec fn sourced(live: Seq<CandidateModel>, smts: Seq<SmtModel>) -> Seq<CandidateModel>
    decreases live.len(),
{
    if live.len() == 0 {
        Seq::empty()
    } else if last_smt(smts, live.last().smt_id) is Some {
        sourced(live.drop_last(), smts).push(live.last())
    } else {
        sourced(live.drop_last(), smts)
    }
}

fn list_sourced(live: &Vec<CandidateSetup>, smts: &Vec<SmtDivergence>) -> (r: Vec<CandidateSetup>)
    ensures
        r.deep_view() == sourced(live.deep_view(), smts.deep_view()),
{
    let mut out: Vec<CandidateSetup> = Vec::new();
    let mut i: usize = 0;
    assert(out.deep_view() =~= Seq::<CandidateModel>::empty());
    while i < live.len()
        invariant
            i <= live.len(),
            out.deep_view() == sourced(live.deep_view().take(i as int), smts.deep_view()),
        decreases live.len() - i,
    {
        let ghost before = out.deep_view();
        proof {
            let now = live.deep_view().take(i + 1);
            assert(now.drop_last() =~= live.deep_view().take(i as int));
            assert(now.last() == live@[i as int]@);
        }
        if find_last_smt(smts, live[i].smt_id.as_str()).is_some() {
            out.push(live[i].clone());
            assert(out.deep_view() =~= before.push(live@[i as int]@));
        }
        i += 1;
    }
    assert(live.deep_view().take(i as int) =~= live.deep_view());
    out
}

/// Lists the candidates of the selected groups: from the stored ones, or from
/// the live ones where none is stored.
pub fn list_candidates(
    stored: &Vec<CandidateSetup>,
    live: &Vec<CandidateSetup>,
    selected: &Vec<String>,
    smts: &Vec<SmtDivergence>,
    rule: &str,
) -> (r: Vec<CandidateSetup>)
    ensures
        r.deep_view() == if stored.len() > 0 {
            kept_candidates(
                stored.deep_view(),
                selected.deep_view(),
                smts.deep_view(),
                rule@,
            ).rows
        } else {
            sourced(live.deep_view(), smts.deep_view())
        },
{
    if stored.len() == 0 {
        return list_sourced(live, smts);
    }
    let mut keys: Vec<String> = Vec::new();
    let mut rows: Vec<CandidateSetup> = Vec::new();
    let mut i: usize = 0;
    let ghost ids = selected.deep_view();
    let ghost ds = smts.deep_view();
    assert(keys.deep_view() =~= Seq::<Seq<char>>::empty());
    assert(rows.deep_view() =~= Seq::<CandidateModel>::empty());
    while i < stored.len()
        invariant
            i <= stored.len(),
            keys.len() == rows.len(),
            ids == selected.deep_view(),
            ds == smts.deep_view(),
            keys.deep_view() == kept_candidates(
                stored.deep_view().take(i as int),
                ids,
                ds,
                rule@,
            ).keys,
            rows.deep_view() == kept_candidates(
                stored.deep_view().take(i as int),
                ids,
                ds,
                rule@,
            ).rows,
        decreases stored.len() - i,
    {
        let ghost held = Kept { keys: keys.deep_view(), rows: rows.deep_view() };
        let c = &stored[i];
        proof {
            let now = stored.deep_view().take(i + 1);
            assert(now.drop_last() =~= stored.deep_view().take(i as int));
            assert(now.last() == c@);
        }
        if list_has(selected, c.watchlist_id.as_str()) && is_traceable(c, smts) {
            match find_last_smt(smts, c.smt_id.as_str()) {
                Some(smt) => {
                    if public_smt_attempt(smt, rule) {
                        let key = smt_episode_key(smt);
                        let at: usize = find_key(&keys, key.as_str());
                        let ghost k = key@;
                        if at == keys.len() {
                            keys.push(key);
                            rows.push(c.clone());
                            assert(keys.deep_view() =~= held.keys.push(k));
                            assert(rows.deep_view() =~= held.rows.push(c@));
                        } else {
                            assert(held.rows[at as int] == rows@[at as int]@);
                            let later = c.created_at > rows[at].created_at || (c.created_at
                                == rows[at].created_at && text_lt(
                                rows[at].id.as_str(),
                                c.id.as_str(),
                            ));
                            if later {
                                rows.set(at, c.clone());
                                assert(rows.deep_view() =~= held.rows.update(at as int, c@));
                            }
                        }
                    }
                },
                None => {},
            }
        }
        i += 1;
    }
    assert(stored.deep_view().take(i as int) =~= stored.deep_view());
    rows
}

/// How many language-model decisions are listed.
pub fn decision_limit(limit: Option<usize>) -> (r: usize)
    ensures
        r == match limit {
            Some(n) => if n < 2_000 {
                n as int
            } else {
                2_000
            },
            None => 500,
        },
{
    match limit {
        Some(n) => if n < 2_000 {
            n
        } else {
            2_000
        },
        None => 500,
    }
}

/// What fired stays as it was: only the lifecycle of an alert is refreshed.
pub proof fn law_fired_facts_are_durable(
    a: AlertModel,
    symbol: Seq<char>,
    c: CandidateModel,
    source: Option<SmtModel>,
)
    ensures
        ({
            let p = projected(a, symbol, c, source);
            &&& p.id == a.id && p.created_at == a.created_at && p.trigger == a.trigger
            &&& p.c2_candle_ts == a.c2_candle_ts && p.c2_case == a.c2_case
            &&& p.smt_k_candle_ts == a.smt_k_candle_ts && p.channels_fired == a.channels_fired
            &&& p.validation_symbol == a.validation_symbol
        }),
{
}

/// An alert whose divergence ended, lost the candle that fired it, or changed
/// its price area is listed as ended, with a reason.
pub proof fn law_revised_alerts_are_ended(
    a: AlertModel,
    symbol: Seq<char>,
    c: CandidateModel,
    smt: SmtModel,
)
    requires
        state_of(smt) is Invalidated || !keeps_c2(first_chain(smt.chains, symbol), a.c2_candle_ts)
            || c.context_pda_id != area_id(smt),
    ensures
        projected(a, symbol, c, Some(smt)).setup_status is Invalidated,
        projected(a, symbol, c, Some(smt)).invalidation_reason is Some,
{
}

/// Every confirmation of a known candidate keeps a row of its own: the number
/// of rows is the number of such records, in their order.
pub proof fn law_no_alert_hides_another(
    first: Seq<AlertModel>,
    second: Seq<AlertModel>,
    candidates: Seq<CandidateModel>,
    selected: Seq<Seq<char>>,
    smts: Seq<SmtModel>,
)
    ensures
        alert_rows(first + second, candidates, selected, smts) == alert_rows(
            first,
            candidates,
            selected,
            smts,
        ) + alert_rows(second, candidates, selected, smts),
    decreases second.len(),
{
    if second.len() == 0 {
        assert(first + second =~= first);
        assert(alert_rows(first, candidates, selected, smts) + Seq::<AlertModel>::empty()
            =~= alert_rows(first, candidates, selected, smts));
    } else {
        let all = first + second;
        assert(all.drop_last() =~= first + second.drop_last());
        assert(all.last() == second.last());
        law_no_alert_hides_another(first, second.drop_last(), candidates, selected, smts);
        assert(alert_rows(all, candidates, selected, smts) =~= alert_rows(
            first,
            candidates,
            selected,
            smts,
        ) + alert_rows(second, candidates, selected, smts));
    }
}

/// A reversal is listed only while its candidate is traceable and still holds
/// it.
pub proof fn law_listed_reversals_are_traceable(
    a: AlertModel,
    candidates: Seq<CandidateModel>,
    selected: Seq<Seq<char>>,
    smts: Seq<SmtModel>,
)
    requires
        reversal_key(a, candidates, selected, smts) is Some,
    ensures
        exists|k: int|
            0 <= k < candidates.len() && (#[trigger] candidates[k]).id == a.candidate_id
                && selected.contains(candidates[k].watchlist_id) && traceable(
                candidates[k],
                smts,
            ) && genuine(a, candidates[k]),
{
    lemma_traceable_with(candidates, selected, smts, a.candidate_id);
}

proof fn lemma_traceable_with(
    candidates: Seq<CandidateModel>,
    selected: Seq<Seq<char>>,
    smts: Seq<SmtModel>,
    id: Seq<char>,
)
    ensures
        traceable_with(candidates, selected, smts, id) matches Some(c) ==> exists|k: int|
            0 <= k < candidates.len() && #[trigger] candidates[k] == c && c.id == id
                && selected.contains(c.watchlist_id) && traceable(c, smts),
    decreases candidates.len(),
{
    if candidates.len() > 0 {
        let c = candidates.last();
        if c.id == id && selected.contains(c.watchlist_id) && traceable(c, smts) {
            assert(candidates[candidates.len() - 1] == c);
        } else {
            let rest = candidates.drop_last();
            lemma_traceable_with(rest, selected, smts, id);
            if traceable_with(rest, selected, smts, id) is Some {
                let x = traceable_with(rest, selected, smts, id)->0;
                let k = choose|k: int|
                    0 <= k < rest.len() && #[trigger] rest[k] == x && x.id == id
                        && selected.contains(x.watchlist_id) && traceable(x, smts);
                assert(candidates[k] == x);
            }
        }
    }
}

} // verus!
