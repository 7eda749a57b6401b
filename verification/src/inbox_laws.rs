//! What lists of alerts, reversals and candidates show.
use vstd::prelude::*;
use crate::alert::laws::lemma_first_validation;
use crate::alert::types::AlertModel;
use crate::candidate::close_laws::{chain_at, lemma_chain_at};
use crate::candidate::lifecycle::reason_of;
use crate::candidate::types::{CandidateModel, ExpiryReason};
use crate::detector::SmtModel;
use crate::inbox::{
    alert_row, alert_rows, candidate_key, candidate_with, genuine, kept_candidates, kept_reversals,
    kept_with, key_at, later_candidate, limited, listed_before, newer_record, projected,
    record_order, reversal_key, same_reversal, sourced, traceable, traceable_with, Kept,
};
use crate::smt::public::{episode_key, is_public, last_smt};
use crate::sorting::{law_sorting, sorted_by, strict_weak};
use crate::text::{lemma_push_contains, lemma_text_order};

verus! {

proof fn lemma_record_order(a: AlertModel, b: AlertModel, c: AlertModel)
    ensures
        listed_before(a, b) ==> !listed_before(b, a),
        !listed_before(b, a) && !listed_before(c, b) ==> !listed_before(c, a),
{
    lemma_text_order(a.watchlist_id, b.watchlist_id, c.watchlist_id);
    lemma_text_order(b.watchlist_id, a.watchlist_id, c.watchlist_id);
    lemma_text_order(c.watchlist_id, a.watchlist_id, b.watchlist_id);
    lemma_text_order(c.watchlist_id, b.watchlist_id, a.watchlist_id);
    lemma_text_order(a.watchlist_id, c.watchlist_id, b.watchlist_id);
    lemma_text_order(b.watchlist_id, c.watchlist_id, a.watchlist_id);
    lemma_text_order(a.watchlist_id, b.watchlist_id, a.watchlist_id);
    lemma_text_order(a.id, b.id, c.id);
    lemma_text_order(b.id, a.id, c.id);
    lemma_text_order(c.id, a.id, b.id);
    lemma_text_order(c.id, b.id, a.id);
    lemma_text_order(a.id, c.id, b.id);
    lemma_text_order(b.id, c.id, a.id);
    lemma_text_order(a.id, b.id, a.id);
    let x = a.validation_symbol->0;
    let y = b.validation_symbol->0;
    let z = c.validation_symbol->0;
    lemma_text_order(x, y, z);
    lemma_text_order(y, x, z);
    lemma_text_order(z, x, y);
    lemma_text_order(z, y, x);
    lemma_text_order(x, z, y);
    lemma_text_order(y, z, x);
    lemma_text_order(x, y, x);
}

/// Lists of records show the newest first, hold every record that they are made
/// of, and are cut to the limit from the end.
pub proof fn law_the_newest_records_come_first(list: Seq<AlertModel>, limit: i64, i: int, j: int)
    ensures
        ({
            let shown = sorted_by(list, record_order());
            let cut = limited(shown, Some(limit));
            &&& shown.to_multiset() == list.to_multiset()
            &&& 0 <= i < j < shown.len() ==> shown[i].created_at >= shown[j].created_at
            &&& limited(shown, None) == shown
            &&& limit <= 0 ==> cut.len() == 0
            &&& 0 < limit <= shown.len() ==> cut.len() == limit
            &&& limit > shown.len() ==> cut == shown
            &&& 0 <= i < cut.len() ==> cut[i] == shown[i]
        }),
{
    let order = record_order();
    assert(strict_weak(order)) by {
        assert forall|a: AlertModel, b: AlertModel| #[trigger] order(a, b) implies !order(
            b,
            a,
        ) by {
            lemma_record_order(a, b, a);
        }
        assert forall|a: AlertModel, b: AlertModel, c: AlertModel|
            !(#[trigger] order(b, a)) && !(#[trigger] order(c, b)) implies !order(c, a) by {
            lemma_record_order(a, b, c);
        }
    }
    law_sorting(list, order);
    let shown = sorted_by(list, order);
    if 0 <= i < j < shown.len() {
        assert(!order(shown[j], shown[i]));
    }
}

/// A listed alert follows its leg: ended where the leg or the candidate has ended,
/// with the reason of the leg or, where it has none, of the candidate; otherwise
/// with the status of the candidate. A divergence that ended, lost the second
/// candle that fired, or moved to another price area ends it.
pub proof fn law_a_listed_alert_follows_its_leg(
    a: AlertModel,
    symbol: Seq<char>,
    c: CandidateModel,
    smt: SmtModel,
    i: int,
    k: int,
)
    requires
        chain_at(smt.chains, smt.sweeper_symbol, i),
        chain_at(smt.chains, symbol, k),
    ensures
        ({
            let alone = projected(a, symbol, c, None);
            let p = projected(a, symbol, c, Some(smt));
            let ended = c.invalidated_symbols.contains(symbol);
            let own = reason_of(c.symbol_invalidation_reasons, symbol);
            let chain = smt.chains[k];
            let kept = chain.c2_candle is Some && chain.c2_candle->0.ts == a.c2_candle_ts;
            let area = if smt.htf_pda_ref is Some {
                Some(smt.htf_pda_ref->0.id)
            } else {
                None
            };
            let revised = smt.chains[i].detection_state is Invalidated || !kept
                || c.context_pda_id != area;
            &&& ended ==> alone.setup_status is Invalidated
            &&& !ended ==> alone.setup_status == c.setup_status
            &&& own is Some ==> alone.invalidation_reason == own && p.invalidation_reason == own
            &&& own is None && c.setup_status is Invalidated ==> alone.invalidation_reason
                == c.expiry_reason
            &&& own is None && !(c.setup_status is Invalidated) ==> alone.invalidation_reason is None
            &&& revised ==> p.setup_status is Invalidated
            &&& revised && alone.invalidation_reason is None ==> p.invalidation_reason == Some(
                ExpiryReason::SmtInvalidated,
            )
            &&& !revised ==> p.setup_status == alone.setup_status && p.invalidation_reason
                == alone.invalidation_reason
            &&& kept && chain.c3_candle is Some ==> p.c3_candle_ts == Some(chain.c3_candle->0.ts)
            &&& !kept || chain.c3_candle is None ==> p.c3_candle_ts == a.c3_candle_ts
            &&& alone.c3_candle_ts == a.c3_candle_ts
        }),
{
    lemma_chain_at(smt.chains, smt.sweeper_symbol, i);
    lemma_chain_at(smt.chains, symbol, k);
}

/// A listed alert shows the first validation of its instrument, where the candidate
/// has one.
pub proof fn law_a_listed_alert_shows_its_validation(
    a: AlertModel,
    symbol: Seq<char>,
    c: CandidateModel,
    source: Option<SmtModel>,
    k: int,
)
    requires
        0 <= k < c.validations.len(),
        c.validations[k].symbol == symbol,
        forall|j: int| 0 <= j < k ==> (#[trigger] c.validations[j]).symbol != symbol,
    ensures
        ({
            let p = projected(a, symbol, c, source);
            let v = c.validations[k];
            p.validation_kind == Some(v.kind) && p.validation_ts == Some(v.ts)
                && p.validation_direction == Some(v.direction)
        }),
{
    lemma_first_validation(c.validations, symbol, k);
}

/// The last candidate of the selected groups with an identity is found, and none
/// where there is none.
pub proof fn law_candidates_are_found_by_identity(
    candidates: Seq<CandidateModel>,
    groups: Seq<Seq<char>>,
    id: Seq<char>,
)
    ensures
        ({
            let r = candidate_with(candidates, groups, id);
            &&& r is None ==> forall|k: int|
                0 <= k < candidates.len() ==> !((#[trigger] candidates[k]).id == id
                    && groups.contains(candidates[k].watchlist_id))
            &&& r matches Some(c) ==> exists|k: int|
                0 <= k < candidates.len() && #[trigger] candidates[k] == c && c.id == id
                    && groups.contains(c.watchlist_id) && forall|j: int|
                    k < j < candidates.len() ==> !((#[trigger] candidates[j]).id == id
                        && groups.contains(candidates[j].watchlist_id))
        }),
    decreases candidates.len(),
{
    if candidates.len() > 0 {
        let rest = candidates.drop_last();
        let n = rest.len() as int;
        law_candidates_are_found_by_identity(rest, groups, id);
        assert(candidates[n] == candidates.last());
        if !(candidates.last().id == id && groups.contains(candidates.last().watchlist_id)) {
            match candidate_with(rest, groups, id) {
                None => {
                    assert forall|k: int| 0 <= k < candidates.len() implies !((
                    #[trigger] candidates[k]).id == id && groups.contains(
                        candidates[k].watchlist_id,
                    )) by {
                        if k < n {
                            assert(rest[k] == candidates[k]);
                        }
                    }
                },
                Some(c) => {
                    let k = choose|k: int|
                        0 <= k < rest.len() && #[trigger] rest[k] == c && c.id == id
                            && groups.contains(c.watchlist_id) && forall|j: int|
                            k < j < rest.len() ==> !((#[trigger] rest[j]).id == id
                                && groups.contains(rest[j].watchlist_id));
                    assert(candidates[k] == c);
                    assert forall|j: int| k < j < candidates.len() implies !((
                    #[trigger] candidates[j]).id == id && groups.contains(
                        candidates[j].watchlist_id,
                    )) by {
                        if j < n {
                            assert(rest[j] == candidates[j]);
                        }
                    }
                },
            }
        }
    }
}

/// Only confirmations of known candidates of the selected groups are listed, and
/// every one of them is.
pub proof fn law_confirmations_of_known_candidates_are_listed(
    a: AlertModel,
    candidates: Seq<CandidateModel>,
    groups: Seq<Seq<char>>,
    smts: Seq<SmtModel>,
)
    ensures
        (alert_row(a, candidates, groups, smts) is Some) == (a.trigger is C2Confirmed
            && a.validation_symbol is Some && exists|k: int|
            0 <= k < candidates.len() && (#[trigger] candidates[k]).id == a.candidate_id
                && groups.contains(candidates[k].watchlist_id)),
{
    law_candidates_are_found_by_identity(candidates, groups, a.candidate_id);
    match candidate_with(candidates, groups, a.candidate_id) {
        Some(c) => {
            let k = choose|k: int|
                0 <= k < candidates.len() && #[trigger] candidates[k] == c && c.id
                    == a.candidate_id && groups.contains(c.watchlist_id);
            assert(candidates[k].id == a.candidate_id);
        },
        None => {},
    }
}

/// What is kept under keys: one row per key.
spec fn keyed<T>(k: Kept<T>) -> bool {
    &&& k.keys.len() == k.rows.len()
    &&& forall|i: int, j: int| 0 <= i < j < k.keys.len() ==> k.keys[i] != k.keys[j]
}

proof fn lemma_key_at(keys: Seq<Seq<char>>, key: Seq<char>)
    ensures
        0 <= key_at(keys, key) <= keys.len(),
        key_at(keys, key) < keys.len() ==> keys[key_at(keys, key)] == key,
        key_at(keys, key) == keys.len() ==> !keys.contains(key),
    decreases keys.len(),
{
    if keys.len() > 0 && keys[0] != key {
        lemma_key_at(keys.drop_first(), key);
        if keys.contains(key) {
            let k = choose|k: int| 0 <= k < keys.len() && keys[k] == key;
            assert(keys.drop_first()[k - 1] == key);
        }
    }
}

proof fn lemma_kept_with<T>(k: Kept<T>, key: Seq<char>, row: T, better: spec_fn(T, T) -> bool)
    requires
        keyed(k),
        !better(row, row),
    ensures
        ({
            let r = kept_with(k, key, row, better);
            let at = key_at(k.keys, key);
            &&& keyed(r)
            &&& 0 <= at < r.keys.len()
            &&& r.keys[at] == key
            &&& !better(row, r.rows[at])
            &&& r.rows[at] == row || (at < k.keys.len() && r.rows[at] == k.rows[at])
            &&& k.keys.len() <= r.keys.len()
            &&& forall|i: int|
                0 <= i < k.keys.len() ==> #[trigger] r.keys[i] == k.keys[i] && (i != at
                    ==> r.rows[i] == k.rows[i])
            &&& at < k.keys.len() ==> r.rows[at] == k.rows[at] || (r.rows[at] == row && better(
                row,
                k.rows[at],
            ))
            &&& r.keys.len() <= at + 1 || r.keys.len() == k.keys.len()
        }),
{
    lemma_key_at(k.keys, key);
    let at = key_at(k.keys, key);
    let r = kept_with(k, key, row, better);
    if at == k.keys.len() {
        assert forall|i: int, j: int| 0 <= i < j < r.keys.len() implies r.keys[i] != r.keys[j] by {
            if j == k.keys.len() && r.keys[i] == key {
                assert(k.keys[i] == key);
                assert(k.keys.contains(key));
            }
        }
    }
}

/// Each listed reversal stands for its episode and instrument: no two share one,
/// every record that qualifies is represented, and by none that is older.
pub proof fn law_one_reversal_per_episode_and_instrument(
    alerts: Seq<AlertModel>,
    candidates: Seq<CandidateModel>,
    groups: Seq<Seq<char>>,
    smts: Seq<SmtModel>,
)
    ensures
        ({
            let r = kept_reversals(alerts, candidates, groups, smts);
            &&& r.keys.len() == r.rows.len()
            &&& forall|i: int, j: int| 0 <= i < j < r.keys.len() ==> r.keys[i] != r.keys[j]
            &&& forall|i: int|
                0 <= i < r.rows.len() ==> reversal_key(
                    #[trigger] r.rows[i],
                    candidates,
                    groups,
                    smts,
                ) == Some(r.keys[i]) && alerts.contains(r.rows[i])
            &&& forall|k: int| #![trigger alerts[k]]
                0 <= k < alerts.len() && reversal_key(alerts[k], candidates, groups, smts) is Some
                    ==> exists|i: int|
                    0 <= i < r.rows.len() && Some(r.keys[i]) == reversal_key(
                        alerts[k],
                        candidates,
                        groups,
                        smts,
                    ) && (#[trigger] r.rows[i]).created_at >= alerts[k].created_at
        }),
    decreases alerts.len(),
{
    if alerts.len() > 0 {
        let rest = alerts.drop_last();
        let last = alerts.last();
        let n = rest.len() as int;
        let had = kept_reversals(rest, candidates, groups, smts);
        let r = kept_reversals(alerts, candidates, groups, smts);
        law_one_reversal_per_episode_and_instrument(rest, candidates, groups, smts);
        assert(alerts[n] == last);
        assert forall|k: int| 0 <= k < rest.len() implies rest[k] == #[trigger] alerts[k] by {}
        match reversal_key(last, candidates, groups, smts) {
            Some(key) => {
                let at = key_at(had.keys, key);
                assert(keyed(had));
                lemma_kept_with(had, key, last, newer_record());
                lemma_key_at(had.keys, key);
                assert forall|i: int| 0 <= i < r.rows.len() implies reversal_key(
                    #[trigger] r.rows[i],
                    candidates,
                    groups,
                    smts,
                ) == Some(r.keys[i]) && alerts.contains(r.rows[i]) by {
                    if r.rows[i] == last && i == at {
                    } else {
                        assert(i < had.rows.len());
                        assert(r.keys[i] == had.keys[i]);
                        assert(r.rows[i] == had.rows[i]);
                        assert(rest.contains(had.rows[i]));
                        let p = choose|p: int| 0 <= p < rest.len() && rest[p] == had.rows[i];
                        assert(alerts[p] == r.rows[i]);
                    }
                }
                assert forall|k: int| #![trigger alerts[k]]
                    0 <= k < alerts.len() && reversal_key(alerts[k], candidates, groups, smts)
                        is Some implies exists|i: int|
                    0 <= i < r.rows.len() && Some(r.keys[i]) == reversal_key(
                        alerts[k],
                        candidates,
                        groups,
                        smts,
                    ) && (#[trigger] r.rows[i]).created_at >= alerts[k].created_at by {
                    if k < n {
                        assert(rest[k] == alerts[k]);
                        let i = choose|i: int|
                            0 <= i < had.rows.len() && Some(had.keys[i]) == reversal_key(
                                rest[k],
                                candidates,
                                groups,
                                smts,
                            ) && (#[trigger] had.rows[i]).created_at >= rest[k].created_at;
                        assert(r.keys[i] == had.keys[i]);
                        assert(r.rows[i].created_at >= had.rows[i].created_at);
                    } else {
                        assert(r.rows[at].created_at >= last.created_at);
                    }
                }
            },
            None => {
                assert forall|i: int| 0 <= i < r.rows.len() implies alerts.contains(
                    #[trigger] r.rows[i],
                ) by {
                    assert(rest.contains(had.rows[i]));
                    let p = choose|p: int| 0 <= p < rest.len() && rest[p] == had.rows[i];
                    assert(alerts[p] == r.rows[i]);
                }
                assert forall|k: int| #![trigger alerts[k]]
                    0 <= k < alerts.len() && reversal_key(alerts[k], candidates, groups, smts)
                        is Some implies exists|i: int|
                    0 <= i < r.rows.len() && Some(r.keys[i]) == reversal_key(
                        alerts[k],
                        candidates,
                        groups,
                        smts,
                    ) && (#[trigger] r.rows[i]).created_at >= alerts[k].created_at by {
                    assert(rest[k] == alerts[k]);
                }
            },
        }
    }
}

/// Each listed candidate stands for its episode: no two share one, every candidate
/// that qualifies is represented, and by none that is older.
pub proof fn law_one_candidate_per_episode(
    candidates: Seq<CandidateModel>,
    groups: Seq<Seq<char>>,
    smts: Seq<SmtModel>,
    rule: Seq<char>,
)
    ensures
        ({
            let r = kept_candidates(candidates, groups, smts, rule);
            &&& r.keys.len() == r.rows.len()
            &&& forall|i: int, j: int| 0 <= i < j < r.keys.len() ==> r.keys[i] != r.keys[j]
            &&& forall|i: int|
                0 <= i < r.rows.len() ==> candidate_key(#[trigger] r.rows[i], groups, smts, rule)
                    == Some(r.keys[i]) && candidates.contains(r.rows[i])
            &&& forall|k: int| #![trigger candidates[k]]
                0 <= k < candidates.len() && candidate_key(candidates[k], groups, smts, rule)
                    is Some ==> exists|i: int|
                    0 <= i < r.rows.len() && Some(r.keys[i]) == candidate_key(
                        candidates[k],
                        groups,
                        smts,
                        rule,
                    ) && (#[trigger] r.rows[i]).created_at >= candidates[k].created_at
        }),
    decreases candidates.len(),
{
    if candidates.len() > 0 {
        let rest = candidates.drop_last();
        let last = candidates.last();
        let n = rest.len() as int;
        let had = kept_candidates(rest, groups, smts, rule);
        let r = kept_candidates(candidates, groups, smts, rule);
        law_one_candidate_per_episode(rest, groups, smts, rule);
        assert(candidates[n] == last);
        assert forall|k: int| 0 <= k < rest.len() implies rest[k] == #[trigger] candidates[k] by {}
        match candidate_key(last, groups, smts, rule) {
            Some(key) => {
                let at = key_at(had.keys, key);
                assert(keyed(had));
                lemma_text_order(last.id, last.id, last.id);
                lemma_kept_with(had, key, last, later_candidate());
                lemma_key_at(had.keys, key);
                assert forall|i: int| 0 <= i < r.rows.len() implies candidate_key(
                    #[trigger] r.rows[i],
                    groups,
                    smts,
                    rule,
                ) == Some(r.keys[i]) && candidates.contains(r.rows[i]) by {
                    if r.rows[i] == last && i == at {
                    } else {
                        assert(i < had.rows.len());
                        assert(r.keys[i] == had.keys[i]);
                        assert(r.rows[i] == had.rows[i]);
                        assert(rest.contains(had.rows[i]));
                        let p = choose|p: int| 0 <= p < rest.len() && rest[p] == had.rows[i];
                        assert(candidates[p] == r.rows[i]);
                    }
                }
                assert forall|k: int| #![trigger candidates[k]]
                    0 <= k < candidates.len() && candidate_key(candidates[k], groups, smts, rule)
                        is Some implies exists|i: int|
                    0 <= i < r.rows.len() && Some(r.keys[i]) == candidate_key(
                        candidates[k],
                        groups,
                        smts,
                        rule,
                    ) && (#[trigger] r.rows[i]).created_at >= candidates[k].created_at by {
                    if k < n {
                        assert(rest[k] == candidates[k]);
                        let i = choose|i: int|
                            0 <= i < had.rows.len() && Some(had.keys[i]) == candidate_key(
                                rest[k],
                                groups,
                                smts,
                                rule,
                            ) && (#[trigger] had.rows[i]).created_at >= rest[k].created_at;
                        assert(r.keys[i] == had.keys[i]);
                        assert(r.rows[i].created_at >= had.rows[i].created_at);
                    } else {
                        assert(r.rows[at].created_at >= last.created_at);
                    }
                }
            },
            None => {
                assert forall|i: int| 0 <= i < r.rows.len() implies candidates.contains(
                    #[trigger] r.rows[i],
                ) by {
                    assert(rest.contains(had.rows[i]));
                    let p = choose|p: int| 0 <= p < rest.len() && rest[p] == had.rows[i];
                    assert(candidates[p] == r.rows[i]);
                }
                assert forall|k: int| #![trigger candidates[k]]
                    0 <= k < candidates.len() && candidate_key(candidates[k], groups, smts, rule)
                        is Some implies exists|i: int|
                    0 <= i < r.rows.len() && Some(r.keys[i]) == candidate_key(
                        candidates[k],
                        groups,
                        smts,
                        rule,
                    ) && (#[trigger] r.rows[i]).created_at >= candidates[k].created_at by {
                    assert(rest[k] == candidates[k]);
                }
            },
        }
    }
}

/// A candidate qualifies for the list exactly where its group is selected, its
/// divergence is known and public, and both name one price area.
pub proof fn law_candidates_need_a_public_divergence(
    c: CandidateModel,
    groups: Seq<Seq<char>>,
    smts: Seq<SmtModel>,
    rule: Seq<char>,
)
    ensures
        (candidate_key(c, groups, smts, rule) is Some) == (groups.contains(c.watchlist_id)
            && c.context_pda_id is Some && (last_smt(smts, c.smt_id) matches Some(smt)
            && is_public(smt, rule) && smt.htf_pda_ref is Some && smt.htf_pda_ref->0.id
            == c.context_pda_id->0)),
{
}

/// A reversal is genuine where the candidate holds the same one: of the same
/// instrument, at the same time, of the same kind and direction.
pub proof fn law_genuine_reversals_are_on_record(a: AlertModel, c: CandidateModel, k: int)
    requires
        c.validations.len() > 0,
    ensures
        0 <= k < c.validations.len() && a.validation_symbol == Some(c.validations[k].symbol)
            && a.validation_ts == Some(c.validations[k].ts) && a.validation_kind == Some(
            c.validations[k].kind,
        ) && a.validation_direction == Some(c.validations[k].direction) ==> genuine(a, c),
        genuine(a, c) ==> exists|i: int|
            0 <= i < c.validations.len() && a.validation_symbol == Some(
                (#[trigger] c.validations[i]).symbol,
            ) && a.validation_ts == Some(c.validations[i].ts) && a.validation_kind == Some(
                c.validations[i].kind,
            ) && a.validation_direction == Some(c.validations[i].direction),
{
    if 0 <= k < c.validations.len() && a.validation_symbol == Some(c.validations[k].symbol)
        && a.validation_ts == Some(c.validations[k].ts) && a.validation_kind == Some(
        c.validations[k].kind,
    ) && a.validation_direction == Some(c.validations[k].direction) {
        assert(same_reversal(c.validations[k], a));
    }
}

/// Live candidates are listed where their divergence is stored, in their order.
pub proof fn law_live_candidates_need_a_source(
    live: Seq<CandidateModel>,
    smts: Seq<SmtModel>,
    c: CandidateModel,
)
    ensures
        sourced(live, smts).contains(c) == (live.contains(c) && last_smt(smts, c.smt_id) is Some),
    decreases live.len(),
{
    if live.len() > 0 {
        let rest = live.drop_last();
        law_live_candidates_need_a_source(rest, smts, c);
        assert(live =~= rest.push(live.last()));
        lemma_push_contains(rest, live.last(), c);
        lemma_push_contains(sourced(rest, smts), live.last(), c);
    }
}

/// A record is listed as a reversal where it tells of a validation, its candidate is
/// in a selected group with the divergence's price area and holds the same reversal,
/// and its divergence is known.
pub proof fn law_listed_reversals_are_genuine(
    a: AlertModel,
    candidates: Seq<CandidateModel>,
    groups: Seq<Seq<char>>,
    smts: Seq<SmtModel>,
) -> (k: int)
    ensures
        reversal_key(a, candidates, groups, smts) is Some ==> a.trigger is Validated
            && a.validation_symbol is Some && a.validation_ts is Some && 0 <= k < candidates.len()
            && candidates[k].id == a.candidate_id && groups.contains(candidates[k].watchlist_id)
            && traceable(candidates[k], smts) && genuine(a, candidates[k]),
        reversal_key(a, candidates, groups, smts) is Some ==> exists|j: int|
            0 <= j < smts.len() && (#[trigger] smts[j]).id == a.smt_id,
{
    lemma_known(smts, a.smt_id);
    lemma_traceable(candidates, groups, smts, a.candidate_id)
}

proof fn lemma_known(smts: Seq<SmtModel>, id: Seq<char>)
    ensures
        last_smt(smts, id) is Some ==> exists|j: int|
            0 <= j < smts.len() && (#[trigger] smts[j]).id == id,
    decreases smts.len(),
{
    if smts.len() > 0 {
        if smts.last().id == id {
            assert(smts[smts.len() - 1].id == id);
        } else {
            let rest = smts.drop_last();
            lemma_known(rest, id);
            if last_smt(rest, id) is Some {
                let j = choose|j: int| 0 <= j < rest.len() && (#[trigger] rest[j]).id == id;
                assert(smts[j].id == id);
            }
        }
    }
}

proof fn lemma_traceable(
    candidates: Seq<CandidateModel>,
    groups: Seq<Seq<char>>,
    smts: Seq<SmtModel>,
    id: Seq<char>,
) -> (k: int)
    ensures
        traceable_with(candidates, groups, smts, id) matches Some(c) ==> 0 <= k < candidates.len()
            && candidates[k] == c && c.id == id && groups.contains(c.watchlist_id) && traceable(
            c,
            smts,
        ),
    decreases candidates.len(),
{
    if candidates.len() == 0 {
        0
    } else {
        let c = candidates.last();
        if c.id == id && groups.contains(c.watchlist_id) && traceable(c, smts) {
            candidates.len() - 1
        } else {
            lemma_traceable(candidates.drop_last(), groups, smts, id)
        }
    }
}

/// A record with all of that is listed: nothing else keeps it out.
pub proof fn law_genuine_reversals_are_listed(
    a: AlertModel,
    candidates: Seq<CandidateModel>,
    groups: Seq<Seq<char>>,
    smts: Seq<SmtModel>,
    k: int,
    j: int,
)
    requires
        a.trigger is Validated,
        0 <= k < candidates.len(),
        candidates[k].id == a.candidate_id,
        groups.contains(candidates[k].watchlist_id),
        traceable(candidates[k], smts),
        genuine(a, candidates[k]),
        forall|n: int| k < n < candidates.len() ==> (#[trigger] candidates[n]).id != a.candidate_id,
        0 <= j < smts.len(),
        smts[j].id == a.smt_id,
    ensures
        reversal_key(a, candidates, groups, smts) is Some,
{
    lemma_traced(candidates, groups, smts, k);
    lemma_stored(smts, a.smt_id, j);
}

proof fn lemma_traced(
    candidates: Seq<CandidateModel>,
    groups: Seq<Seq<char>>,
    smts: Seq<SmtModel>,
    k: int,
)
    requires
        0 <= k < candidates.len(),
        groups.contains(candidates[k].watchlist_id),
        traceable(candidates[k], smts),
        forall|n: int|
            k < n < candidates.len() ==> (#[trigger] candidates[n]).id != candidates[k].id,
    ensures
        traceable_with(candidates, groups, smts, candidates[k].id) == Some(candidates[k]),
    decreases candidates.len(),
{
    if k < candidates.len() - 1 {
        let rest = candidates.drop_last();
        assert(candidates[candidates.len() - 1].id != candidates[k].id);
        assert forall|n: int| k < n < rest.len() implies (#[trigger] rest[n]).id != rest[k].id by {
            assert(rest[n] == candidates[n]);
        }
        lemma_traced(rest, groups, smts, k);
    }
}

proof fn lemma_stored(smts: Seq<SmtModel>, id: Seq<char>, j: int)
    requires
        0 <= j < smts.len(),
        smts[j].id == id,
    ensures
        last_smt(smts, id) is Some,
    decreases smts.len(),
{
    if smts.last().id != id {
        assert(smts.drop_last()[j] == smts[j]);
        lemma_stored(smts.drop_last(), id, j);
    }
}

/// Reversals of one divergence are told apart by their instruments.
pub proof fn law_instruments_are_listed_apart(
    a: AlertModel,
    b: AlertModel,
    candidates: Seq<CandidateModel>,
    groups: Seq<Seq<char>>,
    smts: Seq<SmtModel>,
)
    requires
        a.smt_id == b.smt_id,
        reversal_key(a, candidates, groups, smts) is Some,
        reversal_key(b, candidates, groups, smts) is Some,
    ensures
        reversal_key(a, candidates, groups, smts) == reversal_key(b, candidates, groups, smts) <==> (
        a.validation_symbol == b.validation_symbol),
{
    let smt = last_smt(smts, a.smt_id)->0;
    let head = episode_key(smt) + "|"@;
    let x = a.validation_symbol->0;
    let y = b.validation_symbol->0;
    if head + x == head + y {
        assert((head + x).skip(head.len() as int) =~= x);
        assert((head + y).skip(head.len() as int) =~= y);
    }
}

/// A candidate can be traced where it names a price area and its divergence names
/// the same.
pub proof fn law_traceable_candidates_share_their_area(c: CandidateModel, smts: Seq<SmtModel>)
    ensures
        traceable(c, smts) <==> (last_smt(smts, c.smt_id) matches Some(smt)
            && smt.htf_pda_ref matches Some(pda) && c.context_pda_id == Some(pda.id)),
{
}

/// Every record that is listed is listed once, in the order of the records; the
/// others are left out.
pub proof fn law_every_confirmation_has_its_row(
    alerts: Seq<AlertModel>,
    a: AlertModel,
    candidates: Seq<CandidateModel>,
    groups: Seq<Seq<char>>,
    smts: Seq<SmtModel>,
)
    ensures
        alert_rows(Seq::empty(), candidates, groups, smts).len() == 0,
        alert_row(a, candidates, groups, smts) matches Some(row) ==> alert_rows(
            alerts.push(a),
            candidates,
            groups,
            smts,
        ) == alert_rows(alerts, candidates, groups, smts).push(row),
        alert_row(a, candidates, groups, smts) is None ==> alert_rows(
            alerts.push(a),
            candidates,
            groups,
            smts,
        ) == alert_rows(alerts, candidates, groups, smts),
{
    assert(alerts.push(a).drop_last() =~= alerts);
}

} // verus!
