//! What follows a change of a candidate or a confirmed second candle: what is
//! stored, what is recorded after the fact, and what is delivered.
use vstd::prelude::*;
use crate::alert::engine::{
    after_change, c2_created, c2_record, filled, fired_record, has_id, stored, AlertEngine,
    AlertEngineModel, FiredFacts,
};
use crate::alert::types::{AlertModel, AlertRecord};
use crate::candidate::engine::{active_candidates, position, CandidateEngine, EngineModel};
use crate::candidate::rules::EntryModel;
use crate::candidate::types::{
    CandidateChange, CandidateModel, CandidateSetup, ChangeModel, DecisionLogEntry, DecisionModel,
};
use crate::detector::{SmtDivergence, SmtModel};
use crate::smt::feed::{backfill_alert, late_record, source_of, source_smt};

verus! {

/// One thing to do about a change.
#[derive(Debug)]
pub enum Effect {
    /// Store the candidate as of a time.
    KeepCandidate { candidate: CandidateSetup, ts: i64 },
    /// Log the decision.
    KeepDecision(DecisionLogEntry),
    /// Record an alert after the fact; nobody is notified.
    KeepAlert(AlertRecord),
    /// Deliver an alert to the channels that it names.
    Deliver(AlertRecord),
}

/// Mathematical content of an [`Effect`].
pub enum EffectModel {
    KeepCandidate { candidate: CandidateModel, ts: i64 },
    KeepDecision(DecisionModel),
    KeepAlert(AlertModel),
    Deliver(AlertModel),
}

impl View for Effect {
    type V = EffectModel;

    open spec fn view(&self) -> EffectModel {
        match *self {
            Effect::KeepCandidate { candidate, ts } => EffectModel::KeepCandidate {
                candidate: candidate@,
                ts,
            },
            Effect::KeepDecision(d) => EffectModel::KeepDecision(d@),
            Effect::KeepAlert(a) => EffectModel::KeepAlert(a@),
            Effect::Deliver(a) => EffectModel::Deliver(a@),
        }
    }
}

impl DeepView for Effect {
    type V = EffectModel;

    open spec fn deep_view(&self) -> EffectModel {
        self@
    }
}

/// When a change takes place.
#[derive(Debug, Clone, Copy, PartialEq, Eq, Structural)]
pub struct Moment {
    /// The time that the change is stored with.
    pub transition_ts: i64,
    /// The time that alerts count with.
    pub now: i64,
    /// The change is history that is rebuilt: nothing is delivered.
    pub seeding: bool,
    /// Reversals that were missed are recorded after the fact.
    pub backfills: bool,
}

/// Everything that is done about a change, in order.
pub open spec fn settled(
    alerts: AlertEngineModel,
    change: ChangeModel,
    at: Moment,
    fired: FiredFacts,
) -> Seq<EffectModel> {
    let kept = seq![
        EffectModel::KeepCandidate { candidate: change.candidate, ts: at.transition_ts },
        EffectModel::KeepDecision(change.decision),
    ];
    let late = match late_record(change, fired.group_symbol) {
        Some(a) => if at.backfills {
            kept.push(EffectModel::KeepAlert(a))
        } else {
            kept
        },
        None => kept,
    };
    match fired_record(alerts, change, at.now, at.seeding, fired) {
        Some(a) => late.push(EffectModel::Deliver(a)),
        None => late,
    }
}

/// Decides what is done about a change of a candidate.
pub fn settle_change(
    alerts: &mut AlertEngine,
    change: CandidateChange,
    at: Moment,
    fired: FiredFacts,
) -> (r: Vec<Effect>)
    ensures
        r.deep_view() == settled(old(alerts)@, change@, at, fired),
        final(alerts)@ == after_change(old(alerts)@, change@, at.now, at.seeding, fired),
{
    let ghost all = settled(alerts@, change@, at, fired);
    let late = if at.backfills {
        backfill_alert(&change, fired.group_symbol)
    } else {
        None
    };
    let record = alerts.on_candidate_change(&change, at.now, at.seeding, fired);
    let mut out: Vec<Effect> = Vec::new();
    out.push(Effect::KeepCandidate { candidate: change.candidate, ts: at.transition_ts });
    out.push(Effect::KeepDecision(change.decision));
    assert(out.deep_view() =~= seq![
        EffectModel::KeepCandidate { candidate: change@.candidate, ts: at.transition_ts },
        EffectModel::KeepDecision(change@.decision),
    ]);
    match late {
        Some(a) => {
            let ghost before = out.deep_view();
            let ghost content = a@;
            out.push(Effect::KeepAlert(a));
            assert(out.deep_view() =~= before.push(EffectModel::KeepAlert(content)));
        },
        None => {},
    }
    match record {
        Some(a) => {
            let ghost before = out.deep_view();
            let ghost content = a@;
            out.push(Effect::Deliver(a));
            assert(out.deep_view() =~= before.push(EffectModel::Deliver(content)));
        },
        None => {},
    }
    assert(out.deep_view() =~= all);
    out
}

/// History that is rebuilt delivers nothing, and a change is stored before
/// anything is recorded or delivered because of it.
pub proof fn law_history_delivers_nothing(
    alerts: AlertEngineModel,
    change: ChangeModel,
    at: Moment,
    fired: FiredFacts,
)
    ensures
        settled(alerts, change, at, fired)[0] == (EffectModel::KeepCandidate {
            candidate: change.candidate,
            ts: at.transition_ts,
        }),
        settled(alerts, change, at, fired)[1] == EffectModel::KeepDecision(change.decision),
        at.seeding ==> forall|k: int|
            0 <= k < settled(alerts, change, at, fired).len() ==> !((#[trigger] settled(
                alerts,
                change,
                at,
                fired,
            )[k]) is Deliver),
        !at.backfills ==> forall|k: int|
            0 <= k < settled(alerts, change, at, fired).len() ==> !((#[trigger] settled(
                alerts,
                change,
                at,
                fired,
            )[k]) is KeepAlert),
{
}

/// A reversal that the store already holds is neither recorded nor delivered
/// again.
pub proof fn law_known_reversals_are_not_repeated(
    alerts: AlertEngineModel,
    change: ChangeModel,
    at: Moment,
    fired: FiredFacts,
)
    requires
        change.validation_event is Some,
        fired.group_symbol,
    ensures
        settled(alerts, change, at, fired).len() == 2,
{
}

/// The alerts that a divergence creates once a second candle is confirmed;
/// none where it has no candidate.
pub open spec fn confirmations(
    candidates: EngineModel,
    alerts: AlertEngineModel,
    smt: SmtModel,
    seeding: bool,
    known: Option<Seq<Seq<char>>>,
) -> Seq<AlertModel> {
    let at = position(candidates.entries, smt.id);
    if at < candidates.entries.len() {
        let c = candidates.entries[at].candidate;
        c2_created(alerts, c, smt, c.trade_symbols, seeding, known)
    } else {
        Seq::empty()
    }
}

/// Creates the alerts of a divergence whose second candle is confirmed.
pub fn confirm(
    candidates: &CandidateEngine,
    alerts: &AlertEngine,
    smt: &SmtDivergence,
    seeding: bool,
    known: Option<&Vec<String>>,
) -> (r: Vec<AlertRecord>)
    ensures
        r.deep_view() == confirmations(
            candidates@,
            alerts@,
            smt@,
            seeding,
            match known {
                Some(ids) => Some(ids.deep_view()),
                None => None,
            },
        ),
{
    match candidates.get_by_smt_id(smt.id.as_str()) {
        Some(c) => alerts.on_c2_confirmed(&c, smt, seeding, known),
        None => {
            let r: Vec<AlertRecord> = Vec::new();
            assert(r.deep_view() =~= Seq::<AlertModel>::empty());
            r
        },
    }
}

/// Identities of records.
pub open spec fn ids_of(records: Seq<AlertModel>) -> Seq<Seq<char>> {
    records.map_values(|a: AlertModel| a.id)
}

/// The alerts that are missing for a list of candidates, candidate by
/// candidate; each takes those of the earlier ones as known.
pub open spec fn missing_confirmations(
    alerts: AlertEngineModel,
    list: Seq<CandidateModel>,
    live: Seq<SmtModel>,
    kept: Seq<SmtModel>,
    known: Seq<Seq<char>>,
) -> Seq<AlertModel>
    decreases list.len(),
{
    if list.len() == 0 {
        Seq::empty()
    } else {
        let rest = missing_confirmations(alerts, list.drop_last(), live, kept, known);
        let c = list.last();
        match source_of(live, kept, c.smt_id) {
            Some(smt) => rest + c2_created(
                alerts,
                c,
                smt,
                c.trade_symbols,
                true,
                Some(known + ids_of(rest)),
            ),
            None => rest,
        }
    }
}

fn add_ids(known: &mut Vec<String>, records: &Vec<AlertRecord>)
    ensures
        final(known).deep_view() == old(known).deep_view() + ids_of(records.deep_view()),
{
    let ghost before = known.deep_view();
    let mut i: usize = 0;
    assert(known.deep_view() =~= before + ids_of(records.deep_view().take(0)));
    while i < records.len()
        invariant
            i <= records.len(),
            known.deep_view() == before + ids_of(records.deep_view().take(i as int)),
        decreases records.len() - i,
    {
        let ghost now = known.deep_view();
        known.push(records[i].id.clone());
        assert(known.deep_view() =~= now.push(records@[i as int]@.id));
        assert(known.deep_view() =~= before + ids_of(records.deep_view().take(i + 1)));
        i += 1;
    }
    assert(records.deep_view().take(i as int) =~= records.deep_view());
}

/// Ends a replay of candidates: creates the alerts of confirmed second candles
/// that are missing, without notifying anybody, and lets the alerts know the
/// statuses of candidates that they have not met. `kept` are the stored
/// divergences, `known` the identities of stored alerts.
pub fn restore_alerts(
    candidates: &CandidateEngine,
    alerts: &mut AlertEngine,
    live: &Vec<SmtDivergence>,
    kept: &Vec<SmtDivergence>,
    known: Vec<String>,
) -> (r: Vec<AlertRecord>)
    ensures
        r.deep_view() == missing_confirmations(
            old(alerts)@,
            candidates@.entries.map_values(|e: EntryModel| e.candidate),
            live.deep_view(),
            kept.deep_view(),
            known.deep_view(),
        ),
        final(alerts)@ == (AlertEngineModel {
            status: filled(old(alerts)@.status, active_candidates(candidates@.entries)),
            ..old(alerts)@
        }),
{
    let list = candidates.list_all();
    let ghost engine = alerts@;
    let ghost ids = known.deep_view();
    let mut known = known;
    let mut out: Vec<AlertRecord> = Vec::new();
    let mut i: usize = 0;
    assert(out.deep_view() =~= Seq::<AlertModel>::empty());
    assert(known.deep_view() =~= ids + ids_of(Seq::<AlertModel>::empty()));
    while i < list.len()
        invariant
            i <= list.len(),
            alerts@ == engine,
            out.deep_view() == missing_confirmations(
                engine,
                list.deep_view().take(i as int),
                live.deep_view(),
                kept.deep_view(),
                ids,
            ),
            known.deep_view() == ids + ids_of(out.deep_view()),
        decreases list.len() - i,
    {
        let ghost before = out.deep_view();
        proof {
            let now = list.deep_view().take(i + 1);
            assert(now.drop_last() =~= list.deep_view().take(i as int));
            assert(now.last() == list@[i as int]@);
        }
        match source_smt(live, kept, list[i].smt_id.as_str()) {
            Some(smt) => {
                let mut made = alerts.on_c2_confirmed(&list[i], smt, true, Some(&known));
                let ghost new = made.deep_view();
                add_ids(&mut known, &made);
                out.append(&mut made);
                assert(out.deep_view() =~= before + new);
                assert(known.deep_view() =~= ids + ids_of(out.deep_view()));
            },
            None => {},
        }
        i += 1;
    }
    assert(list.deep_view().take(i as int) =~= list.deep_view());
    let active = candidates.list_active();
    alerts.hydrate_missing(&active);
    out
}

/// No two records have the same identity.
pub open spec fn distinct_ids(records: Seq<AlertModel>) -> bool {
    forall|i: int, j: int|
        0 <= i < j < records.len() ==> (#[trigger] records[i]).id != (#[trigger] records[j]).id
}

/// No record has an identity of the list.
pub open spec fn none_known(records: Seq<AlertModel>, known: Seq<Seq<char>>) -> bool {
    forall|i: int| 0 <= i < records.len() ==> !known.contains((#[trigger] records[i]).id)
}

proof fn lemma_created_are_new(
    e: AlertEngineModel,
    c: CandidateModel,
    smt: SmtModel,
    symbols: Seq<Seq<char>>,
    seeding: bool,
    known: Seq<Seq<char>>,
)
    ensures
        distinct_ids(c2_created(e, c, smt, symbols, seeding, Some(known))),
        none_known(c2_created(e, c, smt, symbols, seeding, Some(known)), known),
    decreases symbols.len(),
{
    if symbols.len() > 0 {
        lemma_created_are_new(e, c, smt, symbols.drop_last(), seeding, known);
        let rest = c2_created(e, c, smt, symbols.drop_last(), seeding, Some(known));
        match c2_record(e, c, smt, symbols.last(), seeding) {
            Some(record) => {
                if !stored(Some(known), rest, record.id) {
                    let all = rest.push(record);
                    assert(!has_id(rest, record.id));
                    assert forall|i: int, j: int| 0 <= i < j < all.len() implies (
                    #[trigger] all[i]).id != (#[trigger] all[j]).id by {
                        assert(all[i] == rest[i]);
                    }
                }
            },
            None => {},
        }
    }
}

/// The alerts that a replay creates all differ from one another and from those
/// that were stored before.
pub proof fn law_restored_alerts_are_new(
    alerts: AlertEngineModel,
    list: Seq<CandidateModel>,
    live: Seq<SmtModel>,
    kept: Seq<SmtModel>,
    known: Seq<Seq<char>>,
)
    ensures
        distinct_ids(missing_confirmations(alerts, list, live, kept, known)),
        none_known(missing_confirmations(alerts, list, live, kept, known), known),
    decreases list.len(),
{
    if list.len() > 0 {
        law_restored_alerts_are_new(alerts, list.drop_last(), live, kept, known);
        let rest = missing_confirmations(alerts, list.drop_last(), live, kept, known);
        let c = list.last();
        match source_of(live, kept, c.smt_id) {
            Some(smt) => {
                let held = known + ids_of(rest);
                lemma_created_are_new(alerts, c, smt, c.trade_symbols, true, held);
                let new = c2_created(alerts, c, smt, c.trade_symbols, true, Some(held));
                let all = rest + new;
                assert forall|i: int, j: int| 0 <= i < j < all.len() implies (#[trigger] all[i]).id
                    != (#[trigger] all[j]).id by {
                    if i < rest.len() && j >= rest.len() {
                        assert(all[j] == new[j - rest.len()]);
                        assert(held[known.len() + i] == rest[i].id);
                    } else if i >= rest.len() {
                        assert(all[i] == new[i - rest.len()]);
                        assert(all[j] == new[j - rest.len()]);
                    }
                }
                assert forall|i: int| 0 <= i < all.len() implies !known.contains(
                    (#[trigger] all[i]).id,
                ) by {
                    if i >= rest.len() {
                        assert(all[i] == new[i - rest.len()]);
                        if known.contains(all[i].id) {
                            let k = choose|k: int| 0 <= k < known.len() && known[k] == all[i].id;
                            assert(held[k] == all[i].id);
                        }
                    }
                }
            },
            None => {},
        }
    }
}

} // verus!
