//! What a divergence event does to the candidates, how stored divergences get
//! their price areas back, and which reversals are recorded after the fact.
use vstd::prelude::*;
use crate::alert::records::{build_alert_for_validation, reversal_alert};
use crate::alert::types::{AlertModel, AlertRecord, ChannelKind};
use crate::candidate::engine::{
    ended_step, event_fits, event_smt, structure_step, CandidateEngine, EngineModel, EngineStep,
};
use crate::candidate::types::{CandidateChange, CandidateModel, CandidateSetup, ChangeModel};
use crate::detector::{
    Fvg, FvgModel, IctStructure, IctStructureModel, PdaRef, PdaRefModel, SmtDivergence, SmtModel,
    StructureEvent, StructureEventModel,
};
use crate::smt::public::{find_last_smt, last_smt};
use crate::text::{list_has, owned, text_eq};

verus! {

/// A divergence that ended, with the market time of its end.
#[derive(Debug)]
pub struct Ending {
    pub snapshot: SmtDivergence,
    pub market_ts: i64,
}

/// The candidates after an event: an ending takes effect at its market time,
/// any other event now.
pub open spec fn fed(s: EngineModel, event: StructureEventModel, ending: Option<(SmtModel, i64)>, now: i64) -> EngineStep {
    match ending {
        Some((snapshot, market_ts)) => ended_step(s, snapshot.id, Some(snapshot), market_ts),
        None => structure_step(s, event, now),
    }
}

/// The candidates' reaction to an event, and the time that it is stored with.
#[derive(Debug)]
pub struct Fed {
    pub changes: Vec<CandidateChange>,
    pub transition_ts: i64,
}

/// Hands an event to the candidates.
pub fn feed_candidates(
    candidates: &mut CandidateEngine,
    event: &StructureEvent,
    ending: &Option<Ending>,
    now: i64,
) -> (r: Fed)
    requires
        old(candidates)@.wf(),
        ending is None ==> event_fits(old(candidates)@, event@),
    ensures
        ({
            let end = match *ending {
                Some(e) => Some((e.snapshot@, e.market_ts)),
                None => None,
            };
            &&& final(candidates)@ == fed(old(candidates)@, event@, end, now).engine
            &&& r.changes.deep_view() == fed(old(candidates)@, event@, end, now).changes
        }),
        r.transition_ts == match *ending {
            Some(e) => e.market_ts,
            None => now,
        },
        final(candidates)@.wf(),
{
    match ending {
        Some(e) => {
            let changes = candidates.on_smt_invalidated_at(&e.snapshot, e.market_ts);
            Fed { changes, transition_ts: e.market_ts }
        },
        None => {
            let changes = candidates.on_smt_event(event, now);
            Fed { changes, transition_ts: now }
        },
    }
}

/// The divergence that an event carries: its confirmations are looked at even
/// where the candidates do not change.
pub fn alert_source(event: &StructureEvent) -> (r: Option<SmtDivergence>)
    ensures
        r.deep_view() == event_smt(event@),
{
    match event {
        StructureEvent::New(IctStructure::SmtDivergence(d)) => Some(d.clone()),
        StructureEvent::Update(IctStructure::SmtDivergence(d)) => Some(d.clone()),
        _ => None,
    }
}

/// The record of a reversal that was found after the fact: it goes to the
/// inbox alone, carries the time of the reversal, and is not written twice.
pub open spec fn late_record(change: ChangeModel, already_fired: bool) -> Option<AlertModel> {
    match change.validation_event {
        Some(v) => if already_fired {
            None
        } else {
            Some(reversal_alert(change.candidate, Some(v), v.ts, seq![ChannelKind::Inbox]))
        },
        None => None,
    }
}

/// Builds the record of a reversal that was found after the fact.
pub fn backfill_alert(change: &CandidateChange, already_fired: bool) -> (r: Option<AlertRecord>)
    ensures
        r.deep_view() == late_record(change@, already_fired),
{
    match &change.validation_event {
        Some(v) => {
            if already_fired {
                return None;
            }
            let mut channels: Vec<ChannelKind> = Vec::new();
            channels.push(ChannelKind::Inbox);
            assert(channels@ =~= seq![ChannelKind::Inbox]);
            Some(build_alert_for_validation(&change.candidate, Some(v), v.ts, channels))
        },
        None => None,
    }
}

/// A reversal that was found after the fact notifies nobody.
pub proof fn law_late_records_stay_in_the_inbox(change: ChangeModel, already_fired: bool)
    ensures
        late_record(change, already_fired) matches Some(a) ==> a.channels_fired
            == seq![ChannelKind::Inbox] && !already_fired,
        change.validation_event is None ==> late_record(change, already_fired) is None,
{
}

/// The divergence that a candidate came from: the live one where there is one,
/// else the stored row.
pub open spec fn source_of(live: Seq<SmtModel>, stored: Seq<SmtModel>, id: Seq<char>) -> Option<
    SmtModel,
> {
    match last_smt(live, id) {
        Some(d) => Some(d),
        None => last_smt(stored, id),
    }
}

/// Finds the divergence that a candidate came from.
pub fn source_smt<'a>(
    live: &'a Vec<SmtDivergence>,
    stored: &'a Vec<SmtDivergence>,
    id: &str,
) -> (r: Option<&'a SmtDivergence>)
    ensures
        r.deep_view() == source_of(live.deep_view(), stored.deep_view(), id@),
{
    match find_last_smt(live, id) {
        Some(d) => Some(d),
        None => find_last_smt(stored, id),
    }
}

/// The price area that the last candidate of a divergence with one recorded.
pub open spec fn recorded_area(candidates: Seq<CandidateModel>, smt_id: Seq<char>) -> Option<
    Seq<char>,
>
    decreases candidates.len(),
{
    if candidates.len() == 0 {
        None
    } else if candidates.last().smt_id == smt_id && candidates.last().context_pda_id is Some {
        candidates.last().context_pda_id
    } else {
        recorded_area(candidates.drop_last(), smt_id)
    }
}

fn find_recorded_area<'a>(candidates: &'a Vec<CandidateSetup>, smt_id: &str) -> (r: Option<
    &'a String,
>)
    ensures
        r.deep_view() == recorded_area(candidates.deep_view(), smt_id@),
{
    let mut i: usize = candidates.len();
    assert(candidates.deep_view().take(i as int) =~= candidates.deep_view());
    while i > 0
        invariant
            i <= candidates.len(),
            recorded_area(candidates.deep_view(), smt_id@) == recorded_area(
                candidates.deep_view().take(i as int),
                smt_id@,
            ),
        decreases i,
    {
        let ghost now = candidates.deep_view().take(i as int);
        i -= 1;
        proof {
            assert(now.last() == candidates@[i as int]@);
            assert(now.drop_last() =~= candidates.deep_view().take(i as int));
        }
        if text_eq(candidates[i].smt_id.as_str(), smt_id) {
            match &candidates[i].context_pda_id {
                Some(id) => {
                    return Some(id);
                },
                None => {},
            }
        }
    }
    None
}

/// A gap as a price area that nothing has left yet.
pub open spec fn area_of(gap: FvgModel) -> PdaRefModel {
    PdaRefModel {
        kind: "fvg"@,
        id: gap.id,
        tf: gap.tf,
        direction: gap.direction,
        price_low: gap.price_low,
        price_high: gap.price_high,
        ts_open: gap.ts_open,
        ts_confirm: gap.ts_confirm,
        exit_ts: None,
        ts_filled: gap.ts_filled,
    }
}

/// The last stored gap with an identity, as a price area.
pub open spec fn stored_area(structures: Seq<IctStructureModel>, id: Seq<char>) -> Option<
    PdaRefModel,
>
    decreases structures.len(),
{
    if structures.len() == 0 {
        None
    } else {
        match structures.last() {
            IctStructureModel::Fvg(gap) => if gap.id == id {
                Some(area_of(gap))
            } else {
                stored_area(structures.drop_last(), id)
            },
            _ => stored_area(structures.drop_last(), id),
        }
    }
}

fn find_stored_area(structures: &Vec<IctStructure>, id: &str) -> (r: Option<PdaRef>)
    ensures
        r.deep_view() == stored_area(structures.deep_view(), id@),
{
    let mut i: usize = structures.len();
    assert(structures.deep_view().take(i as int) =~= structures.deep_view());
    while i > 0
        invariant
            i <= structures.len(),
            stored_area(structures.deep_view(), id@) == stored_area(
                structures.deep_view().take(i as int),
                id@,
            ),
        decreases i,
    {
        let ghost now = structures.deep_view().take(i as int);
        i -= 1;
        proof {
            assert(now.last() == structures@[i as int]@);
            assert(now.drop_last() =~= structures.deep_view().take(i as int));
        }
        match &structures[i] {
            IctStructure::Fvg(gap) => {
                if text_eq(gap.id.as_str(), id) {
                    return Some(
                        PdaRef {
                            kind: owned("fvg"),
                            id: gap.id.clone(),
                            tf: gap.tf,
                            direction: gap.direction,
                            price_low: gap.price_low,
                            price_high: gap.price_high,
                            ts_open: gap.ts_open,
                            ts_confirm: gap.ts_confirm,
                            exit_ts: None,
                            ts_filled: gap.ts_filled,
                        },
                    );
                }
            },
            _ => {},
        }
    }
    None
}

/// The price area that a stored divergence gets back: only where it lost its
/// own, a candidate recorded one, and the gap is still stored.
pub open spec fn lost_area(
    smt: SmtModel,
    candidates: Seq<CandidateModel>,
    structures: Seq<IctStructureModel>,
) -> Option<PdaRefModel> {
    match (smt.htf_pda_ref, recorded_area(candidates, smt.id)) {
        (None, Some(id)) => stored_area(structures, id),
        _ => None,
    }
}

/// A stored divergence with its price area back.
pub open spec fn restored(
    smt: SmtModel,
    candidates: Seq<CandidateModel>,
    structures: Seq<IctStructureModel>,
) -> SmtModel {
    match lost_area(smt, candidates, structures) {
        Some(area) => SmtModel { htf_pda_ref: Some(area), ..smt },
        None => smt,
    }
}

/// Identities of the divergences that got a price area back.
pub open spec fn repaired_ids(
    smts: Seq<SmtModel>,
    candidates: Seq<CandidateModel>,
    structures: Seq<IctStructureModel>,
) -> Seq<Seq<char>>
    decreases smts.len(),
{
    if smts.len() == 0 {
        Seq::empty()
    } else {
        let rest = repaired_ids(smts.drop_last(), candidates, structures);
        if lost_area(smts.last(), candidates, structures) is Some {
            rest.push(smts.last().id)
        } else {
            rest
        }
    }
}

/// Stored divergences after the repair.
#[derive(Debug)]
pub struct Restored {
    pub smts: Vec<SmtDivergence>,
    pub repaired: Vec<String>,
}

/// Gives stored divergences their price areas back from what their candidates
/// recorded.
pub fn hydrate_smt(
    smts: &Vec<SmtDivergence>,
    candidates: &Vec<CandidateSetup>,
    structures: &Vec<IctStructure>,
) -> (r: Restored)
    ensures
        r.smts.deep_view() == Seq::new(
            smts.deep_view().len(),
            |i: int|
                restored(smts.deep_view()[i], candidates.deep_view(), structures.deep_view()),
        ),
        r.repaired.deep_view() == repaired_ids(
            smts.deep_view(),
            candidates.deep_view(),
            structures.deep_view(),
        ),
{
    let mut out: Vec<SmtDivergence> = Vec::new();
    let mut repaired: Vec<String> = Vec::new();
    let ghost cs = candidates.deep_view();
    let ghost ss = structures.deep_view();
    let ghost all = smts.deep_view();
    let mut i: usize = 0;
    assert(repaired.deep_view() =~= Seq::<Seq<char>>::empty());
    while i < smts.len()
        invariant
            i <= smts.len(),
            all == smts.deep_view(),
            cs == candidates.deep_view(),
            ss == structures.deep_view(),
            out.len() == i,
            forall|k: int| 0 <= k < i ==> (#[trigger] out@[k])@ == restored(all[k], cs, ss),
            repaired.deep_view() == repaired_ids(all.take(i as int), cs, ss),
        decreases smts.len() - i,
    {
        let ghost before = repaired.deep_view();
        proof {
            let now = all.take(i + 1);
            assert(now.drop_last() =~= all.take(i as int));
            assert(now.last() == smts@[i as int]@);
            assert(all[i as int] == smts@[i as int]@);
        }
        let mut one = smts[i].clone();
        if smts[i].htf_pda_ref.is_none() {
            match find_recorded_area(candidates, smts[i].id.as_str()) {
                Some(id) => {
                    match find_stored_area(structures, id.as_str()) {
                        Some(area) => {
                            one.htf_pda_ref = Some(area);
                            repaired.push(owned(smts[i].id.as_str()));
                            assert(repaired.deep_view() =~= before.push(all[i as int].id));
                        },
                        None => {},
                    }
                },
                None => {},
            }
        }
        assert(one@ == restored(all[i as int], cs, ss));
        out.push(one);
        i += 1;
    }
    assert(all.take(i as int) =~= all);
    assert(out.deep_view() =~= Seq::new(all.len(), |k: int| restored(all[k], cs, ss)));
    Restored { smts: out, repaired }
}

/// The divergences whose restored price area is written back: those that the
/// detector still accepts.
pub open spec fn to_persist(live: Seq<SmtModel>, repaired: Seq<Seq<char>>) -> Seq<SmtModel>
    decreases live.len(),
{
    if live.len() == 0 {
        Seq::empty()
    } else if repaired.contains(live.last().id) && live.last().htf_pda_ref is Some {
        to_persist(live.drop_last(), repaired).push(live.last())
    } else {
        to_persist(live.drop_last(), repaired)
    }
}

/// Selects the divergences whose restored price area is written back.
pub fn restored_to_persist(live: &Vec<SmtDivergence>, repaired: &Vec<String>) -> (r: Vec<
    SmtDivergence,
>)
    ensures
        r.deep_view() == to_persist(live.deep_view(), repaired.deep_view()),
{
    let mut out: Vec<SmtDivergence> = Vec::new();
    let mut i: usize = 0;
    assert(out.deep_view() =~= Seq::<SmtModel>::empty());
    while i < live.len()
        invariant
            i <= live.len(),
            out.deep_view() == to_persist(live.deep_view().take(i as int), repaired.deep_view()),
        decreases live.len() - i,
    {
        let ghost before = out.deep_view();
        proof {
            let now = live.deep_view().take(i + 1);
            assert(now.drop_last() =~= live.deep_view().take(i as int));
            assert(now.last() == live@[i as int]@);
        }
        if list_has(repaired, live[i].id.as_str()) && live[i].htf_pda_ref.is_some() {
            out.push(live[i].clone());
            assert(out.deep_view() =~= before.push(live@[i as int]@));
        }
        i += 1;
    }
    assert(live.deep_view().take(i as int) =~= live.deep_view());
    out
}

/// A price area that is there is never replaced, and the repair changes
/// nothing else.
pub proof fn law_known_areas_are_kept(
    smt: SmtModel,
    candidates: Seq<CandidateModel>,
    structures: Seq<IctStructureModel>,
)
    ensures
        smt.htf_pda_ref is Some ==> restored(smt, candidates, structures) == smt,
        restored(smt, candidates, structures) == (SmtModel {
            htf_pda_ref: restored(smt, candidates, structures).htf_pda_ref,
            ..smt
        }),
        restored(restored(smt, candidates, structures), candidates, structures) == restored(
            smt,
            candidates,
            structures,
        ),
{
}

} // verus!
