//! One divergence event as a whole: the candidates take it, their changes are
//! settled in order, and the confirmations of its divergence are looked at.
use vstd::prelude::*;
use crate::alert::engine::{after_change, AlertEngine, AlertEngineModel, FiredFacts};
use crate::alert::types::{AlertModel, AlertRecord};
use crate::candidate::engine::{event_fits, event_smt, CandidateEngine, EngineModel};
use crate::candidate::types::{CandidateChange, ChangeModel};
use crate::detector::{SmtDivergence, SmtModel, StructureEvent, StructureEventModel};
use crate::smt::feed::{alert_source, fed, feed_candidates, Ending};
use crate::smt::reactions::{
    confirm, confirmations, law_history_delivers_nothing, settle_change, settled, Effect,
    EffectModel, Moment,
};

verus! {

/// An event that the candidates have taken and whose changes are not all settled yet.
pub struct EventRun {
    rest: Vec<CandidateChange>,
    source: Option<SmtDivergence>,
    at: Moment,
}

/// Mathematical content of an [`EventRun`].
pub struct EventRunModel {
    /// Changes that are still to be settled, in order.
    pub pending: Seq<ChangeModel>,
    /// The divergence that the event carries.
    pub source: Option<SmtModel>,
    pub at: Moment,
}

impl View for EventRun {
    type V = EventRunModel;

    closed spec fn view(&self) -> EventRunModel {
        EventRunModel {
            pending: self.rest.deep_view(),
            source: self.source.deep_view(),
            at: self.at,
        }
    }
}

/// The moment of an event: an ending is stored with its market time, everything else
/// with the present; missed reversals are none of its business.
pub open spec fn moment_of(ending: Option<(SmtModel, i64)>, now: i64, historical: bool) -> Moment {
    Moment {
        transition_ts: match ending {
            Some(e) => e.1,
            None => now,
        },
        now,
        seeding: historical,
        backfills: false,
    }
}

/// The run of an event once the candidates have taken it.
pub open spec fn begun(
    candidates: EngineModel,
    event: StructureEventModel,
    ending: Option<(SmtModel, i64)>,
    now: i64,
    historical: bool,
) -> EventRunModel {
    EventRunModel {
        pending: fed(candidates, event, ending, now).changes,
        source: event_smt(event),
        at: moment_of(ending, now, historical),
    }
}

/// The run with its first change settled.
pub open spec fn after_one(run: EventRunModel) -> EventRunModel {
    EventRunModel { pending: run.pending.drop_first(), ..run }
}

/// The alerts that confirm the event's divergence, by the candidates and alerts as they
/// are then; none for an event without a divergence.
pub open spec fn created_by(
    run: EventRunModel,
    candidates: EngineModel,
    alerts: AlertEngineModel,
    known: Option<Seq<Seq<char>>>,
) -> Seq<AlertModel> {
    match run.source {
        Some(smt) => confirmations(candidates, alerts, smt, run.at.seeding, known),
        None => Seq::empty(),
    }
}

/// Confirmations of an event, and whether a model decides on each of them.
#[derive(Debug)]
pub struct Confirmed {
    pub created: Vec<AlertRecord>,
    pub asks_model: bool,
}

impl EventRun {
    /// Lets the candidates take an event.
    pub fn begin(
        candidates: &mut CandidateEngine,
        event: &StructureEvent,
        ending: &Option<Ending>,
        now: i64,
        historical: bool,
    ) -> (r: Self)
        requires
            old(candidates)@.wf(),
            ending is None ==> event_fits(old(candidates)@, event@),
        ensures
            ({
                let end = match *ending {
                    Some(e) => Some((e.snapshot@, e.market_ts)),
                    None => None,
                };
                &&& r@ == begun(old(candidates)@, event@, end, now, historical)
                &&& final(candidates)@ == fed(old(candidates)@, event@, end, now).engine
            }),
            final(candidates)@.wf(),
    {
        let fed = feed_candidates(candidates, event, ending, now);
        let at = Moment {
            transition_ts: fed.transition_ts,
            now,
            seeding: historical,
            backfills: false,
        };
        EventRun { rest: fed.changes, source: alert_source(event), at }
    }

    /// The change to settle next.
    pub fn next(&self) -> (r: Option<&CandidateChange>)
        ensures
            r is None <==> self@.pending.len() == 0,
            r matches Some(c) ==> c@ == self@.pending[0],
    {
        if self.rest.len() == 0 {
            None
        } else {
            assert(self.rest.deep_view()[0] == self.rest@[0]@);
            Some(&self.rest[0])
        }
    }

    /// Decides what is done about the next change. `fired` is what the alert store knows
    /// when its turn has come.
    pub fn settle(&mut self, alerts: &mut AlertEngine, fired: FiredFacts) -> (r: Vec<Effect>)
        requires
            old(self)@.pending.len() > 0,
        ensures
            final(self)@ == after_one(old(self)@),
            r.deep_view() == settled(old(alerts)@, old(self)@.pending[0], old(self)@.at, fired),
            final(alerts)@ == after_change(
                old(alerts)@,
                old(self)@.pending[0],
                old(self)@.at.now,
                old(self)@.at.seeding,
                fired,
            ),
    {
        let ghost before = self.rest.deep_view();
        let change = self.rest.remove(0);
        assert(change@ == before[0]);
        assert(self.rest.deep_view() =~= before.drop_first());
        settle_change(alerts, change, self.at, fired)
    }

    /// Creates the confirmations of the event's divergence, once every change is settled.
    /// `known` are the identities in the alert store, `has_model` says whether a model
    /// decides on confirmations.
    pub fn finish(
        self,
        candidates: &CandidateEngine,
        alerts: &AlertEngine,
        known: Option<&Vec<String>>,
        has_model: bool,
    ) -> (r: Confirmed)
        requires
            self@.pending.len() == 0,
        ensures
            r.created.deep_view() == created_by(
                self@,
                candidates@,
                alerts@,
                match known {
                    Some(ids) => Some(ids.deep_view()),
                    None => None,
                },
            ),
            r.asks_model == (has_model && !self@.at.seeding),
    {
        let created = match &self.source {
            Some(smt) => confirm(candidates, alerts, smt, self.at.seeding, known),
            None => {
                let none: Vec<AlertRecord> = Vec::new();
                assert(none.deep_view() =~= Seq::<AlertModel>::empty());
                none
            },
        };
        Confirmed { created, asks_model: has_model && !self.at.seeding }
    }
}

/// What is done about a list of changes, one after the other, each by the alerts that the
/// one before it left. `facts` is what the store knew in turn.
pub open spec fn settled_all(
    alerts: AlertEngineModel,
    changes: Seq<ChangeModel>,
    at: Moment,
    facts: Seq<FiredFacts>,
) -> Seq<EffectModel>
    decreases changes.len(),
{
    if changes.len() == 0 {
        Seq::empty()
    } else {
        let k = changes.len() - 1;
        settled_all(alerts, changes.drop_last(), at, facts) + settled(
            alerts_after(alerts, changes.drop_last(), at, facts),
            changes.last(),
            at,
            facts[k],
        )
    }
}

/// The alerts after a list of changes.
pub open spec fn alerts_after(
    alerts: AlertEngineModel,
    changes: Seq<ChangeModel>,
    at: Moment,
    facts: Seq<FiredFacts>,
) -> AlertEngineModel
    decreases changes.len(),
{
    if changes.len() == 0 {
        alerts
    } else {
        after_change(
            alerts_after(alerts, changes.drop_last(), at, facts),
            changes.last(),
            at.now,
            at.seeding,
            facts[changes.len() - 1],
        )
    }
}

/// What one event leads to as a whole.
pub struct EventOutcome {
    pub candidates: EngineModel,
    pub alerts: AlertEngineModel,
    /// What is stored, recorded and delivered about changes, in order.
    pub effects: Seq<EffectModel>,
    /// Confirmations that are created behind that.
    pub created: Seq<AlertModel>,
    /// Confirmations that a model decides on.
    pub decided: Seq<AlertModel>,
}

/// One divergence event as a whole: the candidates take it, the changes are settled in
/// order, and the confirmations come from the candidates and alerts as they are then, also
/// where nothing changed. A model decides on them unless history is rebuilt.
pub open spec fn event_outcome(
    candidates: EngineModel,
    alerts: AlertEngineModel,
    event: StructureEventModel,
    ending: Option<(SmtModel, i64)>,
    now: i64,
    historical: bool,
    facts: Seq<FiredFacts>,
    known: Option<Seq<Seq<char>>>,
    has_model: bool,
) -> EventOutcome {
    let step = fed(candidates, event, ending, now);
    let at = moment_of(ending, now, historical);
    let left = alerts_after(alerts, step.changes, at, facts);
    let created = match event_smt(event) {
        Some(smt) => confirmations(step.engine, left, smt, historical, known),
        None => Seq::empty(),
    };
    EventOutcome {
        candidates: step.engine,
        alerts: left,
        effects: settled_all(alerts, step.changes, at, facts),
        created,
        decided: if has_model && !historical {
            created
        } else {
            Seq::empty()
        },
    }
}

/// The effects of the remaining changes of a run, and the alerts that they leave.
pub open spec fn drained(
    run: EventRunModel,
    alerts: AlertEngineModel,
    facts: Seq<FiredFacts>,
) -> (Seq<EffectModel>, AlertEngineModel)
    decreases run.pending.len(),
{
    if run.pending.len() == 0 {
        (Seq::empty(), alerts)
    } else {
        let first = settled(alerts, run.pending[0], run.at, facts[0]);
        let left = after_change(
            alerts,
            run.pending[0],
            run.at.now,
            run.at.seeding,
            facts[0],
        );
        let more = drained(after_one(run), left, facts.drop_first());
        (first + more.0, more.1)
    }
}

proof fn lemma_first_then_rest(
    alerts: AlertEngineModel,
    changes: Seq<ChangeModel>,
    at: Moment,
    facts: Seq<FiredFacts>,
)
    requires
        0 < changes.len() <= facts.len(),
    ensures
        ({
            let left = after_change(alerts, changes[0], at.now, at.seeding, facts[0]);
            let rest = changes.drop_first();
            &&& settled_all(alerts, changes, at, facts) == settled(alerts, changes[0], at, facts[0])
                + settled_all(left, rest, at, facts.drop_first())
            &&& alerts_after(alerts, changes, at, facts) == alerts_after(
                left,
                rest,
                at,
                facts.drop_first(),
            )
        }),
    decreases changes.len(),
{
    let left = after_change(alerts, changes[0], at.now, at.seeding, facts[0]);
    let rest = changes.drop_first();
    let more = facts.drop_first();
    let first = settled(alerts, changes[0], at, facts[0]);
    if changes.len() == 1 {
        assert(changes.drop_last() =~= Seq::<ChangeModel>::empty());
        assert(settled_all(alerts, changes.drop_last(), at, facts) =~= Seq::<EffectModel>::empty());
        assert(alerts_after(alerts, changes.drop_last(), at, facts) == alerts);
        assert(rest =~= Seq::<ChangeModel>::empty());
        assert(settled_all(alerts, changes, at, facts) =~= first + settled_all(
            left,
            rest,
            at,
            more,
        ));
    } else {
        lemma_first_then_rest(alerts, changes.drop_last(), at, facts);
        assert(changes.drop_last()[0] == changes[0]);
        assert(changes.drop_last().drop_first() =~= rest.drop_last());
        assert(rest.last() == changes.last());
        assert(more[rest.len() - 1] == facts[changes.len() - 1]);
        let a = settled_all(left, rest.drop_last(), at, more);
        let b = settled(
            alerts_after(left, rest.drop_last(), at, more),
            rest.last(),
            at,
            more[rest.len() - 1],
        );
        assert((first + a) + b =~= first + (a + b));
    }
}

proof fn lemma_drained(run: EventRunModel, alerts: AlertEngineModel, facts: Seq<FiredFacts>)
    requires
        run.pending.len() <= facts.len(),
    ensures
        drained(run, alerts, facts) == (
            settled_all(alerts, run.pending, run.at, facts),
            alerts_after(alerts, run.pending, run.at, facts),
        ),
    decreases run.pending.len(),
{
    if run.pending.len() > 0 {
        lemma_first_then_rest(alerts, run.pending, run.at, facts);
        let left = after_change(
            alerts,
            run.pending[0],
            run.at.now,
            run.at.seeding,
            facts[0],
        );
        lemma_drained(after_one(run), left, facts.drop_first());
    }
}

/// A run that is begun, settled change by change and finished does what
/// [`event_outcome`] says of the event as a whole, whatever the store knew in turn.
pub proof fn law_a_run_does_the_whole_event(
    candidates: EngineModel,
    alerts: AlertEngineModel,
    event: StructureEventModel,
    ending: Option<(SmtModel, i64)>,
    now: i64,
    historical: bool,
    facts: Seq<FiredFacts>,
    known: Option<Seq<Seq<char>>>,
    has_model: bool,
)
    requires
        fed(candidates, event, ending, now).changes.len() <= facts.len(),
    ensures
        ({
            let run = begun(candidates, event, ending, now, historical);
            let whole = event_outcome(
                candidates,
                alerts,
                event,
                ending,
                now,
                historical,
                facts,
                known,
                has_model,
            );
            &&& drained(run, alerts, facts) == (whole.effects, whole.alerts)
            &&& created_by(run, whole.candidates, whole.alerts, known) == whole.created
        }),
{
    lemma_drained(begun(candidates, event, ending, now, historical), alerts, facts);
}

proof fn lemma_nothing_delivered(
    alerts: AlertEngineModel,
    changes: Seq<ChangeModel>,
    at: Moment,
    facts: Seq<FiredFacts>,
)
    requires
        at.seeding,
    ensures
        forall|k: int|
            0 <= k < settled_all(alerts, changes, at, facts).len() ==> !(#[trigger] settled_all(
                alerts,
                changes,
                at,
                facts,
            )[k] is Deliver),
    decreases changes.len(),
{
    if changes.len() > 0 {
        let rest = changes.drop_last();
        lemma_nothing_delivered(alerts, rest, at, facts);
        let left = alerts_after(alerts, rest, at, facts);
        law_history_delivers_nothing(left, changes.last(), at, facts[changes.len() - 1]);
        let a = settled_all(alerts, rest, at, facts);
        let b = settled(left, changes.last(), at, facts[changes.len() - 1]);
        assert forall|k: int| 0 <= k < (a + b).len() implies !(#[trigger] (a + b)[k] is Deliver) by {
            if k < a.len() {
                assert((a + b)[k] == a[k]);
            } else {
                assert((a + b)[k] == b[k - a.len()]);
            }
        }
    }
}

/// Of an event in history that is rebuilt no change is delivered, and no model decides on
/// a confirmation.
pub proof fn law_rebuilt_history_asks_nobody(
    candidates: EngineModel,
    alerts: AlertEngineModel,
    event: StructureEventModel,
    ending: Option<(SmtModel, i64)>,
    now: i64,
    facts: Seq<FiredFacts>,
    known: Option<Seq<Seq<char>>>,
    has_model: bool,
)
    ensures
        ({
            let whole = event_outcome(
                candidates,
                alerts,
                event,
                ending,
                now,
                true,
                facts,
                known,
                has_model,
            );
            &&& whole.decided.len() == 0
            &&& forall|k: int|
                0 <= k < whole.effects.len() ==> !(#[trigger] whole.effects[k] is Deliver)
        }),
{
    lemma_nothing_delivered(
        alerts,
        fed(candidates, event, ending, now).changes,
        moment_of(ending, now, true),
        facts,
    );
}

/// An event that changes no candidate still has its confirmations looked at, by the same
/// candidates and alerts as before.
pub proof fn law_confirmations_need_no_change(
    candidates: EngineModel,
    alerts: AlertEngineModel,
    event: StructureEventModel,
    smt: SmtModel,
    now: i64,
    historical: bool,
    facts: Seq<FiredFacts>,
    known: Option<Seq<Seq<char>>>,
    has_model: bool,
)
    requires
        event_smt(event) == Some(smt),
        fed(candidates, event, None, now).changes.len() == 0,
    ensures
        ({
            let whole = event_outcome(
                candidates,
                alerts,
                event,
                None,
                now,
                historical,
                facts,
                known,
                has_model,
            );
            &&& whole.effects.len() == 0
            &&& whole.alerts == alerts
            &&& whole.created == confirmations(whole.candidates, alerts, smt, historical, known)
        }),
{
}

} // verus!
