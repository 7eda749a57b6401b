//! What each fact about a candidate adds to its score, and what the log shows.
use vstd::prelude::*;
use crate::candidate::rules::{
    decision_of, diverges, effective_dir, evidence_of, known_by, score_of, status_words,
    strong_labels, EntryModel,
};
use crate::candidate::types::{CandidateModel, LtfEventModel, SetupStatus};
use crate::detector::{Correlation, Direction, LiquidityRefModel, SmtModel, StrengthLabelModel};
use crate::text::lemma_push_contains;

verus! {

/// A candidate that nothing speaks for.
pub open spec fn speechless(c: CandidateModel, smt: SmtModel) -> bool {
    &&& c.context_pda_id is None
    &&& c.c2_case == 0 || c.c2_case > 3
    &&& c.setup_status !is Validated
    &&& c.strength.len() == 0
    &&& smt.liquidity_refs.len() == 0
}

/// Nothing scores nothing, and no score goes below nothing or above the cap.
pub proof fn law_scores_start_at_nothing(c: CandidateModel, smt: SmtModel)
    ensures
        0 <= score_of(c, smt) <= 100,
        speechless(c, smt) ==> score_of(c, smt) == 0,
{
    reveal(score_of);
}

/// Below the cap, validation raises a score by thirty, and all other statuses
/// score alike.
pub proof fn law_validation_is_worth_thirty(
    c: CandidateModel,
    smt: SmtModel,
    status: SetupStatus,
    other: SetupStatus,
)
    requires
        status !is Validated,
        other !is Validated,
    ensures
        ({
            let with = score_of(CandidateModel { setup_status: SetupStatus::Validated, ..c }, smt);
            let without = score_of(CandidateModel { setup_status: status, ..c }, smt);
            &&& without + 30 <= 100 ==> with == without + 30
            &&& without + 30 > 100 ==> with == 100
            &&& without == score_of(CandidateModel { setup_status: other, ..c }, smt)
        }),
{
    reveal(score_of);
}

/// Below the cap, a price area raises a score by twenty, whichever it is.
pub proof fn law_a_price_area_is_worth_twenty(c: CandidateModel, smt: SmtModel, pda: Seq<char>)
    ensures
        ({
            let with = score_of(CandidateModel { context_pda_id: Some(pda), ..c }, smt);
            let without = score_of(CandidateModel { context_pda_id: None, ..c }, smt);
            &&& without + 20 <= 100 ==> with == without + 20
            &&& without + 20 > 100 ==> with == 100
        }),
{
    reveal(score_of);
}

/// Below the cap, the first case of the second candle raises a score by fifteen,
/// the second by ten, the third by five, and no other by anything.
pub proof fn law_cases_are_worth_less_in_turn(c: CandidateModel, smt: SmtModel, other: u8)
    requires
        other == 0 || other > 3,
    ensures
        ({
            let none = score_of(CandidateModel { c2_case: other, ..c }, smt);
            let first = score_of(CandidateModel { c2_case: 1, ..c }, smt);
            let second = score_of(CandidateModel { c2_case: 2, ..c }, smt);
            let third = score_of(CandidateModel { c2_case: 3, ..c }, smt);
            &&& none + 15 <= 100 ==> first == none + 15 && second == none + 10 && third == none + 5
            &&& none <= third <= second <= first
        }),
{
    reveal(score_of);
}

/// Below the cap, a label that says `strong` raises a score by ten and any other
/// label by nothing, wherever it stands.
pub proof fn law_a_strong_label_is_worth_ten(
    c: CandidateModel,
    smt: SmtModel,
    a: Seq<StrengthLabelModel>,
    label: StrengthLabelModel,
    b: Seq<StrengthLabelModel>,
)
    ensures
        ({
            let with = score_of(CandidateModel { strength: a + seq![label] + b, ..c }, smt);
            let without = score_of(CandidateModel { strength: a + b, ..c }, smt);
            &&& label.label != "strong"@ ==> with == without
            &&& label.label == "strong"@ && without + 10 <= 100 ==> with == without + 10
            &&& label.label == "strong"@ && without + 10 > 100 ==> with == 100
        }),
{
    reveal(score_of);
    lemma_labels_add_up(a, b);
    lemma_labels_add_up(a, seq![label]);
    lemma_labels_add_up(a + seq![label], b);
    assert(seq![label].drop_last() =~= Seq::<StrengthLabelModel>::empty());
    reveal_with_fuel(strong_labels, 2);
}

proof fn lemma_labels_add_up(a: Seq<StrengthLabelModel>, b: Seq<StrengthLabelModel>)
    ensures
        strong_labels(a + b) == strong_labels(a) + strong_labels(b),
    decreases b.len(),
{
    if b.len() == 0 {
        assert(a + b =~= a);
    } else {
        assert((a + b).drop_last() =~= a + b.drop_last());
        lemma_labels_add_up(a, b.drop_last());
    }
}

/// Below the cap, a level that was not taken raises a score by five, once.
pub proof fn law_an_untaken_level_is_worth_five(
    c: CandidateModel,
    smt: SmtModel,
    refs: Seq<LiquidityRefModel>,
    level: LiquidityRefModel,
)
    requires
        forall|i: int| 0 <= i < refs.len() ==> (#[trigger] refs[i]).status is Swept,
    ensures
        ({
            let taken = score_of(c, SmtModel { liquidity_refs: refs, ..smt });
            let more = score_of(c, SmtModel { liquidity_refs: refs.push(level), ..smt });
            &&& level.status is Swept ==> more == taken
            &&& level.status !is Swept && taken + 5 <= 100 ==> more == taken + 5
            &&& level.status !is Swept && taken + 5 > 100 ==> more == 100
            &&& forall|extra: LiquidityRefModel|
                level.status !is Swept ==> #[trigger] score_of(
                    c,
                    SmtModel { liquidity_refs: refs.push(level).push(extra), ..smt },
                ) == more
        }),
{
    reveal(score_of);
    let more = refs.push(level);
    if level.status !is Swept {
        assert(more[refs.len() as int].status !is Swept);
        assert forall|extra: LiquidityRefModel| #[trigger]
            score_of(c, SmtModel { liquidity_refs: more.push(extra), ..smt }) == score_of(
                c,
                SmtModel { liquidity_refs: more, ..smt },
            ) by {
            assert(more.push(extra)[refs.len() as int].status !is Swept);
            assert(diverges(more.push(extra)));
        }
        assert(diverges(more));
    }
    assert(!diverges(refs));
}

/// A member that moves against the sweeper turns the direction round; the
/// sweeper itself, and every member that moves with it, keep it.
pub proof fn law_opposite_members_turn_the_direction(
    symbol: Seq<char>,
    sweeper: Seq<char>,
    dir: Direction,
)
    ensures
        effective_dir(dir, sweeper, sweeper, Correlation::Negative) == dir,
        effective_dir(dir, symbol, sweeper, Correlation::Positive) == dir,
        symbol != sweeper ==> effective_dir(dir, symbol, sweeper, Correlation::Negative) != dir,
{
}

/// The evidence holds every collected reversal up to its time, in order, and
/// says whose it is.
pub proof fn law_evidence_is_complete(e: EntryModel, ts: i64, ev: LtfEventModel)
    ensures
        evidence_of(e, ts).ltf_cisd_mss.contains(ev) == (e.ltf_events.contains(ev) && ev.ts <= ts),
        evidence_of(e, ts).candidate == e.candidate,
        evidence_of(e, ts).candidate_id == e.candidate.id,
        evidence_of(e, ts).smt == e.smt_snapshot,
        evidence_of(e, ts).as_of_ts == ts,
        decision_of(e, ts).created_at == ts,
        decision_of(e, ts).candidate_id == e.candidate.id,
        decision_of(e, ts).watchlist_id == e.candidate.watchlist_id,
        decision_of(e, ts).request == evidence_of(e, ts),
        decision_of(e, ts).parse_ok,
        decision_of(e, ts).parsed_decision.validated == (e.candidate.setup_status is Validated),
        decision_of(e, ts).parsed_decision.deterministic_score == e.candidate.deterministic_score,
        decision_of(e, ts).parsed_decision.validations == e.candidate.validations,
        decision_of(e, ts).parsed_decision.invalidated_symbols == e.candidate.invalidated_symbols,
{
    reveal(decision_of);
    lemma_known_by_holds(e.ltf_events, ts, ev);
}

proof fn lemma_known_by_holds(events: Seq<LtfEventModel>, ts: i64, ev: LtfEventModel)
    ensures
        known_by(events, ts).contains(ev) == (events.contains(ev) && ev.ts <= ts),
    decreases events.len(),
{
    if events.len() > 0 {
        let rest = events.drop_last();
        lemma_known_by_holds(rest, ts, ev);
        assert(events =~= rest.push(events.last()));
        lemma_push_contains(rest, events.last(), ev);
        lemma_push_contains(known_by(rest, ts), events.last(), ev);
    }
}

/// Every status has a name of its own in the log.
pub proof fn law_statuses_have_their_own_names(a: SetupStatus, b: SetupStatus)
    ensures
        status_words(a) == status_words(b) ==> a == b,
{
    reveal_strlit("c2confirmed");
    reveal_strlit("validated");
    reveal_strlit("recheck");
    reveal_strlit("expired");
    reveal_strlit("invalidated");
    if a != b {
        let x = status_words(a);
        let y = status_words(b);
        if x.len() == y.len() {
            assert(x[0] != y[0]);
        }
    }
}

} // verus!
