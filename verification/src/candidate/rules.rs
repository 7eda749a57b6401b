//! The rules that a single candidate follows.
use vstd::prelude::*;
use crate::candidate::types::{
    CandidateChange, CandidateModel, CandidateSetup, ChangeModel, DecisionLogEntry, DecisionMode,
    DecisionModel, DecisionRecord, DecisionRecordModel, EvidenceModel, LtfEventModel, LtfEventRef,
    PackedEvidence, ParsedDecision, ParsedDecisionModel, SetupStatus, SymbolValidation,
    ValidationModel,
};
use crate::detector::{
    Correlation, Direction, LiquidityRef, LiquidityRefModel, LiquidityRefStatus,
    ReversalConfirmKind, SmtDetectionState, SmtDivergence, SmtModel, StrengthLabel,
    StrengthLabelModel, SymbolChain, SymbolChainModel,
};
use crate::identity::{structure_id, structure_id_of};
use crate::text::{decimal, decimal_text, join, joined, lemma_push_contains, owned, text_eq};
use crate::types::{duration, clamped, saturating_sum, BarModel};

verus! {

/// Version of the candidate rules.
pub const CANDIDATE_RULE_VERSION: &'static str = "m6a.v1";

/// The opposite direction.
pub open spec fn flipped(dir: Direction) -> Direction {
    match dir {
        Direction::Bullish => Direction::Bearish,
        Direction::Bearish => Direction::Bullish,
    }
}

/// Direction that a reversal of an instrument needs to agree with a candidate:
/// inverse for a member that moves against the sweeper.
pub open spec fn effective_dir(
    dir: Direction,
    symbol: Seq<char>,
    sweeper: Seq<char>,
    relationship: Correlation,
) -> Direction {
    if symbol != sweeper && relationship is Negative {
        flipped(dir)
    } else {
        dir
    }
}

/// Direction that a reversal of `symbol` needs to agree with a candidate.
pub fn effective_ltf_dir(
    candidate_dir: Direction,
    symbol: &str,
    sweeper_symbol: &str,
    relationship: Correlation,
) -> (r: Direction)
    ensures
        r == effective_dir(candidate_dir, symbol@, sweeper_symbol@, relationship),
{
    if text_eq(symbol, sweeper_symbol) {
        candidate_dir
    } else {
        match relationship {
            Correlation::Negative => match candidate_dir {
                Direction::Bullish => Direction::Bearish,
                Direction::Bearish => Direction::Bullish,
            },
            Correlation::Positive => candidate_dir,
        }
    }
}

/// Taking the effective direction twice gives the direction back.
pub proof fn law_effective_direction_is_an_involution(
    dir: Direction,
    symbol: Seq<char>,
    sweeper: Seq<char>,
    relationship: Correlation,
)
    ensures
        effective_dir(
            effective_dir(dir, symbol, sweeper, relationship),
            symbol,
            sweeper,
            relationship,
        ) == dir,
{
}

/// The list without every occurrence of one text.
pub open spec fn without(list: Seq<Seq<char>>, one: Seq<char>) -> Seq<Seq<char>>
    decreases list.len(),
{
    if list.len() == 0 {
        Seq::empty()
    } else if list.last() == one {
        without(list.drop_last(), one)
    } else {
        without(list.drop_last(), one).push(list.last())
    }
}

/// The list without one text holds every other text that the list holds.
pub proof fn lemma_without(list: Seq<Seq<char>>, one: Seq<char>, s: Seq<char>)
    ensures
        without(list, one).contains(s) == (list.contains(s) && s != one),
    decreases list.len(),
{
    if list.len() > 0 {
        let rest = without(list.drop_last(), one);
        lemma_without(list.drop_last(), one, s);
        assert(list =~= list.drop_last().push(list.last()));
        lemma_push_contains(list.drop_last(), list.last(), s);
        lemma_push_contains(rest, list.last(), s);
    }
}

/// Every member of the group but the sweeper is executable.
pub open spec fn executable(smt: SmtModel) -> Seq<Seq<char>> {
    without(smt.symbol_set, smt.sweeper_symbol)
}

/// The executable members of a divergence, in group order.
pub fn executable_symbols(smt: &SmtDivergence) -> (r: Vec<String>)
    ensures
        r.deep_view() == executable(smt@),
{
    let mut out: Vec<String> = Vec::new();
    let mut i: usize = 0;
    assert(out.deep_view() =~= Seq::<Seq<char>>::empty());
    while i < smt.symbol_set.len()
        invariant
            i <= smt.symbol_set.len(),
            out.deep_view() == without(
                smt.symbol_set.deep_view().take(i as int),
                smt.sweeper_symbol@,
            ),
        decreases smt.symbol_set.len() - i,
    {
        let ghost before = out.deep_view();
        if !text_eq(smt.symbol_set[i].as_str(), smt.sweeper_symbol.as_str()) {
            out.push(smt.symbol_set[i].clone());
            assert(out.deep_view() =~= before.push(smt.symbol_set@[i as int]@));
        }
        proof {
            let now = smt.symbol_set.deep_view().take(i + 1);
            assert(now.drop_last() =~= smt.symbol_set.deep_view().take(i as int));
            assert(now.last() == smt.symbol_set@[i as int]@);
        }
        i += 1;
    }
    assert(smt.symbol_set.deep_view().take(i as int) =~= smt.symbol_set.deep_view());
    out
}

/// First chain of an instrument.
pub open spec fn first_chain(chains: Seq<SymbolChainModel>, symbol: Seq<char>) -> Option<
    SymbolChainModel,
>
    decreases chains.len(),
{
    if chains.len() == 0 {
        None
    } else if chains[0].symbol == symbol {
        Some(chains[0])
    } else {
        first_chain(chains.drop_first(), symbol)
    }
}

/// Finds the first chain of an instrument.
pub fn find_chain<'a>(chains: &'a Vec<SymbolChain>, symbol: &str) -> (r: Option<&'a SymbolChain>)
    ensures
        r.deep_view() == first_chain(chains.deep_view(), symbol@),
{
    let mut i: usize = 0;
    assert(chains.deep_view().skip(0) =~= chains.deep_view());
    while i < chains.len()
        invariant
            i <= chains.len(),
            first_chain(chains.deep_view(), symbol@) == first_chain(
                chains.deep_view().skip(i as int),
                symbol@,
            ),
        decreases chains.len() - i,
    {
        assert(chains.deep_view().skip(i as int)[0] == chains@[i as int]@);
        if text_eq(chains[i].symbol.as_str(), symbol) {
            return Some(&chains[i]);
        }
        assert(chains.deep_view().skip(i as int).drop_first() =~= chains.deep_view().skip(i + 1));
        i += 1;
    }
    None
}

/// Chain of the sweeper.
pub open spec fn sweeper_chain_of(smt: SmtModel) -> Option<SymbolChainModel> {
    first_chain(smt.chains, smt.sweeper_symbol)
}

/// The chain of the sweeper.
pub fn sweeper_chain(smt: &SmtDivergence) -> (r: Option<&SymbolChain>)
    ensures
        r.deep_view() == sweeper_chain_of(smt@),
{
    find_chain(&smt.chains, smt.sweeper_symbol.as_str())
}

/// Detection state of the sweeper.
pub open spec fn sweeper_state_of(smt: SmtModel) -> Option<SmtDetectionState> {
    match sweeper_chain_of(smt) {
        Some(c) => Some(c.detection_state),
        None => None,
    }
}

/// How far the sweeper has come.
pub fn sweeper_detection_state(smt: &SmtDivergence) -> (r: Option<SmtDetectionState>)
    ensures
        r == sweeper_state_of(smt@),
{
    match sweeper_chain(smt) {
        Some(c) => Some(c.detection_state),
        None => None,
    }
}

/// When reversals of an instrument count: from its second candle up to the end
/// of its third, or of its second while there is no third. The middle value is
/// the open of the third candle.
#[verifier::opaque]
pub open spec fn validation_window(smt: SmtModel, symbol: Seq<char>) -> Option<
    (i64, Option<i64>, i64),
> {
    match first_chain(smt.chains, symbol) {
        None => None,
        Some(chain) => if chain.detection_state is Invalidated {
            None
        } else {
            match chain.c2_candle {
                None => None,
                Some(c2) => {
                    let c3: Option<i64> = match chain.c3_candle {
                        Some(c) => Some(c.ts),
                        None => None,
                    };
                    let last = match c3 {
                        Some(ts) => ts,
                        None => c2.ts,
                    };
                    Some((c2.ts, c3, clamped(last + duration(smt.comparison_timeframe)) as i64))
                },
            }
        },
    }
}

/// When reversals of `symbol` count.
pub fn symbol_validation_window(smt: &SmtDivergence, symbol: &str) -> (r: Option<
    (i64, Option<i64>, i64),
>)
    ensures
        r == validation_window(smt@, symbol@),
{
    proof {
        reveal(validation_window);
    }
    let chain = match find_chain(&smt.chains, symbol) {
        Some(c) => c,
        None => {
            return None;
        },
    };
    match chain.detection_state {
        SmtDetectionState::Invalidated => {
            return None;
        },
        _ => {},
    }
    match chain.c2_candle {
        None => None,
        Some(c2) => {
            let c3: Option<i64> = match chain.c3_candle {
                Some(c) => Some(c.ts),
                None => None,
            };
            let last: i64 = match c3 {
                Some(ts) => ts,
                None => c2.ts,
            };
            Some((c2.ts, c3, saturating_sum(last, smt.comparison_timeframe.duration_ms())))
        },
    }
}

/// How many strength labels say `strong`.
pub open spec fn strong_labels(labels: Seq<StrengthLabelModel>) -> nat
    decreases labels.len(),
{
    if labels.len() == 0 {
        0
    } else {
        strong_labels(labels.drop_last()) + if labels.last().label == "strong"@ {
            1nat
        } else {
            0nat
        }
    }
}

/// Some reference level was not taken.
pub open spec fn diverges(refs: Seq<LiquidityRefModel>) -> bool {
    exists|i: int| 0 <= i < refs.len() && (#[trigger] refs[i]).status !is Swept
}

/// Score in hundredths: price area, second-candle case, validation, strength
/// labels and divergence, at most one hundred.
#[verifier::opaque]
pub open spec fn score_of(c: CandidateModel, smt: SmtModel) -> int {
    let pda: int = if c.context_pda_id is Some { 20 } else { 0 };
    let case: int = if c.c2_case == 1 {
        15
    } else if c.c2_case == 2 {
        10
    } else if c.c2_case == 3 {
        5
    } else {
        0
    };
    let validated: int = if c.setup_status is Validated { 30 } else { 0 };
    let divergence: int = if diverges(smt.liquidity_refs) { 5 } else { 0 };
    let total = pda + case + validated + 10 * strong_labels(c.strength) + divergence;
    if total > 100 {
        100
    } else {
        total
    }
}

fn has_divergence(refs: &Vec<LiquidityRef>) -> (r: bool)
    ensures
        r == diverges(refs.deep_view()),
{
    let mut i: usize = 0;
    while i < refs.len()
        invariant
            i <= refs.len(),
            forall|k: int| 0 <= k < i ==> (#[trigger] refs.deep_view()[k]).status is Swept,
        decreases refs.len() - i,
    {
        assert(refs.deep_view()[i as int] == refs@[i as int]@);
        match refs[i].status {
            LiquidityRefStatus::Swept => {},
            _ => {
                return true;
            },
        }
        i += 1;
    }
    false
}

fn strength_points(labels: &Vec<StrengthLabel>) -> (r: u32)
    ensures
        strong_labels(labels.deep_view()) < 20 ==> r == 10 * strong_labels(labels.deep_view()),
        strong_labels(labels.deep_view()) >= 20 ==> r == 200,
{
    let mut points: u32 = 0;
    let mut i: usize = 0;
    assert(labels.deep_view().take(0) =~= Seq::<StrengthLabelModel>::empty());
    while i < labels.len()
        invariant
            i <= labels.len(),
            strong_labels(labels.deep_view().take(i as int)) < 20 ==> points == 10 * strong_labels(
                labels.deep_view().take(i as int),
            ),
            strong_labels(labels.deep_view().take(i as int)) >= 20 ==> points == 200,
        decreases labels.len() - i,
    {
        proof {
            let now = labels.deep_view().take(i + 1);
            assert(now.drop_last() =~= labels.deep_view().take(i as int));
            assert(now.last() == labels@[i as int]@);
        }
        if text_eq(labels[i].label.as_str(), "strong") && points < 200 {
            points += 10;
        }
        i += 1;
    }
    assert(labels.deep_view().take(i as int) =~= labels.deep_view());
    points
}

/// Rule-based scoring, without any outside service.
pub struct DeterministicRuleStrategy;

impl DeterministicRuleStrategy {
    /// Score in hundredths.
    pub fn score(candidate: &CandidateSetup, smt: &SmtDivergence) -> (r: u32)
        ensures
            r == score_of(candidate@, smt@),
            r <= 100,
    {
        proof {
            reveal(score_of);
        }
        let mut total: u32 = 0;
        if candidate.context_pda_id.is_some() {
            total += 20;
        }
        total += if candidate.c2_case == 1 {
            15
        } else if candidate.c2_case == 2 {
            10
        } else if candidate.c2_case == 3 {
            5
        } else {
            0
        };
        match candidate.setup_status {
            SetupStatus::Validated => {
                total += 30;
            },
            _ => {},
        }
        total += strength_points(&candidate.strength);
        if has_divergence(&smt.liquidity_refs) {
            total += 5;
        }
        if total > 100 {
            100
        } else {
            total
        }
    }

    /// What the log says about the state of a candidate.
    pub fn parsed_decision(candidate: &CandidateSetup) -> (r: ParsedDecision)
        ensures
            r@ == parsed_decision_of(candidate@),
    {
        let r = ParsedDecision {
            validated: match candidate.setup_status {
                SetupStatus::Validated => true,
                _ => false,
            },
            deterministic_score: candidate.deterministic_score,
            setup_status: owned(status_text(candidate.setup_status)),
            validation_kind: match candidate.validation_kind {
                Some(k) => Some(owned(kind_text(k))),
                None => None,
            },
            validations: candidate.validations.clone(),
            invalidated_symbols: candidate.invalidated_symbols.clone(),
            symbol_invalidation_reasons: candidate.symbol_invalidation_reasons.clone(),
            c2_cisd_event_ids: candidate.c2_cisd_event_ids.clone(),
            c3_cisd_event_ids: candidate.c3_cisd_event_ids.clone(),
        };
        assert(r.validations.deep_view() =~= candidate.validations.deep_view());
        assert(r.invalidated_symbols.deep_view() =~= candidate.invalidated_symbols.deep_view());
        assert(r.symbol_invalidation_reasons.deep_view()
            =~= candidate.symbol_invalidation_reasons.deep_view());
        assert(r.c2_cisd_event_ids.deep_view() =~= candidate.c2_cisd_event_ids.deep_view());
        assert(r.c3_cisd_event_ids.deep_view() =~= candidate.c3_cisd_event_ids.deep_view());
        r
    }

    /// Answers with the deterministic decision for the evidence.
    pub fn evaluate(&self, evidence: PackedEvidence) -> (r: DecisionRecord)
        ensures
            r@ == deterministic_record(evidence@),
    {
        let parsed = Self::parsed_decision(&evidence.candidate);
        DecisionRecord {
            provider: owned("deterministic"),
            model: None,
            decision_mode: DecisionMode::Deterministic,
            prompt_version: None,
            strategy_version: evidence.strategy_version.clone(),
            context_version: evidence.context_version.clone(),
            request: evidence,
            raw_response: None,
            parsed_decision: parsed,
            parse_ok: true,
            error: None,
        }
    }
}

/// Text of a status in the log.
pub open spec fn status_words(s: SetupStatus) -> Seq<char> {
    match s {
        SetupStatus::C2Confirmed => "c2confirmed"@,
        SetupStatus::Validated => "validated"@,
        SetupStatus::ReCheck => "recheck"@,
        SetupStatus::Expired => "expired"@,
        SetupStatus::Invalidated => "invalidated"@,
    }
}

/// Text of a status in the log.
pub fn status_text(s: SetupStatus) -> (r: &'static str)
    ensures
        r@ == status_words(s),
{
    match s {
        SetupStatus::C2Confirmed => "c2confirmed",
        SetupStatus::Validated => "validated",
        SetupStatus::ReCheck => "recheck",
        SetupStatus::Expired => "expired",
        SetupStatus::Invalidated => "invalidated",
    }
}

/// Text of a reversal kind in the log.
pub open spec fn kind_words(k: ReversalConfirmKind) -> Seq<char> {
    match k {
        ReversalConfirmKind::Cisd => "cisd"@,
        ReversalConfirmKind::Mss => "mss"@,
    }
}

/// Text of a reversal kind in the log.
pub fn kind_text(k: ReversalConfirmKind) -> (r: &'static str)
    ensures
        r@ == kind_words(k),
{
    match k {
        ReversalConfirmKind::Cisd => "cisd",
        ReversalConfirmKind::Mss => "mss",
    }
}

/// What the log says about a candidate.
pub open spec fn parsed_decision_of(c: CandidateModel) -> ParsedDecisionModel {
    ParsedDecisionModel {
        validated: c.setup_status is Validated,
        deterministic_score: c.deterministic_score,
        setup_status: status_words(c.setup_status),
        validation_kind: match c.validation_kind {
            Some(k) => Some(kind_words(k)),
            None => None,
        },
        validations: c.validations,
        invalidated_symbols: c.invalidated_symbols,
        symbol_invalidation_reasons: c.symbol_invalidation_reasons,
        c2_cisd_event_ids: c.c2_cisd_event_ids,
        c3_cisd_event_ids: c.c3_cisd_event_ids,
    }
}

/// The deterministic answer to the evidence.
pub open spec fn deterministic_record(e: EvidenceModel) -> DecisionRecordModel {
    DecisionRecordModel {
        provider: "deterministic"@,
        model: None,
        decision_mode: DecisionMode::Deterministic,
        prompt_version: None,
        strategy_version: e.strategy_version,
        context_version: e.context_version,
        request: e,
        raw_response: None,
        parsed_decision: parsed_decision_of(e.candidate),
        parse_ok: true,
        error: None,
    }
}

/// A candidate with the divergence that it came from and the reversals that it
/// collected.
pub struct CandidateEntry {
    pub candidate: CandidateSetup,
    pub smt_snapshot: SmtDivergence,
    pub ltf_events: Vec<LtfEventRef>,
}

/// Mathematical content of a [`CandidateEntry`].
pub struct EntryModel {
    pub candidate: CandidateModel,
    pub smt_snapshot: SmtModel,
    pub ltf_events: Seq<LtfEventModel>,
}

impl View for CandidateEntry {
    type V = EntryModel;

    open spec fn view(&self) -> EntryModel {
        EntryModel {
            candidate: self.candidate@,
            smt_snapshot: self.smt_snapshot@,
            ltf_events: self.ltf_events.deep_view(),
        }
    }
}

impl DeepView for CandidateEntry {
    type V = EntryModel;

    open spec fn deep_view(&self) -> EntryModel {
        self@
    }
}

/// Events up to and including a time.
pub open spec fn known_by(events: Seq<LtfEventModel>, ts: i64) -> Seq<LtfEventModel>
    decreases events.len(),
{
    if events.len() == 0 {
        Seq::empty()
    } else if events.last().ts <= ts {
        known_by(events.drop_last(), ts).push(events.last())
    } else {
        known_by(events.drop_last(), ts)
    }
}

/// Evidence for an entry as of a time: nothing later is in it.
pub open spec fn evidence_of(e: EntryModel, as_of_ts: i64) -> EvidenceModel {
    EvidenceModel {
        candidate_id: e.candidate.id,
        candidate: e.candidate,
        watchlist_id: e.candidate.watchlist_id,
        alert_id: None,
        trade_symbol: None,
        as_of_ts,
        smt: e.smt_snapshot,
        ltf_cisd_mss: known_by(e.ltf_events, as_of_ts),
        pda_context: e.smt_snapshot.htf_pda_ref,
        liquidity_refs: e.smt_snapshot.liquidity_refs,
        strength: e.smt_snapshot.strength,
        context_version: CANDIDATE_RULE_VERSION@,
        strategy_version: CANDIDATE_RULE_VERSION@,
        market_bars: Seq::empty(),
        market_structures: Seq::empty(),
    }
}

/// Log row for an entry at a market time.
#[verifier::opaque]
pub open spec fn decision_of(e: EntryModel, ts: i64) -> DecisionModel {
    let record = deterministic_record(evidence_of(e, ts));
    DecisionModel {
        id: structure_id_of(
            seq!["decision"@, e.candidate.id, decimal(ts as int), "deterministic"@],
        ),
        candidate_id: e.candidate.id,
        watchlist_id: e.candidate.watchlist_id,
        alert_id: None,
        trade_symbol: None,
        parent_id: None,
        provider: record.provider,
        model: record.model,
        decision_mode: record.decision_mode,
        prompt_version: record.prompt_version,
        strategy_version: record.strategy_version,
        context_version: record.context_version,
        request: record.request,
        raw_response: record.raw_response,
        parsed_decision: record.parsed_decision,
        parse_ok: record.parse_ok,
        error: record.error,
        created_at: ts,
    }
}

/// State change of an entry at a market time.
pub open spec fn change_of(e: EntryModel, ts: i64, validation: Option<ValidationModel>) -> ChangeModel {
    ChangeModel {
        candidate: e.candidate,
        decision: decision_of(e, ts),
        validation_event: validation,
    }
}

fn events_known_by(events: &Vec<LtfEventRef>, ts: i64) -> (r: Vec<LtfEventRef>)
    ensures
        r.deep_view() == known_by(events.deep_view(), ts),
{
    let mut out: Vec<LtfEventRef> = Vec::new();
    let mut i: usize = 0;
    assert(out.deep_view() =~= known_by(events.deep_view().take(0), ts));
    while i < events.len()
        invariant
            i <= events.len(),
            out.deep_view() == known_by(events.deep_view().take(i as int), ts),
        decreases events.len() - i,
    {
        let ghost before = out.deep_view();
        proof {
            let now = events.deep_view().take(i + 1);
            assert(now.drop_last() =~= events.deep_view().take(i as int));
            assert(now.last() == events@[i as int]@);
        }
        if events[i].ts <= ts {
            out.push(events[i].clone());
            assert(out.deep_view() =~= before.push(events@[i as int]@));
        }
        i += 1;
    }
    assert(events.deep_view().take(i as int) =~= events.deep_view());
    out
}

/// Packs the evidence for an entry as of a market time.
pub fn pack(entry: &CandidateEntry, as_of_ts: i64) -> (r: PackedEvidence)
    ensures
        r@ == evidence_of(entry@, as_of_ts),
{
    let r = PackedEvidence {
        candidate_id: entry.candidate.id.clone(),
        candidate: entry.candidate.clone(),
        watchlist_id: entry.candidate.watchlist_id.clone(),
        alert_id: None,
        trade_symbol: None,
        as_of_ts,
        smt: entry.smt_snapshot.clone(),
        ltf_cisd_mss: events_known_by(&entry.ltf_events, as_of_ts),
        pda_context: entry.smt_snapshot.htf_pda_ref.clone(),
        liquidity_refs: entry.smt_snapshot.liquidity_refs.clone(),
        strength: entry.smt_snapshot.strength.clone(),
        context_version: owned(CANDIDATE_RULE_VERSION),
        strategy_version: owned(CANDIDATE_RULE_VERSION),
        market_bars: Vec::new(),
        market_structures: Vec::new(),
    };
    assert(r.liquidity_refs.deep_view() =~= entry.smt_snapshot.liquidity_refs.deep_view());
    assert(r.strength.deep_view() =~= entry.smt_snapshot.strength.deep_view());
    assert(r.market_bars.deep_view() =~= Seq::<BarModel>::empty());
    assert(r.market_structures.deep_view() =~= Seq::<
        crate::detector::IctStructureModel,
    >::empty());
    r
}

/// Writes the log row for an entry at a market time.
pub fn make_decision(entry: &CandidateEntry, ts: i64) -> (r: DecisionLogEntry)
    ensures
        r@ == decision_of(entry@, ts),
{
    proof {
        reveal(decision_of);
    }
    let strategy = DeterministicRuleStrategy;
    let record = strategy.evaluate(pack(entry, ts));
    let mut parts: Vec<String> = Vec::new();
    parts.push(owned("decision"));
    parts.push(entry.candidate.id.clone());
    parts.push(decimal_text(ts));
    parts.push(owned("deterministic"));
    assert(parts.deep_view() =~= seq![
        "decision"@,
        entry.candidate.id@,
        decimal(ts as int),
        "deterministic"@,
    ]);
    DecisionLogEntry {
        id: structure_id(&parts),
        candidate_id: entry.candidate.id.clone(),
        watchlist_id: entry.candidate.watchlist_id.clone(),
        alert_id: None,
        trade_symbol: None,
        parent_id: None,
        provider: record.provider,
        model: record.model,
        decision_mode: record.decision_mode,
        prompt_version: record.prompt_version,
        strategy_version: record.strategy_version,
        context_version: record.context_version,
        request: record.request,
        raw_response: record.raw_response,
        parsed_decision: record.parsed_decision,
        parse_ok: record.parse_ok,
        error: record.error,
        created_at: ts,
    }
}

/// Reports a state change of an entry.
pub fn make_change(entry: &CandidateEntry, ts: i64, validation: Option<SymbolValidation>) -> (r:
    CandidateChange)
    ensures
        r@ == change_of(entry@, ts, validation.deep_view()),
{
    CandidateChange {
        candidate: entry.candidate.clone(),
        decision: make_decision(entry, ts),
        validation_event: validation,
    }
}

/// Identifier of a candidate.
pub open spec fn candidate_id_of(smt_id: Seq<char>, trade_symbols: Seq<Seq<char>>, c2_ts: int) -> Seq<
    char,
> {
    structure_id_of(seq![smt_id, joined(trade_symbols, ","@), decimal(c2_ts)])
}

/// Stable identifier of a candidate from the divergence, its divergent legs and
/// the open of the second candle.
pub fn candidate_id(smt_id: &str, trade_symbols: &Vec<String>, c2_ts: i64) -> (r: String)
    ensures
        r@ == candidate_id_of(smt_id@, trade_symbols.deep_view(), c2_ts as int),
{
    let mut parts: Vec<String> = Vec::new();
    parts.push(owned(smt_id));
    parts.push(join(trade_symbols, ","));
    parts.push(decimal_text(c2_ts));
    assert(parts.deep_view() =~= seq![
        smt_id@,
        joined(trade_symbols.deep_view(), ","@),
        decimal(c2_ts as int),
    ]);
    structure_id(&parts)
}

} // verus!
