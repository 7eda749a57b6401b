//! The candidates of one group.
use vstd::prelude::*;
use crate::candidate::lifecycle::{
    active, apply_bar, apply_c3, apply_deadline, apply_smt_end, bar_outcome, c3_outcome,
    deadline_fits, deadline_outcome, is_active, is_deadline_fit, law_transitions_keep_wf, smt_ended_outcome,
    untouched, Outcome,
};
use crate::candidate::replay::{
    apply_input, input_outcome, lemma_input_keeps_wf, InputModel, ReplayInput,
};
use crate::candidate::rules::{
    candidate_id, candidate_id_of, change_of, executable, executable_symbols, lemma_without,
    make_change, score_of, sweeper_chain, sweeper_chain_of, sweeper_detection_state,
    sweeper_state_of, CandidateEntry, DeterministicRuleStrategy, EntryModel,
    CANDIDATE_RULE_VERSION,
};
use crate::candidate::types::{
    CandidateChange, CandidateModel, CandidateSetup, ChangeModel, DecisionStatus, LtfEventModel,
    LtfEventRef, SetupStatus, SetupType, SymbolReasonModel, ValidationModel,
};
use crate::detector::{
    CandleRef, IctStructure, IctStructureModel, SmtDetectionState, SmtDivergence,
    SmtModel, StructureEvent, StructureEventModel,
};
use crate::text::{list_has, owned, text_eq};
use crate::types::{Bar, BarModel, Timeframe};

verus! {

/// Comparison candles after the third one until a candidate's deadline.
pub const DEFAULT_EXPIRY_MTF_BARS: usize = 5;

/// Manages the candidates of one group.
pub struct CandidateEngine {
    entries: Vec<CandidateEntry>,
    watchlist_id: Option<String>,
    expiry_mtf_bars: usize,
}

/// Mathematical content of a [`CandidateEngine`].
pub struct EngineModel {
    /// One entry per divergence, in the order in which they came.
    pub entries: Seq<EntryModel>,
    pub watchlist_id: Option<Seq<char>>,
    pub expiry_mtf_bars: int,
}

impl View for CandidateEngine {
    type V = EngineModel;

    closed spec fn view(&self) -> EngineModel {
        EngineModel {
            entries: self.entries.deep_view(),
            watchlist_id: self.watchlist_id.deep_view(),
            expiry_mtf_bars: self.expiry_mtf_bars as int,
        }
    }
}

impl EngineModel {
    /// Every entry is well formed and no two belong to the same divergence.
    pub open spec fn wf(self) -> bool {
        &&& forall|i: int| 0 <= i < self.entries.len() ==> (#[trigger] self.entries[i]).wf()
        &&& forall|i: int, j: int|
            0 <= i < j < self.entries.len() ==> (#[trigger] self.entries[i]).candidate.smt_id != (
            #[trigger] self.entries[j]).candidate.smt_id
    }
}

/// Position of the entry of a divergence; the number of entries where there is
/// none.
pub open spec fn position(entries: Seq<EntryModel>, smt_id: Seq<char>) -> int
    decreases entries.len(),
{
    if entries.len() == 0 || entries[0].candidate.smt_id == smt_id {
        0
    } else {
        1 + position(entries.drop_first(), smt_id)
    }
}

pub proof fn lemma_position(entries: Seq<EntryModel>, smt_id: Seq<char>)
    ensures
        0 <= position(entries, smt_id) <= entries.len(),
        position(entries, smt_id) < entries.len() ==> entries[position(
            entries,
            smt_id,
        )].candidate.smt_id == smt_id,
        forall|k: int|
            0 <= k < position(entries, smt_id) ==> (#[trigger] entries[k]).candidate.smt_id
                != smt_id,
    decreases entries.len(),
{
    if entries.len() > 0 && entries[0].candidate.smt_id != smt_id {
        lemma_position(entries.drop_first(), smt_id);
        assert forall|k: int| 0 <= k < position(entries, smt_id) implies (
        #[trigger] entries[k]).candidate.smt_id != smt_id by {
            if k > 0 {
                assert(entries[k] == entries.drop_first()[k - 1]);
            }
        }
    }
}

proof fn lemma_position_is(entries: Seq<EntryModel>, smt_id: Seq<char>, n: int)
    requires
        0 <= n <= entries.len(),
        forall|k: int| 0 <= k < n ==> (#[trigger] entries[k]).candidate.smt_id != smt_id,
        n < entries.len() ==> entries[n].candidate.smt_id == smt_id,
    ensures
        position(entries, smt_id) == n,
{
    lemma_position(entries, smt_id);
    let p = position(entries, smt_id);
    if p < n {
        assert(entries[p].candidate.smt_id != smt_id);
    } else if p > n {
        assert(entries[n].candidate.smt_id != smt_id);
    }
}

/// The engine with the changes that led to it.
pub struct EngineStep {
    pub engine: EngineModel,
    pub changes: Seq<ChangeModel>,
}

pub open spec fn no_step(s: EngineModel) -> EngineStep {
    EngineStep { engine: s, changes: Seq::empty() }
}

/// The engine after the entry at a position changed.
pub open spec fn entry_step(s: EngineModel, at: int, o: Outcome) -> EngineStep {
    EngineStep {
        engine: EngineModel { entries: s.entries.update(at, o.entry), ..s },
        changes: o.changes,
    }
}

/// A candidate as it is spawned.
pub open spec fn spawned(
    watchlist_id: Option<Seq<char>>,
    smt: SmtModel,
    c1: CandleRef,
    smt_k: CandleRef,
    c2: CandleRef,
    c2_case: Option<u8>,
) -> CandidateModel {
    CandidateModel {
        id: candidate_id_of(smt.id, smt.trade_symbols, c2.ts as int),
        rule_version: CANDIDATE_RULE_VERSION@,
        watchlist_id: match watchlist_id {
            Some(id) => id,
            None => smt.watchlist_id,
        },
        smt_id: smt.id,
        setup_type: SetupType::Smt,
        symbol_set: smt.symbol_set,
        sweeper_symbol: smt.sweeper_symbol,
        trade_symbols: executable(smt),
        candidate_direction: smt.candidate_direction,
        context_timeframe: smt.context_timeframe,
        comparison_timeframe: smt.comparison_timeframe,
        validation_timeframe: Timeframe::M5,
        context_pda_id: match smt.htf_pda_ref {
            Some(p) => Some(p.id),
            None => None,
        },
        observation_window: smt.observation_window,
        c1_candle: c1,
        smt_k_candle: smt_k,
        c2_candle: c2,
        c2_case: match c2_case {
            Some(c) => c,
            None => 0,
        },
        c3_candle: None,
        c2_cisd_event_ids: Seq::empty(),
        c3_cisd_event_ids: Seq::empty(),
        validation_kind: None,
        validation_symbol: None,
        validation_ts: None,
        validation_direction: None,
        validations: Seq::empty(),
        invalidated_symbols: Seq::empty(),
        symbol_invalidation_reasons: Seq::empty(),
        setup_status: SetupStatus::C2Confirmed,
        decision_status: DecisionStatus::New,
        deterministic_score: 0,
        created_at: c2.ts,
        validated_at: None,
        expired_at: None,
        invalidated_at: None,
        expiry_reason: None,
        strength: smt.strength,
        expiry_at: None,
        smt_rule_version: smt.rule_version,
    }
}

/// The engine after a divergence confirmed its second candle. A known
/// divergence only refreshes its entry. A new one spawns a candidate where it
/// formed inside a price area, its sweeper has a second candle and some member
/// is executable.
pub open spec fn c2_step(s: EngineModel, smt: SmtModel) -> EngineStep {
    let at = position(s.entries, smt.id);
    if smt.htf_pda_ref is None {
        no_step(s)
    } else if at < s.entries.len() {
        entry_step(s, at, untouched(EntryModel { smt_snapshot: smt, ..s.entries[at] }))
    } else {
        match sweeper_chain_of(smt) {
            None => no_step(s),
            Some(chain) => match chain.c2_candle {
                None => no_step(s),
                Some(c2) => if executable(smt).len() == 0 {
                    no_step(s)
                } else {
                    let c = spawned(
                        s.watchlist_id,
                        smt,
                        chain.c1_candle,
                        chain.smt_k_candle,
                        c2,
                        chain.c2_case,
                    );
                    let e = EntryModel {
                        candidate: CandidateModel {
                            deterministic_score: score_of(c, smt) as u32,
                            ..c
                        },
                        smt_snapshot: smt,
                        ltf_events: Seq::empty(),
                    };
                    EngineStep {
                        engine: EngineModel { entries: s.entries.push(e), ..s },
                        changes: seq![change_of(e, c2.ts, None)],
                    }
                },
            },
        }
    }
}

/// The engine after a divergence reported its third candle.
pub open spec fn c3_step(s: EngineModel, smt: SmtModel) -> EngineStep {
    let at = position(s.entries, smt.id);
    if at < s.entries.len() {
        entry_step(s, at, c3_outcome(s.entries[at], smt, s.expiry_mtf_bars))
    } else {
        no_step(s)
    }
}

/// The engine after a divergence ended.
pub open spec fn ended_step(s: EngineModel, smt_id: Seq<char>, latest: Option<SmtModel>, ts: i64) -> EngineStep {
    let at = position(s.entries, smt_id);
    if at < s.entries.len() {
        entry_step(s, at, smt_ended_outcome(s.entries[at], latest, ts))
    } else {
        no_step(s)
    }
}

/// Two steps in a row.
pub open spec fn and_then(first: EngineStep, second: EngineStep) -> EngineStep {
    EngineStep { engine: second.engine, changes: first.changes + second.changes }
}

/// The engine after a divergence event.
pub open spec fn smt_step(s: EngineModel, smt: SmtModel, now: i64) -> EngineStep {
    match sweeper_state_of(smt) {
        Some(SmtDetectionState::C2Confirmed) => c2_step(s, smt),
        Some(SmtDetectionState::C3Entry) => {
            let first = c2_step(s, smt);
            and_then(first, c3_step(first.engine, smt))
        },
        Some(SmtDetectionState::SmtKDetected) => no_step(s),
        _ => ended_step(s, smt.id, Some(smt), now),
    }
}

/// The divergence that an event carries.
pub open spec fn event_smt(event: StructureEventModel) -> Option<SmtModel> {
    match event {
        StructureEventModel::New(IctStructureModel::SmtDivergence(d)) => Some(d),
        StructureEventModel::Update(IctStructureModel::SmtDivergence(d)) => Some(d),
        _ => None,
    }
}

/// The engine after a structure event.
pub open spec fn structure_step(s: EngineModel, event: StructureEventModel, now: i64) -> EngineStep {
    match event {
        StructureEventModel::Invalidated { id, kind } => if kind == "smt_divergence"@ {
            ended_step(s, id, None, now)
        } else {
            no_step(s)
        },
        _ => match event_smt(event) {
            Some(smt) => smt_step(s, smt, now),
            None => no_step(s),
        },
    }
}

/// An entry after a five-minute close: only active candidates that can execute
/// the instrument react.
pub open spec fn after_bar(
    e: EntryModel,
    symbol: Seq<char>,
    bar: BarModel,
    events: Seq<LtfEventModel>,
) -> Outcome {
    if e.candidate.trade_symbols.contains(symbol) && is_active(e.candidate) {
        bar_outcome(e, symbol, bar, events)
    } else {
        untouched(e)
    }
}

/// Changes of the first `n` entries for a five-minute close.
pub open spec fn bar_changes(
    entries: Seq<EntryModel>,
    symbol: Seq<char>,
    bar: BarModel,
    events: Seq<LtfEventModel>,
    n: nat,
) -> Seq<ChangeModel>
    decreases n,
{
    if n == 0 {
        Seq::empty()
    } else {
        bar_changes(entries, symbol, bar, events, (n - 1) as nat) + after_bar(
            entries[n - 1],
            symbol,
            bar,
            events,
        ).changes
    }
}

/// Every entry after a five-minute close.
pub open spec fn bar_step(
    s: EngineModel,
    symbol: Seq<char>,
    bar: BarModel,
    events: Seq<LtfEventModel>,
) -> EngineStep {
    EngineStep {
        engine: EngineModel {
            entries: s.entries.map_values(|e: EntryModel| after_bar(e, symbol, bar, events).entry),
            ..s
        },
        changes: bar_changes(s.entries, symbol, bar, events, s.entries.len()),
    }
}

/// Changes of the first `n` entries at a time.
pub open spec fn deadline_changes(entries: Seq<EntryModel>, now: i64, n: nat) -> Seq<ChangeModel>
    decreases n,
{
    if n == 0 {
        Seq::empty()
    } else {
        deadline_changes(entries, now, (n - 1) as nat) + deadline_outcome(
            entries[n - 1],
            now,
        ).changes
    }
}

/// Every entry at a time.
pub open spec fn deadline_step(s: EngineModel, now: i64) -> EngineStep {
    EngineStep {
        engine: EngineModel {
            entries: s.entries.map_values(|e: EntryModel| deadline_outcome(e, now).entry),
            ..s
        },
        changes: deadline_changes(s.entries, now, s.entries.len()),
    }
}

/// The engine after a five-minute close: first the instrument's candidates,
/// then the deadlines of all.
pub open spec fn ltf_step(
    s: EngineModel,
    symbol: Seq<char>,
    bar: BarModel,
    events: Seq<LtfEventModel>,
    now: i64,
) -> EngineStep {
    let first = bar_step(s, symbol, bar, events);
    and_then(first, deadline_step(first.engine, now))
}

/// The candidates of the entries that are active.
pub open spec fn active_candidates(entries: Seq<EntryModel>) -> Seq<CandidateModel>
    decreases entries.len(),
{
    if entries.len() == 0 {
        Seq::empty()
    } else if is_active(entries.last().candidate) {
        active_candidates(entries.drop_last()).push(entries.last().candidate)
    } else {
        active_candidates(entries.drop_last())
    }
}

/// The engine after a stored input of a divergence.
pub open spec fn input_step(s: EngineModel, smt: SmtModel, input: InputModel) -> EngineStep {
    let at = position(s.entries, smt.id);
    if at < s.entries.len() {
        entry_step(s, at, input_outcome(s.entries[at], smt, input))
    } else {
        no_step(s)
    }
}

/// The comparison timeframe of the candidate of a divergence: that of its entry, or
/// its own where it has none yet.
pub open spec fn compared_on(s: EngineModel, smt: SmtModel) -> Timeframe {
    let at = position(s.entries, smt.id);
    if at < s.entries.len() {
        s.entries[at].candidate.comparison_timeframe
    } else {
        smt.comparison_timeframe
    }
}

/// Where the divergence has entered its third candle, the deadline of its candidate
/// fits the clock.
pub open spec fn smt_fits(s: EngineModel, smt: SmtModel) -> bool {
    sweeper_state_of(smt) == Some(SmtDetectionState::C3Entry) ==> deadline_fits(
        smt,
        compared_on(s, smt),
        s.expiry_mtf_bars,
    )
}

/// A deadline that an event sets fits the clock.
pub open spec fn event_fits(s: EngineModel, event: StructureEventModel) -> bool {
    event_smt(event) matches Some(smt) ==> smt_fits(s, smt)
}

/// Taking a divergence up gives it the timeframe that [`compared_on`] says.
pub proof fn lemma_taken_up(s: EngineModel, smt: SmtModel)
    ensures
        c2_step(s, smt).engine.expiry_mtf_bars == s.expiry_mtf_bars,
        ({
            let after = c2_step(s, smt).engine;
            let at = position(after.entries, smt.id);
            at < after.entries.len() ==> after.entries[at].candidate.comparison_timeframe
                == compared_on(s, smt)
        }),
{
    let after = c2_step(s, smt).engine;
    let at = position(s.entries, smt.id);
    lemma_position(s.entries, smt.id);
    lemma_position(after.entries, smt.id);
    if after.entries.len() == s.entries.len() {
        assert forall|k: int| 0 <= k < s.entries.len() implies (
        #[trigger] after.entries[k]).candidate == s.entries[k].candidate by {}
        lemma_position_is(after.entries, smt.id, at);
    } else {
        assert forall|k: int| 0 <= k < s.entries.len() implies (
        #[trigger] after.entries[k]).candidate.smt_id != smt.id by {
            assert(after.entries[k] == s.entries[k]);
        }
        lemma_position_is(after.entries, smt.id, s.entries.len() as int);
    }
}

impl Default for CandidateEngine {
    fn default() -> (r: Self)
        ensures
            r@ == (EngineModel {
                entries: Seq::empty(),
                watchlist_id: None,
                expiry_mtf_bars: DEFAULT_EXPIRY_MTF_BARS as int,
            }),
    {
        let r = CandidateEngine {
            entries: Vec::new(),
            watchlist_id: None,
            expiry_mtf_bars: DEFAULT_EXPIRY_MTF_BARS,
        };
        assert(r.entries.deep_view() =~= Seq::<EntryModel>::empty());
        r
    }
}

impl CandidateEngine {
    /// An engine without candidates.
    pub fn new() -> (r: Self)
        ensures
            r@ == (EngineModel {
                entries: Seq::empty(),
                watchlist_id: None,
                expiry_mtf_bars: DEFAULT_EXPIRY_MTF_BARS as int,
            }),
            r@.wf(),
    {
        Self::default()
    }

    /// Binds the engine to a group and drops all candidates.
    pub fn set_watchlist(&mut self, wl_id: String)
        ensures
            final(self)@ == (EngineModel {
                watchlist_id: Some(wl_id@),
                entries: Seq::empty(),
                ..old(self)@
            }),
            final(self)@.wf(),
    {
        self.watchlist_id = Some(wl_id);
        self.entries.clear();
        assert(self.entries.deep_view() =~= Seq::<EntryModel>::empty());
    }

    /// Sets the deadline in comparison candles, at least one.
    pub fn set_expiry_mtf_bars(&mut self, n: usize)
        ensures
            final(self)@ == (EngineModel {
                expiry_mtf_bars: if n < 1 { 1 } else { n as int },
                ..old(self)@
            }),
    {
        self.expiry_mtf_bars = if n < 1 { 1 } else { n };
    }

    /// The candidates that still wait for validation or their deadline.
    pub fn list_active(&self) -> (r: Vec<CandidateSetup>)
        ensures
            r.deep_view() == active_candidates(self@.entries),
    {
        let mut out: Vec<CandidateSetup> = Vec::new();
        let mut i: usize = 0;
        assert(out.deep_view() =~= active_candidates(self.entries.deep_view().take(0)));
        while i < self.entries.len()
            invariant
                i <= self.entries.len(),
                out.deep_view() == active_candidates(self.entries.deep_view().take(i as int)),
            decreases self.entries.len() - i,
        {
            let ghost before = out.deep_view();
            proof {
                let now = self.entries.deep_view().take(i + 1);
                assert(now.drop_last() =~= self.entries.deep_view().take(i as int));
                assert(now.last() == self.entries@[i as int]@);
            }
            if active(&self.entries[i].candidate) {
                out.push(self.entries[i].candidate.clone());
                assert(out.deep_view() =~= before.push(self.entries@[i as int]@.candidate));
            }
            i += 1;
        }
        assert(self.entries.deep_view().take(i as int) =~= self.entries.deep_view());
        out
    }

    /// All candidates.
    pub fn list_all(&self) -> (r: Vec<CandidateSetup>)
        ensures
            r.deep_view() == self@.entries.map_values(|e: EntryModel| e.candidate),
    {
        let mut out: Vec<CandidateSetup> = Vec::new();
        let mut i: usize = 0;
        while i < self.entries.len()
            invariant
                i <= self.entries.len(),
                out.len() == i,
                forall|k: int|
                    0 <= k < i ==> (#[trigger] out@[k])@ == self.entries@[k]@.candidate,
            decreases self.entries.len() - i,
        {
            out.push(self.entries[i].candidate.clone());
            i += 1;
        }
        assert(out.deep_view() =~= self@.entries.map_values(|e: EntryModel| e.candidate));
        out
    }

    fn find(&self, smt_id: &str) -> (r: Option<usize>)
        ensures
            r matches Some(i) ==> i < self.entries.len() && i == position(self@.entries, smt_id@),
            r is None ==> position(self@.entries, smt_id@) == self@.entries.len(),
    {
        let mut i: usize = 0;
        while i < self.entries.len()
            invariant
                i <= self.entries.len(),
                forall|k: int|
                    0 <= k < i ==> (#[trigger] self@.entries[k]).candidate.smt_id != smt_id@,
            decreases self.entries.len() - i,
        {
            assert(self@.entries[i as int] == self.entries@[i as int]@);
            if text_eq(self.entries[i].candidate.smt_id.as_str(), smt_id) {
                proof {
                    lemma_position_is(self@.entries, smt_id@, i as int);
                }
                return Some(i);
            }
            i += 1;
        }
        proof {
            lemma_position_is(self@.entries, smt_id@, i as int);
        }
        None
    }

    /// The candidate of a divergence.
    pub fn get_by_smt_id(&self, smt_id: &str) -> (r: Option<CandidateSetup>)
        ensures
            r.deep_view() == {
                let at = position(self@.entries, smt_id@);
                if at < self@.entries.len() {
                    Some(self@.entries[at].candidate)
                } else {
                    None
                }
            },
    {
        match self.find(smt_id) {
            Some(i) => Some(self.entries[i].candidate.clone()),
            None => None,
        }
    }

    /// Whether a deadline that an event sets fits the clock.
    pub fn accepts(&self, event: &StructureEvent) -> (r: bool)
        ensures
            r == event_fits(self@, event@),
    {
        match event {
            StructureEvent::New(IctStructure::SmtDivergence(smt))
            | StructureEvent::Update(IctStructure::SmtDivergence(smt)) => {
                let entered = matches!(
                    sweeper_detection_state(smt),
                    Some(SmtDetectionState::C3Entry)
                );
                if !entered {
                    return true;
                }
                let tf: Timeframe = match self.find(smt.id.as_str()) {
                    Some(i) => {
                        assert(self.entries@[i as int]@ == self@.entries[i as int]);
                        self.entries[i].candidate.comparison_timeframe
                    },
                    None => smt.comparison_timeframe,
                };
                is_deadline_fit(smt, tf, self.expiry_mtf_bars)
            },
            _ => true,
        }
    }

    /// Takes a structure event. Only divergences matter here.
    pub fn on_smt_event(&mut self, event: &StructureEvent, now_ms: i64) -> (r: Vec<CandidateChange>)
        requires
            old(self)@.wf(),
            event_fits(old(self)@, event@),
        ensures
            final(self)@ == structure_step(old(self)@, event@, now_ms).engine,
            r.deep_view() == structure_step(old(self)@, event@, now_ms).changes,
            final(self)@.wf(),
    {
        let mut changes: Vec<CandidateChange> = Vec::new();
        assert(changes.deep_view() =~= Seq::<ChangeModel>::empty());
        match event {
            StructureEvent::New(IctStructure::SmtDivergence(smt))
            | StructureEvent::Update(IctStructure::SmtDivergence(smt)) => {
                self.take_smt(smt, now_ms, &mut changes);
            },
            StructureEvent::Invalidated { id, kind } => {
                if text_eq(kind.as_str(), "smt_divergence") {
                    self.end_smt(id.as_str(), None, now_ms, &mut changes);
                }
            },
            _ => {},
        }
        assert(changes.deep_view() =~= structure_step(old(self)@, event@, now_ms).changes);
        changes
    }

    /// Ends the candidate of a divergence at the market time of the end.
    pub fn on_smt_invalidated_at(&mut self, smt: &SmtDivergence, market_ts: i64) -> (r: Vec<
        CandidateChange,
    >)
        requires
            old(self)@.wf(),
        ensures
            final(self)@ == ended_step(old(self)@, smt.id@, Some(smt@), market_ts).engine,
            r.deep_view() == ended_step(old(self)@, smt.id@, Some(smt@), market_ts).changes,
            final(self)@.wf(),
    {
        let mut changes: Vec<CandidateChange> = Vec::new();
        self.end_smt(smt.id.as_str(), Some(smt), market_ts, &mut changes);
        assert(changes.deep_view() =~= ended_step(
            old(self)@,
            smt.id@,
            Some(smt@),
            market_ts,
        ).changes);
        changes
    }

    fn take_smt(&mut self, smt: &SmtDivergence, now_ms: i64, changes: &mut Vec<CandidateChange>)
        requires
            old(self)@.wf(),
            smt_fits(old(self)@, smt@),
        ensures
            final(self)@ == smt_step(old(self)@, smt@, now_ms).engine,
            final(changes).deep_view() == old(changes).deep_view() + smt_step(
                old(self)@,
                smt@,
                now_ms,
            ).changes,
            final(self)@.wf(),
    {
        let ghost before = changes.deep_view();
        let ghost s0 = self@;
        match sweeper_detection_state(smt) {
            Some(SmtDetectionState::C2Confirmed) => {
                self.confirm_c2(smt, changes);
            },
            Some(SmtDetectionState::C3Entry) => {
                self.confirm_c2(smt, changes);
                proof {
                    lemma_taken_up(s0, smt@);
                }
                self.enter_c3(smt, changes);
                assert(changes.deep_view() =~= before + smt_step(s0, smt@, now_ms).changes);
            },
            Some(SmtDetectionState::SmtKDetected) => {
                assert(changes.deep_view() =~= before + Seq::<ChangeModel>::empty());
            },
            _ => {
                self.end_smt(smt.id.as_str(), Some(smt), now_ms, changes);
            },
        }
    }

    pub(crate) fn confirm_c2(&mut self, smt: &SmtDivergence, changes: &mut Vec<CandidateChange>)
        requires
            old(self)@.wf(),
        ensures
            final(self)@ == c2_step(old(self)@, smt@).engine,
            final(changes).deep_view() == old(changes).deep_view() + c2_step(
                old(self)@,
                smt@,
            ).changes,
            final(self)@.wf(),
    {
        let ghost before = changes.deep_view();
        let ghost s0 = self@;
        if smt.htf_pda_ref.is_none() {
            assert(changes.deep_view() =~= before + Seq::<ChangeModel>::empty());
            return;
        }
        match self.find(smt.id.as_str()) {
            Some(i) => {
                self.entries[i].smt_snapshot = smt.clone();
                proof {
                    assert(self@.entries =~= c2_step(s0, smt@).engine.entries);
                    assert(changes.deep_view() =~= before + Seq::<ChangeModel>::empty());
                    lemma_update_keeps_wf(s0, i as int, self@.entries[i as int]);
                }
                return;
            },
            None => {},
        }
        let chain = match sweeper_chain(smt) {
            Some(c) => c,
            None => {
                assert(changes.deep_view() =~= before + Seq::<ChangeModel>::empty());
                return;
            },
        };
        let c2 = match chain.c2_candle {
            Some(c) => c,
            None => {
                assert(changes.deep_view() =~= before + Seq::<ChangeModel>::empty());
                return;
            },
        };
        let legs = executable_symbols(smt);
        assert(legs.len() == executable(smt@).len());
        if legs.len() == 0 {
            assert(changes.deep_view() =~= before + Seq::<ChangeModel>::empty());
            return;
        }
        let mut candidate = CandidateSetup {
            id: candidate_id(smt.id.as_str(), &smt.trade_symbols, c2.ts),
            rule_version: owned(CANDIDATE_RULE_VERSION),
            watchlist_id: match &self.watchlist_id {
                Some(id) => id.clone(),
                None => smt.watchlist_id.clone(),
            },
            smt_id: smt.id.clone(),
            setup_type: SetupType::Smt,
            symbol_set: smt.symbol_set.clone(),
            sweeper_symbol: smt.sweeper_symbol.clone(),
            trade_symbols: legs,
            candidate_direction: smt.candidate_direction,
            context_timeframe: smt.context_timeframe,
            comparison_timeframe: smt.comparison_timeframe,
            validation_timeframe: Timeframe::M5,
            context_pda_id: match &smt.htf_pda_ref {
                Some(p) => Some(p.id.clone()),
                None => None,
            },
            observation_window: smt.observation_window,
            c1_candle: chain.c1_candle,
            smt_k_candle: chain.smt_k_candle,
            c2_candle: c2,
            c2_case: match chain.c2_case {
                Some(c) => c,
                None => 0,
            },
            c3_candle: None,
            c2_cisd_event_ids: Vec::new(),
            c3_cisd_event_ids: Vec::new(),
            validation_kind: None,
            validation_symbol: None,
            validation_ts: None,
            validation_direction: None,
            validations: Vec::new(),
            invalidated_symbols: Vec::new(),
            symbol_invalidation_reasons: Vec::new(),
            setup_status: SetupStatus::C2Confirmed,
            decision_status: DecisionStatus::New,
            deterministic_score: 0,
            created_at: c2.ts,
            validated_at: None,
            expired_at: None,
            invalidated_at: None,
            expiry_reason: None,
            strength: smt.strength.clone(),
            expiry_at: None,
            smt_rule_version: smt.rule_version.clone(),
        };
        proof {
            assert(candidate.symbol_set.deep_view() =~= smt.symbol_set.deep_view());
            assert(candidate.strength.deep_view() =~= smt.strength.deep_view());
            assert(candidate.c2_cisd_event_ids.deep_view() =~= Seq::<Seq<char>>::empty());
            assert(candidate.c3_cisd_event_ids.deep_view() =~= Seq::<Seq<char>>::empty());
            assert(candidate.validations.deep_view() =~= Seq::<ValidationModel>::empty());
            assert(candidate.invalidated_symbols.deep_view() =~= Seq::<Seq<char>>::empty());
            assert(candidate.symbol_invalidation_reasons.deep_view() =~= Seq::<
                SymbolReasonModel,
            >::empty());
        }
        candidate.deterministic_score = DeterministicRuleStrategy::score(&candidate, smt);
        let entry = CandidateEntry {
            candidate,
            smt_snapshot: smt.clone(),
            ltf_events: Vec::new(),
        };
        assert(entry.ltf_events.deep_view() =~= Seq::<LtfEventModel>::empty());
        let change = make_change(&entry, c2.ts, None);
        self.entries.push(entry);
        changes.push(change);
        proof {
            assert(changes.deep_view() =~= before + seq![change@]);
            assert(self@.entries =~= s0.entries.push(entry@));
            lemma_without(smt@.symbol_set, smt@.sweeper_symbol, smt@.sweeper_symbol);
            assert(entry@.wf());
            lemma_position(s0.entries, smt@.id);
        }
    }

    pub(crate) fn enter_c3(&mut self, smt: &SmtDivergence, changes: &mut Vec<CandidateChange>)
        requires
            old(self)@.wf(),
            position(old(self)@.entries, smt@.id) < old(self)@.entries.len() ==> deadline_fits(
                smt@,
                compared_on(old(self)@, smt@),
                old(self)@.expiry_mtf_bars,
            ),
        ensures
            final(self)@ == c3_step(old(self)@, smt@).engine,
            final(changes).deep_view() == old(changes).deep_view() + c3_step(
                old(self)@,
                smt@,
            ).changes,
            final(self)@.wf(),
    {
        let ghost before = changes.deep_view();
        let ghost s0 = self@;
        match self.find(smt.id.as_str()) {
            Some(i) => {
                let bars: usize = self.expiry_mtf_bars;
                assert(self.entries@[i as int]@ == s0.entries[i as int]);
                apply_c3(&mut self.entries[i], smt, bars, changes);
                proof {
                    assert(self@.entries =~= c3_step(s0, smt@).engine.entries);
                    law_transitions_keep_wf(
                        s0.entries[i as int],
                        Seq::empty(),
                        arbitrary(),
                        Seq::empty(),
                        smt@,
                        bars as int,
                        None,
                        0,
                    );
                    lemma_update_keeps_wf(s0, i as int, self@.entries[i as int]);
                }
            },
            None => {
                assert(changes.deep_view() =~= before + Seq::<ChangeModel>::empty());
            },
        }
    }

    fn end_smt(
        &mut self,
        smt_id: &str,
        latest: Option<&SmtDivergence>,
        ts: i64,
        changes: &mut Vec<CandidateChange>,
    )
        requires
            old(self)@.wf(),
        ensures
            final(self)@ == ended_step(old(self)@, smt_id@, latest.deep_view(), ts).engine,
            final(changes).deep_view() == old(changes).deep_view() + ended_step(
                old(self)@,
                smt_id@,
                latest.deep_view(),
                ts,
            ).changes,
            final(self)@.wf(),
    {
        let ghost before = changes.deep_view();
        let ghost s0 = self@;
        match self.find(smt_id) {
            Some(i) => {
                assert(self.entries@[i as int]@ == s0.entries[i as int]);
                apply_smt_end(&mut self.entries[i], latest, ts, changes);
                proof {
                    assert(self@.entries =~= ended_step(
                        s0,
                        smt_id@,
                        latest.deep_view(),
                        ts,
                    ).engine.entries);
                    law_transitions_keep_wf(
                        s0.entries[i as int],
                        Seq::empty(),
                        arbitrary(),
                        Seq::empty(),
                        arbitrary(),
                        0,
                        latest.deep_view(),
                        ts,
                    );
                    lemma_update_keeps_wf(s0, i as int, self@.entries[i as int]);
                }
            },
            None => {
                assert(changes.deep_view() =~= before + Seq::<ChangeModel>::empty());
            },
        }
    }

    /// Feeds one stored input to the entry of a divergence.
    pub(crate) fn feed_input(
        &mut self,
        smt: &SmtDivergence,
        input: &ReplayInput,
        changes: &mut Vec<CandidateChange>,
    )
        requires
            old(self)@.wf(),
        ensures
            final(self)@ == input_step(old(self)@, smt@, input@).engine,
            final(changes).deep_view() == old(changes).deep_view() + input_step(
                old(self)@,
                smt@,
                input@,
            ).changes,
            final(self)@.wf(),
    {
        let ghost before = changes.deep_view();
        let ghost s0 = self@;
        match self.find(smt.id.as_str()) {
            Some(i) => {
                assert(self.entries@[i as int]@ == s0.entries[i as int]);
                apply_input(&mut self.entries[i], smt, input, changes);
                proof {
                    assert(self@.entries =~= input_step(s0, smt@, input@).engine.entries);
                    lemma_input_keeps_wf(s0.entries[i as int], smt@, input@);
                    lemma_update_keeps_wf(s0, i as int, self@.entries[i as int]);
                }
            },
            None => {
                assert(changes.deep_view() =~= before + Seq::<ChangeModel>::empty());
            },
        }
    }

    fn close_bar(
        &mut self,
        symbol: &str,
        bar: &Bar,
        events: &[LtfEventRef],
        changes: &mut Vec<CandidateChange>,
    )
        requires
            old(self)@.wf(),
        ensures
            final(self)@ == bar_step(old(self)@, symbol@, bar@, events.deep_view()).engine,
            final(changes).deep_view() == old(changes).deep_view() + bar_step(
                old(self)@,
                symbol@,
                bar@,
                events.deep_view(),
            ).changes,
            final(self)@.wf(),
    {
        let ghost before = changes.deep_view();
        let ghost s0 = self@;
        let mut i: usize = 0;
        assert(changes.deep_view() =~= before + bar_changes(
            s0.entries,
            symbol@,
            bar@,
            events.deep_view(),
            0,
        ));
        while i < self.entries.len()
            invariant
                i <= self.entries.len(),
                self.entries.len() == s0.entries.len(),
                self.watchlist_id.deep_view() == s0.watchlist_id,
                self.expiry_mtf_bars == s0.expiry_mtf_bars,
                forall|k: int|
                    0 <= k < i ==> (#[trigger] self.entries@[k])@ == after_bar(
                        s0.entries[k],
                        symbol@,
                        bar@,
                        events.deep_view(),
                    ).entry,
                forall|k: int|
                    i <= k < self.entries.len() ==> (#[trigger] self.entries@[k])@
                        == s0.entries[k],
                changes.deep_view() == before + bar_changes(
                    s0.entries,
                    symbol@,
                    bar@,
                    events.deep_view(),
                    i as nat,
                ),
            decreases self.entries.len() - i,
        {
            let ghost mid = changes.deep_view();
            assert(self.entries@[i as int]@ == s0.entries[i as int]);
            if list_has(&self.entries[i].candidate.trade_symbols, symbol) && active(
                &self.entries[i].candidate,
            ) {
                apply_bar(&mut self.entries[i], symbol, bar, events, changes);
            }
            proof {
                let one = after_bar(s0.entries[i as int], symbol@, bar@, events.deep_view());
                assert(changes.deep_view() =~= mid + one.changes);
                assert(changes.deep_view() =~= before + bar_changes(
                    s0.entries,
                    symbol@,
                    bar@,
                    events.deep_view(),
                    (i + 1) as nat,
                ));
            }
            i += 1;
        }
        proof {
            let after = bar_step(s0, symbol@, bar@, events.deep_view()).engine;
            assert(self@.entries =~= after.entries);
            assert forall|k: int| 0 <= k < s0.entries.len() implies (
            #[trigger] after.entries[k]).wf() && after.entries[k].candidate.smt_id
                == s0.entries[k].candidate.smt_id by {
                law_transitions_keep_wf(
                    s0.entries[k],
                    symbol@,
                    bar@,
                    events.deep_view(),
                    arbitrary(),
                    0,
                    None,
                    0,
                );
            }
        }
    }

    pub(crate) fn pass_deadlines(&mut self, now_ms: i64, changes: &mut Vec<CandidateChange>)
        requires
            old(self)@.wf(),
        ensures
            final(self)@ == deadline_step(old(self)@, now_ms).engine,
            final(changes).deep_view() == old(changes).deep_view() + deadline_step(
                old(self)@,
                now_ms,
            ).changes,
            final(self)@.wf(),
    {
        let ghost before = changes.deep_view();
        let ghost s0 = self@;
        let mut i: usize = 0;
        assert(changes.deep_view() =~= before + deadline_changes(s0.entries, now_ms, 0));
        while i < self.entries.len()
            invariant
                i <= self.entries.len(),
                self.entries.len() == s0.entries.len(),
                self.watchlist_id.deep_view() == s0.watchlist_id,
                self.expiry_mtf_bars == s0.expiry_mtf_bars,
                forall|k: int|
                    0 <= k < i ==> (#[trigger] self.entries@[k])@ == deadline_outcome(
                        s0.entries[k],
                        now_ms,
                    ).entry,
                forall|k: int|
                    i <= k < self.entries.len() ==> (#[trigger] self.entries@[k])@
                        == s0.entries[k],
                changes.deep_view() == before + deadline_changes(s0.entries, now_ms, i as nat),
            decreases self.entries.len() - i,
        {
            let ghost mid = changes.deep_view();
            assert(self.entries@[i as int]@ == s0.entries[i as int]);
            apply_deadline(&mut self.entries[i], now_ms, changes);
            assert(changes.deep_view() =~= before + deadline_changes(
                s0.entries,
                now_ms,
                (i + 1) as nat,
            ));
            i += 1;
        }
        proof {
            let after = deadline_step(s0, now_ms).engine;
            assert(self@.entries =~= after.entries);
            assert forall|k: int| 0 <= k < s0.entries.len() implies (
            #[trigger] after.entries[k]).wf() && after.entries[k].candidate.smt_id
                == s0.entries[k].candidate.smt_id by {
                law_transitions_keep_wf(
                    s0.entries[k],
                    Seq::empty(),
                    arbitrary(),
                    Seq::empty(),
                    arbitrary(),
                    0,
                    None,
                    now_ms,
                );
            }
        }
    }

    /// Takes a five-minute close of an instrument together with its reversals.
    pub fn on_ltf_bar_close(
        &mut self,
        symbol: &str,
        bar: &Bar,
        ltf_events: &[LtfEventRef],
        now_ms: i64,
    ) -> (r: Vec<CandidateChange>)
        requires
            old(self)@.wf(),
        ensures
            final(self)@ == ltf_step(
                old(self)@,
                symbol@,
                bar@,
                ltf_events.deep_view(),
                now_ms,
            ).engine,
            r.deep_view() == ltf_step(
                old(self)@,
                symbol@,
                bar@,
                ltf_events.deep_view(),
                now_ms,
            ).changes,
            final(self)@.wf(),
    {
        let ghost s0 = self@;
        let mut changes: Vec<CandidateChange> = Vec::new();
        self.close_bar(symbol, bar, ltf_events, &mut changes);
        self.pass_deadlines(now_ms, &mut changes);
        assert(changes.deep_view() =~= ltf_step(
            s0,
            symbol@,
            bar@,
            ltf_events.deep_view(),
            now_ms,
        ).changes);
        changes
    }
}

/// Replacing an entry by a well-formed one of the same divergence keeps the
/// engine well formed.
pub proof fn lemma_update_keeps_wf(s: EngineModel, at: int, e: EntryModel)
    requires
        s.wf(),
        0 <= at < s.entries.len(),
        e.wf(),
        e.candidate.smt_id == s.entries[at].candidate.smt_id,
    ensures
        (EngineModel { entries: s.entries.update(at, e), ..s }).wf(),
{
}

} // verus!
