//! How a run is put together from its alerts.
use vstd::prelude::*;
use crate::backtest::model::{
    nothing, outcome_words, Evaluation, EvaluationModel, Outcome, Parameters, ParametersModel, Simulation,
    SymbolCutoff, SymbolCutoffModel, Trade, TradeModel,
};
use crate::backtest::report::{
    file_under, filed, issue_buckets, make_issue_buckets, Bucket, BucketModel,
};
use crate::backtest::source::{
    alert_symbol, evidence_for, excluded, find_source_fault, holding_bars, holding_of, reject_trade,
    source_fault, traded_symbol, trade_evidence, Row, RowModel,
};
use crate::candidate::types::{CandidateSetup, PackedEvidence};
use crate::detector::{SmtDivergence, SmtModel};
use crate::text::{owned, text_before, text_eq};

verus! {

/// What the store holds of an alert.
#[derive(Debug)]
pub struct AlertRow {
    pub id: String,
    pub candidate_id: String,
    pub smt_id: String,
    pub watchlist_id: String,
    pub validation_symbol: Option<String>,
    /// The instruments, where their list can be read.
    pub trade_symbols: Option<Vec<String>>,
    pub created_at: i64,
}

/// Mathematical content of an [`AlertRow`].
pub struct AlertRowModel {
    pub id: Seq<char>,
    pub candidate_id: Seq<char>,
    pub smt_id: Seq<char>,
    pub watchlist_id: Seq<char>,
    pub validation_symbol: Option<Seq<char>>,
    pub trade_symbols: Option<Seq<Seq<char>>>,
    pub created_at: i64,
}

impl View for AlertRow {
    type V = AlertRowModel;

    open spec fn view(&self) -> AlertRowModel {
        AlertRowModel {
            id: self.id@,
            candidate_id: self.candidate_id@,
            smt_id: self.smt_id@,
            watchlist_id: self.watchlist_id@,
            validation_symbol: self.validation_symbol.deep_view(),
            trade_symbols: self.trade_symbols.deep_view(),
            created_at: self.created_at,
        }
    }
}

/// An alert before it is looked at.
pub open spec fn untried(row: AlertRowModel) -> TradeModel {
    TradeModel {
        alert_id: row.id,
        candidate_id: row.candidate_id,
        smt_id: row.smt_id,
        watchlist_id: row.watchlist_id,
        symbol: traded_symbol(row.validation_symbol, row.trade_symbols),
        as_of_ts: row.created_at,
        direction: "unknown"@,
        confidence: None,
        quality: "unknown"@,
        session: "unknown"@,
        weekly_slot: "unknown"@,
        holding_bars: 0,
        data_issues: Seq::empty(),
        available_future_m1: 0,
        guardrails: None,
        evidence_hash: None,
        simulation: nothing(Outcome::Excluded, "not_evaluated"@),
        fixed_r: Seq::empty(),
        anchor_gap: None,
        user_v1: Seq::empty(),
    }
}

/// Starts the evaluation of an alert.
pub fn begin_trade(row: AlertRow) -> (r: Trade)
    ensures
        r@ == untried(row@),
{
    let r = Trade {
        alert_id: row.id,
        candidate_id: row.candidate_id,
        smt_id: row.smt_id,
        watchlist_id: row.watchlist_id,
        symbol: alert_symbol(row.validation_symbol, row.trade_symbols),
        as_of_ts: row.created_at,
        direction: owned("unknown"),
        confidence: None,
        quality: owned("unknown"),
        session: owned("unknown"),
        weekly_slot: owned("unknown"),
        holding_bars: 0,
        data_issues: Vec::new(),
        available_future_m1: 0,
        guardrails: None,
        evidence_hash: None,
        simulation: Simulation::empty(Outcome::Excluded, "not_evaluated"),
        fixed_r: Vec::new(),
        anchor_gap: None,
        user_v1: Vec::new(),
    };
    assert(r@.data_issues =~= Seq::empty());
    assert(r@.fixed_r =~= Seq::empty());
    assert(r@.user_v1 =~= Seq::empty());
    r
}

/// The number of candles that a position is held fits.
pub open spec fn holdable(p: ParametersModel, smt: RowModel<SmtModel>) -> bool {
    smt matches RowModel::Found(m) ==> holding_of(p, m) <= usize::MAX
}

/// Reads the stored rows of an alert: the evidence that its guardrails are
/// computed from, or nothing where the alert cannot be evaluated.
pub fn prepare_trade(
    p: &Parameters,
    trade: Trade,
    candidate: &Row<CandidateSetup>,
    smt: &Row<SmtDivergence>,
    score: Option<u32>,
    context_version: &str,
    strategy_version: &str,
) -> (r: (Trade, Option<PackedEvidence>))
    requires
        holdable(p@, smt.deep_view()),
    ensures
        match source_fault(trade@, candidate.deep_view(), smt.deep_view(), score is Some) {
            Some(fault) => r.0@ == excluded(trade@, fault) && r.1 is None,
            None => {
                let c = candidate.deep_view()->Found_0;
                let m = smt.deep_view()->Found_0;
                &&& r.0@ == (TradeModel { holding_bars: holding_of(p@, m) as usize, ..trade@ })
                &&& r.1 matches Some(e) && e@ == evidence_for(
                    trade@,
                    c,
                    m,
                    score->0,
                    context_version@,
                    strategy_version@,
                )
            },
        },
{
    match find_source_fault(&trade, candidate, smt, score.is_some()) {
        Some(fault) => (reject_trade(trade, fault.as_str()), None),
        None => match (candidate, smt, score) {
            (Row::Found(c), Row::Found(m), Some(n)) => {
                let evidence = trade_evidence(&trade, c, m, n, context_version, strategy_version);
                let mut t = trade;
                t.holding_bars = holding_bars(p, m);
                (t, Some(evidence))
            },
            _ => (trade, None),
        },
    }
}

/// Opening time of the newest candle of an instrument; zero where it has none.
pub open spec fn cutoff_for(cutoffs: Seq<SymbolCutoffModel>, symbol: Seq<char>) -> i64
    decreases cutoffs.len(),
{
    if cutoffs.len() == 0 {
        0
    } else if cutoffs[0].symbol == symbol {
        cutoffs[0].cutoff
    } else {
        cutoff_for(cutoffs.drop_first(), symbol)
    }
}

/// Looks up the newest candle of an instrument.
pub fn find_cutoff(cutoffs: &Vec<SymbolCutoff>, symbol: &str) -> (r: i64)
    ensures
        r == cutoff_for(cutoffs.deep_view(), symbol@),
{
    let mut i: usize = 0;
    assert(cutoffs.deep_view().skip(0) =~= cutoffs.deep_view());
    while i < cutoffs.len()
        invariant
            i <= cutoffs.len(),
            cutoff_for(cutoffs.deep_view(), symbol@) == cutoff_for(
                cutoffs.deep_view().skip(i as int),
                symbol@,
            ),
        decreases cutoffs.len() - i,
    {
        let ghost rest = cutoffs.deep_view().skip(i as int);
        assert(rest[0] == cutoffs@[i as int]@);
        if text_eq(cutoffs[i].symbol.as_str(), symbol) {
            return cutoffs[i].cutoff;
        }
        assert(rest.drop_first() =~= cutoffs.deep_view().skip(i + 1));
        i += 1;
    }
    0
}

/// The newest of all candles; zero where there is none.
pub open spec fn newest(cutoffs: Seq<SymbolCutoffModel>) -> i64
    decreases cutoffs.len(),
{
    if cutoffs.len() == 0 {
        0
    } else if cutoffs.len() == 1 || cutoffs.last().cutoff > newest(cutoffs.drop_last()) {
        cutoffs.last().cutoff
    } else {
        newest(cutoffs.drop_last())
    }
}

fn find_newest(cutoffs: &Vec<SymbolCutoff>) -> (r: i64)
    ensures
        r == newest(cutoffs.deep_view()),
{
    let mut out: i64 = 0;
    let mut i: usize = 0;
    while i < cutoffs.len()
        invariant
            i <= cutoffs.len(),
            out == newest(cutoffs.deep_view().take(i as int)),
        decreases cutoffs.len() - i,
    {
        proof {
            let now = cutoffs.deep_view().take(i + 1);
            assert(now.drop_last() =~= cutoffs.deep_view().take(i as int));
            assert(now.last() == cutoffs@[i as int]@);
        }
        if i == 0 || cutoffs[i].cutoff > out {
            out = cutoffs[i].cutoff;
        }
        i += 1;
    }
    assert(cutoffs.deep_view().take(i as int) =~= cutoffs.deep_view());
    out
}

/// A run over a source.
pub open spec fn run_of(
    run_id: Seq<char>,
    p: ParametersModel,
    cutoffs: Seq<SymbolCutoffModel>,
    others: usize,
    trades: Seq<TradeModel>,
) -> EvaluationModel {
    EvaluationModel {
        run_id,
        parameters: p,
        source_cutoff_ts: newest(cutoffs),
        symbol_cutoffs: cutoffs,
        c2_count: trades.len() as usize,
        other_alert_count: others,
        trades,
    }
}

/// Puts a run together.
pub fn finish_run(
    run_id: String,
    parameters: Parameters,
    cutoffs: Vec<SymbolCutoff>,
    others: usize,
    trades: Vec<Trade>,
) -> (r: Evaluation)
    ensures
        r@ == run_of(run_id@, parameters@, cutoffs.deep_view(), others, trades.deep_view()),
{
    let source_cutoff_ts: i64 = find_newest(&cutoffs);
    let c2_count: usize = trades.len();
    Evaluation {
        run_id,
        parameters,
        source_cutoff_ts,
        symbol_cutoffs: cutoffs,
        c2_count,
        other_alert_count: others,
        trades,
    }
}

/// How often a word was met.
#[derive(Debug)]
pub struct Tally {
    pub label: String,
    pub count: usize,
}

/// Mathematical content of a [`Tally`].
pub struct TallyModel {
    pub label: Seq<char>,
    pub count: usize,
}

impl View for Tally {
    type V = TallyModel;

    open spec fn view(&self) -> TallyModel {
        TallyModel { label: self.label@, count: self.count }
    }
}

impl DeepView for Tally {
    type V = TallyModel;

    open spec fn deep_view(&self) -> TallyModel {
        self@
    }
}

/// The rows of each bucket, counted.
pub open spec fn tallied(groups: Seq<BucketModel>) -> Seq<TallyModel> {
    groups.map_values(
        |b: BucketModel| TallyModel { label: b.label, count: b.rows.len() as usize },
    )
}

/// The first trades, filed by their outcomes.
pub open spec fn outcome_buckets(trades: Seq<TradeModel>, n: nat) -> Seq<BucketModel>
    decreases n,
{
    if n == 0 {
        Seq::empty()
    } else {
        filed(
            outcome_buckets(trades, (n - 1) as nat),
            outcome_words(trades[n - 1].simulation.outcome),
            (n - 1) as usize,
        )
    }
}

fn tally(groups: &Vec<Bucket>) -> (r: Vec<Tally>)
    ensures
        r.deep_view() == tallied(groups.deep_view()),
{
    let mut out: Vec<Tally> = Vec::new();
    let mut i: usize = 0;
    while i < groups.len()
        invariant
            i <= groups.len(),
            out.deep_view() == tallied(groups.deep_view().take(i as int)),
        decreases groups.len() - i,
    {
        let ghost before = out.deep_view();
        out.push(Tally { label: groups[i].label.clone(), count: groups[i].rows.len() });
        proof {
            assert(groups.deep_view()[i as int] == groups@[i as int]@);
            assert(out.deep_view() =~= before.push(out@[i as int]@));
            assert(out.deep_view() =~= tallied(groups.deep_view().take(i + 1)));
        }
        i += 1;
    }
    assert(groups.deep_view().take(i as int) =~= groups.deep_view());
    out
}

/// Counts the outcomes of a run, in the order of their names.
pub fn outcome_counts(e: &Evaluation) -> (r: Vec<Tally>)
    ensures
        r.deep_view() == tallied(outcome_buckets(e@.trades, e@.trades.len())),
{
    let mut out: Vec<Bucket> = Vec::new();
    let mut n: usize = 0;
    assert(out.deep_view() =~= Seq::<BucketModel>::empty());
    while n < e.trades.len()
        invariant
            n <= e.trades.len(),
            out.deep_view() == outcome_buckets(e@.trades, n as nat),
        decreases e.trades.len() - n,
    {
        assert(e@.trades[n as int] == e.trades@[n as int]@);
        file_under(&mut out, e.trades[n].simulation.outcome.tag(), n);
        n += 1;
    }
    tally(&out)
}

/// Counts the issues of a run, in the order of their texts; one alert may have
/// several.
pub fn issue_counts(e: &Evaluation) -> (r: Vec<Tally>)
    ensures
        r.deep_view() == tallied(issue_buckets(e@.trades, e@.trades.len())),
{
    tally(&make_issue_buckets(&e.trades))
}

/// All rows in the buckets.
pub open spec fn rows_in(groups: Seq<BucketModel>) -> nat
    decreases groups.len(),
{
    if groups.len() == 0 {
        0
    } else {
        groups[0].rows.len() + rows_in(groups.drop_first())
    }
}

proof fn lemma_one_more_row(groups: Seq<BucketModel>, key: Seq<char>, row: usize)
    ensures
        rows_in(filed(groups, key, row)) == rows_in(groups) + 1,
    decreases groups.len(),
{
    let after = filed(groups, key, row);
    if groups.len() == 0 || text_before(key, groups[0].label) {
        assert(after.drop_first() =~= groups);
    } else if groups[0].label == key {
        assert(after.drop_first() =~= groups.drop_first());
    } else {
        lemma_one_more_row(groups.drop_first(), key, row);
        assert(after.drop_first() =~= filed(groups.drop_first(), key, row));
    }
}

/// Every alert of a run is counted once among the outcomes.
pub proof fn law_every_alert_has_one_outcome(trades: Seq<TradeModel>, n: nat)
    requires
        n <= trades.len(),
    ensures
        rows_in(outcome_buckets(trades, n)) == n,
    decreases n,
{
    if n > 0 {
        law_every_alert_has_one_outcome(trades, (n - 1) as nat);
        lemma_one_more_row(
            outcome_buckets(trades, (n - 1) as nat),
            outcome_words(trades[n - 1].simulation.outcome),
            (n - 1) as usize,
        );
    }
}

/// The newest candle of a run is one of an instrument, and none is newer.
pub proof fn law_the_cutoff_is_the_newest(cutoffs: Seq<SymbolCutoffModel>)
    ensures
        forall|k: int| 0 <= k < cutoffs.len() ==> (#[trigger] cutoffs[k]).cutoff <= newest(cutoffs),
        cutoffs.len() > 0 ==> exists|k: int|
            0 <= k < cutoffs.len() && (#[trigger] cutoffs[k]).cutoff == newest(cutoffs),
        cutoffs.len() == 0 ==> newest(cutoffs) == 0,
    decreases cutoffs.len(),
{
    if cutoffs.len() > 0 {
        let rest = cutoffs.drop_last();
        law_the_cutoff_is_the_newest(rest);
        assert forall|k: int| 0 <= k < cutoffs.len() implies (#[trigger] cutoffs[k]).cutoff
            <= newest(cutoffs) by {
            if k < rest.len() {
                assert(rest[k] == cutoffs[k]);
            }
        }
        if newest(cutoffs) == cutoffs.last().cutoff {
            assert(cutoffs[cutoffs.len() - 1].cutoff == newest(cutoffs));
        } else {
            let k = choose|k: int| 0 <= k < rest.len() && (#[trigger] rest[k]).cutoff == newest(rest);
            assert(cutoffs[k] == rest[k]);
        }
    }
}

} // verus!
