//! What is promised of the evaluation of one alert.
use vstd::prelude::*;
use crate::backtest::model::{ExitMode, ParametersModel, TradeFactsModel, TradeModel};
use crate::backtest::simulator::simulated;
use crate::backtest::source::{
    evaluated, evidence_for, excluded, filled_in, gap_words, holding_of, issue_outcome,
    session_words, slot_words, source_fault, traded_symbol, usable_bars, user_grid, weekday_words,
    RowModel,
};
use crate::calendar::new_york_at;
use crate::candidate::close_laws::{chain_at, lemma_chain_at};
use crate::candidate::rules::first_chain;
use crate::candidate::types::CandidateModel;
use crate::detector::{SmtModel, SymbolChainModel};
use crate::text::lemma_push_contains;
use crate::types::{duration, BarModel};

verus! {

/// A candle that a simulation may look at: it opens at the alert or later, and the
/// next minute had begun when the source was read.
pub open spec fn visible(bar: BarModel, as_of: i64, cutoff: i64) -> bool {
    as_of <= bar.ts && bar.ts + 60_000 <= cutoff
}

/// A simulation looks at visible candles alone, at no more than it may, and leaves
/// none out before it has that many; what it sees of a shorter history comes first.
pub proof fn law_simulations_see_the_first_visible_candles(
    bars: Seq<BarModel>,
    as_of: i64,
    cutoff: i64,
    limit: int,
    x: BarModel,
    n: int,
)
    requires
        limit >= 0,
        0 <= n <= bars.len(),
    ensures
        ({
            let seen = usable_bars(bars, as_of, cutoff, limit);
            let sooner = usable_bars(bars.take(n), as_of, cutoff, limit);
            &&& seen.len() <= limit
            &&& seen.contains(x) ==> bars.contains(x) && visible(x, as_of, cutoff)
            &&& bars.contains(x) && visible(x, as_of, cutoff) && seen.len() < limit
                ==> seen.contains(x)
            &&& sooner.len() <= seen.len()
            &&& seen.take(sooner.len() as int) == sooner
        }),
    decreases bars.len(),
{
    let seen = usable_bars(bars, as_of, cutoff, limit);
    if bars.len() == 0 {
        assert(bars.take(n) =~= bars);
        assert(seen.take(seen.len() as int) =~= seen);
    } else {
        let front = bars.drop_last();
        let rest = usable_bars(front, as_of, cutoff, limit);
        let m = if n < bars.len() {
            n
        } else {
            front.len() as int
        };
        law_simulations_see_the_first_visible_candles(front, as_of, cutoff, limit, x, m);
        lemma_push_contains(rest, bars.last(), x);
        lemma_push_contains(front, bars.last(), x);
        assert(front.push(bars.last()) =~= bars);
        if n == bars.len() {
            assert(bars.take(n) =~= bars);
            assert(seen.take(seen.len() as int) =~= seen);
        } else {
            assert(bars.take(n) =~= front.take(n));
            let sooner = usable_bars(front.take(n), as_of, cutoff, limit);
            assert(seen.take(sooner.len() as int) =~= rest.take(sooner.len() as int));
        }
    }
}

/// Whatever an alert comes to, it stays the same alert.
pub proof fn law_an_evaluated_alert_is_the_same(p: ParametersModel, t: TradeModel, f: TradeFactsModel)
    ensures
        ({
            let r = filled_in(p.mode, evaluated(p, t, f));
            &&& r.alert_id == t.alert_id
            &&& r.candidate_id == t.candidate_id
            &&& r.smt_id == t.smt_id
            &&& r.watchlist_id == t.watchlist_id
            &&& r.symbol == t.symbol
            &&& r.as_of_ts == t.as_of_ts
            &&& r.holding_bars == t.holding_bars
            &&& r.evidence_hash == Some(f.evidence_hash)
            &&& r.direction == f.direction
            &&& r.quality == f.quality
            &&& r.confidence == Some(f.confidence)
            &&& r.data_issues.len() >= t.data_issues.len()
        }),
{
}

/// An alert lacks something that its simulation needs.
pub open spec fn lacking(p: ParametersModel, t: TradeModel, f: TradeFactsModel) -> bool {
    ||| t.data_issues.len() > 0
    ||| f.anchor_close is None
    ||| t.as_of_ts > f.cutoff
    ||| !(p.mode is UserV1) && (f.guardrails.entry_zone is None
        || f.guardrails.invalidation_price is None)
    ||| p.mode is Targets && f.guardrails.targets.len() == 0
}

/// An alert that lacks something is not simulated: no result is a win or a loss,
/// and it says an issue.
pub proof fn law_incomplete_alerts_are_not_simulated(
    p: ParametersModel,
    t: TradeModel,
    f: TradeFactsModel,
)
    requires
        lacking(p, t, f),
        t.fixed_r.len() == 0,
        t.user_v1.len() == 0,
    ensures
        ({
            let r = evaluated(p, t, f);
            &&& r.simulation.outcome is Excluded || r.simulation.outcome is InsufficientData
            &&& r.simulation.entry is None
            &&& r.simulation.realized_rr is None
            &&& r.fixed_r.len() == 0
            &&& r.user_v1.len() == 0
            &&& r.data_issues.len() > 0
        }),
{
}

/// A complete alert is simulated on the visible candles from the close before it:
/// towards its targets, or with an exit at one, two and three times the risk, of
/// which the first is the result.
pub proof fn law_complete_alerts_are_simulated(
    p: ParametersModel,
    t: TradeModel,
    f: TradeFactsModel,
    k: int,
)
    requires
        !lacking(p, t, f),
        0 <= k < 3,
    ensures
        new_york_at(t.as_of_ts) is Some ==> ({
            let r = evaluated(p, t, f);
            let bars = usable_bars(f.bars, t.as_of_ts, f.cutoff, p.entry_bars + t.holding_bars);
            let run = |goal: Option<u32>|
                simulated(
                    f.guardrails,
                    t.as_of_ts,
                    f.anchor_close->0,
                    bars,
                    p.entry_bars,
                    t.holding_bars,
                    goal,
                );
            &&& r.available_future_m1 == bars.len() as usize
            &&& p.mode is Targets ==> r.simulation == run(None) && (r.data_issues.len() > 0 <==> (
            r.simulation.outcome is Excluded || r.simulation.outcome is DataGap
                || r.simulation.outcome is InsufficientData))
            &&& p.mode is FixedR ==> r.simulation == run(Some(1_000)) && r.fixed_r.len() == 3
                && r.fixed_r[k].multiple == k + 1 && r.fixed_r[k].simulation == run(
                Some((1_000 * (k + 1)) as u32),
            )
            &&& p.mode is UserV1 && f.confirmed_c2 is Some ==> r.fixed_r.len() == 3
                && r.fixed_r[k].multiple == k + 1 && r.user_v1.len() == t.user_v1.len() + 12
            &&& p.mode is UserV1 && f.confirmed_c2 is None ==> r.simulation.outcome is Excluded
                && r.data_issues.len() > 0
        }),
{
    let r = evaluated(p, t, f);
    if new_york_at(t.as_of_ts) is Some && p.mode is FixedR {
        assert(r.fixed_r[0].simulation == r.simulation);
        assert(((0 + 1) * 1000) as u32 == 1_000u32);
        assert((k + 1) * 1000 == 1000 * (k + 1));
    }
}

/// The grid holds every stop buffer of none, five and ten points with every
/// multiple of one, one and a half, two and three risks.
pub proof fn law_the_grid_is_complete(
    p: ParametersModel,
    t: TradeModel,
    f: TradeFactsModel,
    buffer: u8,
    multiple: u32,
) -> (k: int)
    requires
        !lacking(p, t, f),
        p.mode is UserV1,
        f.confirmed_c2 is Some,
        t.user_v1.len() == 0,
        buffer == 0 || buffer == 5 || buffer == 10,
        multiple == 1_000 || multiple == 1_500 || multiple == 2_000 || multiple == 3_000,
    ensures
        new_york_at(t.as_of_ts) is Some ==> ({
            let r = evaluated(p, t, f);
            &&& 0 <= k < r.user_v1.len()
            &&& r.user_v1[k].buffer_points == buffer
            &&& r.user_v1[k].multiple == multiple
        }),
{
    let row: int = if buffer == 0 {
        0
    } else if buffer == 5 {
        1
    } else {
        2
    };
    let column: int = if multiple == 1_000 {
        0
    } else if multiple == 1_500 {
        1
    } else if multiple == 2_000 {
        2
    } else {
        3
    };
    let k = 4 * row + column;
    assert(k / 4 == row && k % 4 == column);
    let bars = usable_bars(f.bars, t.as_of_ts, f.cutoff, p.entry_bars + t.holding_bars);
    let grid = user_grid(
        f.guardrails,
        f.point,
        f.confirmed_c2->0,
        t.as_of_ts,
        f.anchor_close->0,
        bars,
        t.holding_bars,
    );
    assert(t.user_v1 + grid =~= grid);
    k
}

/// An alert that was not simulated says the same in every place of its mode.
pub proof fn law_empty_places_are_filled(mode: ExitMode, t: TradeModel, k: int)
    ensures
        ({
            let r = filled_in(mode, t);
            &&& r.simulation == t.simulation
            &&& t.fixed_r.len() > 0 || mode is Targets ==> r.fixed_r == t.fixed_r
            &&& t.user_v1.len() > 0 || !(mode is UserV1) ==> r.user_v1 == t.user_v1
            &&& t.fixed_r.len() == 0 && !(mode is Targets) && 0 <= k < 3 ==> r.fixed_r.len() == 3
                && r.fixed_r[k].multiple == k + 1 && r.fixed_r[k].simulation == t.simulation
            &&& t.user_v1.len() == 0 && mode is UserV1 && 0 <= k < 12 ==> r.user_v1.len() == 12
                && r.user_v1[k].simulation == t.simulation && r.user_v1[k].stop is None
        }),
{
}

/// A position is held as long as it is told to, or else for a number of comparison
/// candles.
pub proof fn law_positions_are_held_in_minutes(p: ParametersModel, smt: SmtModel)
    ensures
        p.holding_bars matches Some(n) ==> holding_of(p, smt) == n,
        p.holding_bars is None ==> 60_000 * holding_of(p, smt) == p.ttl_mtf_bars * duration(
            smt.comparison_timeframe,
        ),
{
    let d = duration(smt.comparison_timeframe);
    let n = p.ttl_mtf_bars as int;
    assert(d % 60_000 == 0);
    assert(60_000 * (n * (d / 60_000)) == n * (60_000 * (d / 60_000))) by (nonlinear_arith);
    assert(60_000 * (d / 60_000) == d);
}

/// The chain of an instrument has a second candle.
pub open spec fn has_second(smt: SmtModel, symbol: Seq<char>) -> bool {
    exists|i: int| #[trigger] chain_at(smt.chains, symbol, i) && smt.chains[i].c2_candle is Some
}

proof fn lemma_has_second(smt: SmtModel, symbol: Seq<char>)
    ensures
        has_second(smt, symbol) <==> (first_chain(smt.chains, symbol) matches Some(c)
            && c.c2_candle is Some),
{
    assert forall|i: int| #[trigger] chain_at(smt.chains, symbol, i) implies first_chain(
        smt.chains,
        symbol,
    ) == Some(smt.chains[i]) by {
        lemma_chain_at(smt.chains, symbol, i);
    }
    if first_chain(smt.chains, symbol) is Some {
        let i = lemma_first_at(smt.chains, symbol);
        assert(chain_at(smt.chains, symbol, i));
    }
}

proof fn lemma_first_at(
    chains: Seq<SymbolChainModel>,
    symbol: Seq<char>,
) -> (i: int)
    requires
        first_chain(chains, symbol) is Some,
    ensures
        chain_at(chains, symbol, i),
    decreases chains.len(),
{
    if chains[0].symbol == symbol {
        0
    } else {
        let rest = chains.drop_first();
        let i = lemma_first_at(rest, symbol);
        assert forall|k: int| 0 <= k < i + 1 implies (#[trigger] chains[k]).symbol != symbol by {
            if k > 0 {
                assert(rest[k - 1] == chains[k]);
            }
        }
        assert(chains[i + 1] == rest[i]);
        i + 1
    }
}

/// An alert can be evaluated where its instrument is clear, both of its rows were
/// read and are its own, its score is known, and the sweeper and the instrument
/// have their second candles; and in no other case.
pub proof fn law_sources_belong_to_their_alert(
    t: TradeModel,
    candidate: RowModel<CandidateModel>,
    smt: RowModel<SmtModel>,
    score_known: bool,
)
    ensures
        source_fault(t, candidate, smt, score_known) is None <==> t.symbol.len() > 0 && score_known
            && (candidate matches RowModel::Found(c) && c.smt_id == t.smt_id && c.watchlist_id
            == t.watchlist_id) && (smt matches RowModel::Found(m) && m.watchlist_id
            == t.watchlist_id && has_second(m, m.sweeper_symbol) && has_second(m, t.symbol)),
{
    if let RowModel::Found(m) = smt {
        lemma_has_second(m, m.sweeper_symbol);
        lemma_has_second(m, t.symbol);
    }
}

/// The instrument of an alert is the validated one; without it the only traded
/// one, and none where several are traded.
pub proof fn law_the_instrument_is_unambiguous(
    recorded: Option<Seq<char>>,
    traded: Option<Seq<Seq<char>>>,
)
    ensures
        recorded matches Some(s) ==> traded_symbol(recorded, traded) == s,
        recorded is None ==> (traded matches Some(list) ==> (list.len() == 1 ==> traded_symbol(
            recorded,
            traded,
        ) == list[0]) && (list.len() != 1 ==> traded_symbol(recorded, traded).len() == 0)),
        recorded is None && traded is None ==> traded_symbol(recorded, traded).len() == 0,
{
}

/// What could not be looked up says so as missing data; what cannot be evaluated
/// at all is excluded.
pub proof fn law_missing_minutes_are_missing_data(t: TradeModel, reason: Seq<char>)
    ensures
        issue_outcome("missing_anchor_m1_close"@) is InsufficientData,
        issue_outcome("anchor_after_source_cutoff"@) is InsufficientData,
        issue_outcome("missing_entry_zone"@) is Excluded,
        issue_outcome("missing_invalidation"@) is Excluded,
        issue_outcome("missing_target"@) is Excluded,
        excluded(t, reason).simulation.outcome is Excluded,
        excluded(t, reason).simulation.reason == reason,
        excluded(t, reason).data_issues == t.data_issues.push(reason),
{
    reveal_strlit("missing_anchor");
    reveal_strlit("missing_anchor_m1_close");
    reveal_strlit("anchor_after_source_cutoff");
    reveal_strlit("missing_entry_zone");
    reveal_strlit("missing_invalidation");
    reveal_strlit("missing_target");
    assert("missing_entry_zone"@[8] != "missing_anchor"@[8]);
    assert("missing_invalidation"@[8] != "missing_anchor"@[8]);
    assert("missing_target"@[8] != "missing_anchor"@[8]);
    assert("missing_entry_zone"@[0] != "anchor_after_source_cutoff"@[0]);
    assert("missing_invalidation"@[0] != "anchor_after_source_cutoff"@[0]);
    assert("missing_target"@[0] != "anchor_after_source_cutoff"@[0]);
    assert("missing_anchor_m1_close"@.take("missing_anchor"@.len() as int) =~= "missing_anchor"@);
}

/// A missing minute lies before the stored ones, behind them, in a weekend, or in
/// a hole.
pub proof fn law_gaps_are_told_apart(
    expected: int,
    first: Option<i64>,
    last: Option<i64>,
    weekday: int,
    hour: int,
)
    requires
        0 <= weekday <= 6,
        0 <= hour <= 23,
    ensures
        ({
            let words = gap_words(expected, first, last, weekday, hour);
            let closed = weekday == 6 || (weekday == 5 && hour > 16) || (weekday == 0 && hour <= 16);
            &&& first is None ==> words == "no_m1_series"@
            &&& (first matches Some(a) && expected < a) ==> words == "before_m1_coverage"@
            &&& (first matches Some(a) && a <= expected) && (last matches Some(b) && b < expected)
                ==> words == "after_m1_coverage"@
            &&& (first matches Some(a) && a <= expected) && (last matches Some(b) ==> expected <= b)
                && closed ==> words == "possible_weekend_closure"@
            &&& (first matches Some(a) && a <= expected) && (last matches Some(b) ==> expected <= b)
                && !closed ==> words == "internal_gap"@
        }),
{
}

/// The sessions of a New York day: Asia in the last four hours, London from two to
/// five and from ten to noon, New York from seven to ten.
pub proof fn law_sessions_follow_the_new_york_day(hour: int)
    requires
        0 <= hour <= 23,
    ensures
        hour > 19 ==> session_words(hour) == "Asia"@,
        1 < hour < 5 || hour == 10 || hour == 11 ==> session_words(hour) == "London"@,
        6 < hour < 10 ==> session_words(hour) == "NY"@,
        hour < 2 || hour == 5 || hour == 6 || 11 < hour < 20 ==> session_words(hour)
            == "Off-hours"@,
{
}

/// Days have their names, and the hours of four share a slot.
pub proof fn law_slots_are_four_hours_long(weekday: int, a: int, b: int)
    requires
        0 <= a <= 23,
        0 <= b <= 23,
    ensures
        a / 4 == b / 4 ==> slot_words(weekday, a) == slot_words(weekday, b),
        slot_words(weekday, a).take(weekday_words(weekday).len() as int) == weekday_words(weekday),
        weekday_words(0) == "Sun"@,
        weekday_words(1) == "Mon"@,
        weekday_words(2) == "Tue"@,
        weekday_words(3) == "Wed"@,
        weekday_words(4) == "Thu"@,
        weekday_words(5) == "Fri"@,
        weekday_words(6) == "Sat"@,
{
    assert(slot_words(weekday, a).take(weekday_words(weekday).len() as int) =~= weekday_words(
        weekday,
    ));
}

/// The evidence of an alert is its own: its group, instrument and time, its score,
/// and the divergence with its price area and liquidity.
pub proof fn law_evidence_is_that_of_the_alert(
    t: TradeModel,
    c: CandidateModel,
    smt: SmtModel,
    score: u32,
    context_version: Seq<char>,
    strategy_version: Seq<char>,
)
    ensures
        ({
            let e = evidence_for(t, c, smt, score, context_version, strategy_version);
            &&& e.candidate_id == c.id
            &&& e.candidate.deterministic_score == score
            &&& e.candidate.id == c.id
            &&& e.candidate.setup_status == c.setup_status
            &&& e.alert_id == Some(t.alert_id)
            &&& e.trade_symbol == Some(t.symbol)
            &&& e.as_of_ts == t.as_of_ts
            &&& e.watchlist_id == t.watchlist_id
            &&& e.smt == smt
            &&& e.pda_context == smt.htf_pda_ref
            &&& e.liquidity_refs == smt.liquidity_refs
            &&& e.strength == smt.strength
        }),
{
}

} // verus!
