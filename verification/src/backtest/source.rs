//! How one stored alert is evaluated.
use vstd::prelude::*;
use crate::backtest::model::{
    nothing, AnchorGap, AnchorGapModel, ExitMode, FixedRResult, FixedRResultModel, GuardrailsModel,
    Outcome, Parameters, ParametersModel, Simulation, SimulationModel, Trade, TradeFacts,
    TradeFactsModel, TradeModel, UserResult, UserResultModel, MINUTE,
};
use crate::backtest::simulator::{
    closable, entered_at, simulate, simulate_anchor, simulate_exit, simulate_user, simulated,
    user_simulated,
};
use crate::calendar::{new_york, new_york_at};
use crate::candidate::rules::{find_chain, first_chain};
use crate::candidate::types::{CandidateModel, CandidateSetup, EvidenceModel, PackedEvidence};
use crate::detector::{CandleRef, SmtDivergence, SmtModel};
use crate::text::{begins_with, owned, starts_with, text_eq, two_digits};
use crate::types::{clamped, duration, saturating_difference, Bar, BarModel};

verus! {

/// The trading session at an hour of the New York day.
pub open spec fn session_words(hour: int) -> Seq<char> {
    if 20 <= hour {
        "Asia"@
    } else if 2 <= hour <= 4 || 10 <= hour <= 11 {
        "London"@
    } else if 7 <= hour <= 9 {
        "NY"@
    } else {
        "Off-hours"@
    }
}

/// The short name of a day; Sunday is 0.
pub open spec fn weekday_words(weekday: int) -> Seq<char> {
    if weekday == 0 {
        "Sun"@
    } else if weekday == 1 {
        "Mon"@
    } else if weekday == 2 {
        "Tue"@
    } else if weekday == 3 {
        "Wed"@
    } else if weekday == 4 {
        "Thu"@
    } else if weekday == 5 {
        "Fri"@
    } else {
        "Sat"@
    }
}

/// The four hours of the week that an hour falls into.
pub open spec fn slot_words(weekday: int, hour: int) -> Seq<char> {
    weekday_words(weekday) + " "@ + two_digits((hour / 4 * 4) as nat) + ":00-"@ + two_digits(
        (hour / 4 * 4 + 4) as nat,
    ) + ":00 NY"@
}

fn two_digit_text(n: u32) -> (r: String)
    requires
        n < 100,
    ensures
        r@ == two_digits(n as nat),
{
    let mut out = String::new();
    if n < 10 {
        out.push('0');
    }
    crate::text::push_decimal(&mut out, n as i64);
    assert(out@ =~= two_digits(n as nat));
    out
}

/// The session and the four-hour slot at a New York weekday and hour.
pub fn buckets_at(weekday: u32, hour: u32) -> (r: (String, String))
    requires
        hour <= 23,
    ensures
        r.0@ == session_words(hour as int),
        r.1@ == slot_words(weekday as int, hour as int),
{
    let session = if 20 <= hour {
        owned("Asia")
    } else if (2 <= hour && hour <= 4) || (10 <= hour && hour <= 11) {
        owned("London")
    } else if 7 <= hour && hour <= 9 {
        owned("NY")
    } else {
        owned("Off-hours")
    };
    let mut slot = if weekday == 0 {
        owned("Sun")
    } else if weekday == 1 {
        owned("Mon")
    } else if weekday == 2 {
        owned("Tue")
    } else if weekday == 3 {
        owned("Wed")
    } else if weekday == 4 {
        owned("Thu")
    } else if weekday == 5 {
        owned("Fri")
    } else {
        owned("Sat")
    };
    slot.append(" ");
    slot.append(two_digit_text(hour / 4 * 4).as_str());
    slot.append(":00-");
    slot.append(two_digit_text(hour / 4 * 4 + 4).as_str());
    slot.append(":00 NY");
    (session, slot)
}

/// The session and the four-hour slot of an instant.
pub fn time_buckets(ts: i64) -> (r: Result<(String, String), String>)
    ensures
        match (new_york_at(ts), r) {
            (Some(c), Ok(b)) => b.0@ == session_words(c.3 as int) && b.1@ == slot_words(
                c.2 as int,
                c.3 as int,
            ),
            (None, Err(e)) => e@ == "invalid_timestamp"@,
            _ => false,
        },
{
    match new_york(ts) {
        Some(c) => Ok(buckets_at(c.2, c.3)),
        None => Err(owned("invalid_timestamp")),
    }
}

/// Why a minute is missing; `weekday` and `hour` are those of the minute in
/// New York.
pub open spec fn gap_words(
    expected: int,
    first: Option<i64>,
    last: Option<i64>,
    weekday: int,
    hour: int,
) -> Seq<char> {
    if first is None {
        "no_m1_series"@
    } else if expected < first->0 {
        "before_m1_coverage"@
    } else if last is Some && expected > last->0 {
        "after_m1_coverage"@
    } else if weekday == 6 || (weekday == 5 && hour >= 17) || (weekday == 0 && hour < 17) {
        "possible_weekend_closure"@
    } else {
        "internal_gap"@
    }
}

/// Why a minute is missing.
pub fn gap_category(
    expected: i64,
    first: Option<i64>,
    last: Option<i64>,
    weekday: u32,
    hour: u32,
) -> (r: &'static str)
    ensures
        r@ == gap_words(expected as int, first, last, weekday as int, hour as int),
{
    let first: i64 = match first {
        Some(first) => first,
        None => return "no_m1_series",
    };
    if expected < first {
        return "before_m1_coverage";
    }
    let behind = match last {
        Some(last) => expected > last,
        None => false,
    };
    if behind {
        "after_m1_coverage"
    } else if weekday == 6 || (weekday == 5 && hour >= 17) || (weekday == 0 && hour < 17) {
        "possible_weekend_closure"
    } else {
        "internal_gap"
    }
}

/// The gap in front of an alert; absent where the minute lies outside the
/// calendar.
pub open spec fn gap_of(as_of: i64, f: TradeFactsModel) -> Option<AnchorGapModel> {
    let expected = clamped(as_of - MINUTE) as i64;
    match new_york_at(expected) {
        Some(c) => Some(
            AnchorGapModel {
                category: gap_words(
                    expected as int,
                    f.first_m1,
                    f.last_m1,
                    c.2 as int,
                    c.3 as int,
                ),
                expected_ts: expected,
                first_m1: f.first_m1,
                last_m1: f.last_m1,
                previous_m1: f.previous_m1,
                next_m1: f.next_m1,
                comparison_close_available: f.comparison_close_available,
            },
        ),
        None => None,
    }
}

/// Describes the gap in front of an alert.
pub fn anchor_gap(as_of: i64, f: &TradeFacts) -> (r: Option<AnchorGap>)
    ensures
        r.deep_view() == gap_of(as_of, f@),
{
    let expected: i64 = saturating_difference(as_of, MINUTE);
    match new_york(expected) {
        Some(c) => Some(
            AnchorGap {
                category: owned(gap_category(expected, f.first_m1, f.last_m1, c.2, c.3)),
                expected_ts: expected,
                first_m1: f.first_m1,
                last_m1: f.last_m1,
                previous_m1: f.previous_m1,
                next_m1: f.next_m1,
                comparison_close_available: f.comparison_close_available,
            },
        ),
        None => None,
    }
}

/// The instrument of an alert: the recorded one, or the only traded one;
/// empty where neither is clear.
pub open spec fn traded_symbol(
    recorded: Option<Seq<char>>,
    traded: Option<Seq<Seq<char>>>,
) -> Seq<char> {
    match recorded {
        Some(s) => s,
        None => match traded {
            Some(list) => if list.len() == 1 {
                list[0]
            } else {
                Seq::empty()
            },
            None => Seq::empty(),
        },
    }
}

/// Finds the instrument of an alert.
pub fn alert_symbol(recorded: Option<String>, traded: Option<Vec<String>>) -> (r: String)
    ensures
        r@ == traded_symbol(recorded.deep_view(), traded.deep_view()),
{
    match recorded {
        Some(s) => s,
        None => match traded {
            Some(list) => if list.len() == 1 {
                list[0].clone()
            } else {
                String::new()
            },
            None => String::new(),
        },
    }
}

/// A stored row: absent, unreadable, or found. Of a row that cannot be used the
/// words of the store or of the reader are kept.
pub enum Row<T> {
    Missing(String),
    Malformed(String),
    Found(T),
}

/// Mathematical content of a [`Row`].
pub enum RowModel<V> {
    Missing(Seq<char>),
    Malformed(Seq<char>),
    Found(V),
}

impl<T: DeepView> DeepView for Row<T> {
    type V = RowModel<T::V>;

    open spec fn deep_view(&self) -> RowModel<T::V> {
        match *self {
            Row::Missing(said) => RowModel::Missing(said@),
            Row::Malformed(said) => RowModel::Malformed(said@),
            Row::Found(x) => RowModel::Found(x.deep_view()),
        }
    }
}

/// A fault with what was said of it.
pub open spec fn explained(fault: Seq<char>, said: Seq<char>) -> Seq<char> {
    fault + ": "@ + said
}

fn explain(fault: &str, said: &str) -> (r: String)
    ensures
        r@ == explained(fault@, said@),
{
    let mut out = owned(fault);
    out.append(": ");
    out.append(said);
    assert(out@ =~= explained(fault@, said@));
    out
}

/// What is wrong with the chain of an instrument.
pub open spec fn chain_fault(smt: SmtModel, symbol: Seq<char>) -> Option<Seq<char>> {
    match first_chain(smt.chains, symbol) {
        None => Some("missing_chain"@),
        Some(chain) => if chain.c2_candle is None {
            Some("missing_c2"@)
        } else {
            None
        },
    }
}

/// Why an alert cannot be evaluated from its stored rows: both rows have to be
/// there and readable, belong to the alert, and hold the confirmed second
/// candles of the sweeper and of the instrument.
pub open spec fn source_fault(
    t: TradeModel,
    candidate: RowModel<CandidateModel>,
    smt: RowModel<SmtModel>,
    score_known: bool,
) -> Option<Seq<char>> {
    if t.symbol.len() == 0 {
        Some("missing_unambiguous_trade_symbol"@)
    } else if candidate is Missing {
        Some(explained("missing_candidate"@, candidate->Missing_0))
    } else if smt is Missing {
        Some(explained("missing_smt"@, smt->Missing_0))
    } else if candidate is Malformed {
        Some(explained("malformed_candidate"@, candidate->Malformed_0))
    } else if smt is Malformed {
        Some(explained("malformed_smt"@, smt->Malformed_0))
    } else {
        let c = candidate->Found_0;
        let m = smt->Found_0;
        if c.smt_id != t.smt_id || c.watchlist_id != t.watchlist_id || m.watchlist_id
            != t.watchlist_id {
            Some("source_identity_mismatch"@)
        } else if !score_known {
            Some("invalid_alert_score"@)
        } else if chain_fault(m, m.sweeper_symbol) is Some {
            chain_fault(m, m.sweeper_symbol)
        } else {
            chain_fault(m, t.symbol)
        }
    }
}

fn find_chain_fault(smt: &SmtDivergence, symbol: &str) -> (r: Option<&'static str>)
    ensures
        match r {
            Some(e) => chain_fault(smt@, symbol@) == Some(e@),
            None => chain_fault(smt@, symbol@) is None,
        },
{
    match find_chain(&smt.chains, symbol) {
        None => Some("missing_chain"),
        Some(chain) => if chain.c2_candle.is_none() {
            Some("missing_c2")
        } else {
            None
        },
    }
}

/// Says why an alert cannot be evaluated from its stored rows.
pub fn find_source_fault(
    t: &Trade,
    candidate: &Row<CandidateSetup>,
    smt: &Row<SmtDivergence>,
    score_known: bool,
) -> (r: Option<String>)
    ensures
        match r {
            Some(e) => source_fault(t@, candidate.deep_view(), smt.deep_view(), score_known)
                == Some(e@),
            None => source_fault(t@, candidate.deep_view(), smt.deep_view(), score_known) is None,
        },
{
    proof {
        reveal_strlit("");
        assert(t@.symbol.len() == 0 ==> t@.symbol =~= ""@);
    }
    if text_eq(t.symbol.as_str(), "") {
        return Some(owned("missing_unambiguous_trade_symbol"));
    }
    match candidate {
        Row::Missing(said) => return Some(explain("missing_candidate", said.as_str())),
        _ => {},
    }
    match smt {
        Row::Missing(said) => return Some(explain("missing_smt", said.as_str())),
        _ => {},
    }
    let c = match candidate {
        Row::Found(c) => c,
        Row::Malformed(said) => return Some(explain("malformed_candidate", said.as_str())),
        Row::Missing(_) => return None,
    };
    let m = match smt {
        Row::Found(m) => m,
        Row::Malformed(said) => return Some(explain("malformed_smt", said.as_str())),
        Row::Missing(_) => return None,
    };
    if !text_eq(c.smt_id.as_str(), t.smt_id.as_str()) || !text_eq(
        c.watchlist_id.as_str(),
        t.watchlist_id.as_str(),
    ) || !text_eq(m.watchlist_id.as_str(), t.watchlist_id.as_str()) {
        return Some(owned("source_identity_mismatch"));
    }
    if !score_known {
        return Some(owned("invalid_alert_score"));
    }
    match find_chain_fault(m, m.sweeper_symbol.as_str()) {
        Some(e) => return Some(owned(e)),
        None => {},
    }
    match find_chain_fault(m, t.symbol.as_str()) {
        Some(e) => Some(owned(e)),
        None => None,
    }
}

/// How many candles a position is held: as configured, or a number of
/// comparison candles in minutes.
pub open spec fn holding_of(p: ParametersModel, smt: SmtModel) -> int {
    match p.holding_bars {
        Some(n) => n as int,
        None => p.ttl_mtf_bars * (duration(smt.comparison_timeframe) / (MINUTE as int)),
    }
}

/// How many candles a position is held.
pub fn holding_bars(p: &Parameters, smt: &SmtDivergence) -> (r: usize)
    requires
        holding_of(p@, smt@) <= usize::MAX,
    ensures
        r == holding_of(p@, smt@),
{
    match p.holding_bars {
        Some(n) => n,
        None => {
            let minutes: i64 = smt.comparison_timeframe.duration_ms() / MINUTE;
            assert(1 <= minutes <= 100_000);
            assert(p.ttl_mtf_bars <= p.ttl_mtf_bars * minutes) by (nonlinear_arith)
                requires
                    minutes >= 1,
                    p.ttl_mtf_bars >= 0,
            ;
            let n: usize = minutes as usize;
            p.ttl_mtf_bars * n
        },
    }
}

/// The evidence that the guardrails of an alert are computed from; the score
/// is the one of the alert.
pub open spec fn evidence_for(
    t: TradeModel,
    c: CandidateModel,
    smt: SmtModel,
    score: u32,
    context_version: Seq<char>,
    strategy_version: Seq<char>,
) -> EvidenceModel {
    EvidenceModel {
        candidate_id: c.id,
        candidate: CandidateModel { deterministic_score: score, ..c },
        watchlist_id: t.watchlist_id,
        alert_id: Some(t.alert_id),
        trade_symbol: Some(t.symbol),
        as_of_ts: t.as_of_ts,
        smt,
        ltf_cisd_mss: Seq::empty(),
        pda_context: smt.htf_pda_ref,
        liquidity_refs: smt.liquidity_refs,
        strength: smt.strength,
        context_version,
        strategy_version,
        market_bars: Seq::empty(),
        market_structures: Seq::empty(),
    }
}

/// Packs the evidence that the guardrails of an alert are computed from.
pub fn trade_evidence(
    t: &Trade,
    candidate: &CandidateSetup,
    smt: &SmtDivergence,
    score: u32,
    context_version: &str,
    strategy_version: &str,
) -> (r: PackedEvidence)
    ensures
        r@ == evidence_for(t@, candidate@, smt@, score, context_version@, strategy_version@),
{
    let mut c = candidate.clone();
    c.deterministic_score = score;
    let m = smt.clone();
    let again = smt.clone();
    let r = PackedEvidence {
        candidate_id: candidate.id.clone(),
        candidate: c,
        watchlist_id: t.watchlist_id.clone(),
        alert_id: Some(t.alert_id.clone()),
        trade_symbol: Some(t.symbol.clone()),
        as_of_ts: t.as_of_ts,
        smt: m,
        ltf_cisd_mss: Vec::new(),
        pda_context: again.htf_pda_ref,
        liquidity_refs: again.liquidity_refs,
        strength: again.strength,
        context_version: owned(context_version),
        strategy_version: owned(strategy_version),
        market_bars: Vec::new(),
        market_structures: Vec::new(),
    };
    proof {
        let e = evidence_for(t@, candidate@, smt@, score, context_version@, strategy_version@);
        assert(r@.ltf_cisd_mss =~= e.ltf_cisd_mss);
        assert(r@.market_bars =~= e.market_bars);
        assert(r@.market_structures =~= e.market_structures);
    }
    r
}

/// The list with a text added where a condition holds.
pub open spec fn with_issue(list: Seq<Seq<char>>, holds: bool, issue: Seq<char>) -> Seq<Seq<char>> {
    if holds {
        list.push(issue)
    } else {
        list
    }
}

/// What is missing before a simulation can start.
pub open spec fn issues_of(t: TradeModel, mode: ExitMode, f: TradeFactsModel) -> Seq<Seq<char>> {
    let a = with_issue(
        t.data_issues,
        f.guardrails.entry_zone is None && !(mode is UserV1),
        "missing_entry_zone"@,
    );
    let b = with_issue(
        a,
        f.guardrails.invalidation_price is None && !(mode is UserV1),
        "missing_invalidation"@,
    );
    let c = with_issue(b, f.guardrails.targets.len() == 0 && mode is Targets, "missing_target"@);
    let d = with_issue(c, t.as_of_ts > f.cutoff, "anchor_after_source_cutoff"@);
    with_issue(d, f.anchor_close is None, "missing_anchor_m1_close"@)
}

fn add_issue(list: &mut Vec<String>, holds: bool, issue: &str)
    ensures
        final(list).deep_view() == with_issue(old(list).deep_view(), holds, issue@),
{
    if holds {
        let ghost before = list.deep_view();
        list.push(owned(issue));
        assert(list.deep_view() =~= before.push(issue@));
    }
}

/// The candle can be looked at: it starts at the alert or later, and it is
/// closed for certain because a newer one is known.
pub open spec fn usable(bar: BarModel, as_of: i64, cutoff: i64) -> bool {
    bar.ts >= as_of && bar.ts + MINUTE <= cutoff
}

/// The first usable candles, at most `limit` of them.
pub open spec fn usable_bars(bars: Seq<BarModel>, as_of: i64, cutoff: i64, limit: int) -> Seq<
    BarModel,
>
    decreases bars.len(),
{
    if bars.len() == 0 {
        Seq::empty()
    } else {
        let rest = usable_bars(bars.drop_last(), as_of, cutoff, limit);
        if usable(bars.last(), as_of, cutoff) && rest.len() < limit {
            rest.push(bars.last())
        } else {
            rest
        }
    }
}

/// The first usable candles, at most as many as the entry window and the
/// holding window have together.
pub fn eligible_bars(
    bars: &Vec<Bar>,
    as_of: i64,
    cutoff: i64,
    window: usize,
    holding: usize,
) -> (r: Vec<Bar>)
    ensures
        r.deep_view() == usable_bars(bars.deep_view(), as_of, cutoff, window + holding),
        closable(r.deep_view()),
{
    let mut out: Vec<Bar> = Vec::new();
    let mut i: usize = 0;
    assert(out.deep_view() =~= Seq::<BarModel>::empty());
    while i < bars.len()
        invariant
            i <= bars.len(),
            out.deep_view() == usable_bars(
                bars.deep_view().take(i as int),
                as_of,
                cutoff,
                window + holding,
            ),
            closable(out.deep_view()),
        decreases bars.len() - i,
    {
        let ghost before = out.deep_view();
        proof {
            let now = bars.deep_view().take(i + 1);
            assert(now.drop_last() =~= bars.deep_view().take(i as int));
            assert(now.last() == bars@[i as int]@);
        }
        let closed = bars[i].ts as i128 + MINUTE as i128 <= cutoff as i128;
        let room = (out.len() as u128) < (window as u128) + (holding as u128);
        if bars[i].ts >= as_of && closed && room {
            out.push(bars[i].clone());
            assert(out.deep_view() =~= before.push(bars@[i as int]@));
        }
        i += 1;
    }
    assert(bars.deep_view().take(i as int) =~= bars.deep_view());
    out
}

/// An alert that could not be evaluated.
pub open spec fn excluded(t: TradeModel, reason: Seq<char>) -> TradeModel {
    TradeModel {
        data_issues: t.data_issues.push(reason),
        simulation: nothing(Outcome::Excluded, reason),
        ..t
    }
}

/// How an alert with an issue is counted.
pub open spec fn issue_outcome(issue: Seq<char>) -> Outcome {
    if begins_with(issue, "missing_anchor"@) || issue == "anchor_after_source_cutoff"@ {
        Outcome::InsufficientData
    } else {
        Outcome::Excluded
    }
}

/// Points that the stop is moved behind the second candle.
pub open spec fn user_buffer(k: int) -> u8 {
    if k == 0 {
        0u8
    } else if k == 1 {
        5u8
    } else {
        10u8
    }
}

/// Multiples of the risk that are tried, in thousandths.
pub open spec fn user_multiple(k: int) -> u32 {
    if k == 0 {
        1000u32
    } else if k == 1 {
        1500u32
    } else if k == 2 {
        2000u32
    } else {
        3000u32
    }
}

/// The buffers that are tried.
pub fn user_buffers() -> (r: Vec<u8>)
    ensures
        r@ == Seq::new(3, |k: int| user_buffer(k)),
{
    let r: Vec<u8> = vec![0, 5, 10];
    assert(r@ =~= Seq::new(3, |k: int| user_buffer(k)));
    r
}

/// The multiples that are tried.
pub fn user_multiples() -> (r: Vec<u32>)
    ensures
        r@ == Seq::new(4, |k: int| user_multiple(k)),
{
    let r: Vec<u32> = vec![1000, 1500, 2000, 3000];
    assert(r@ =~= Seq::new(4, |k: int| user_multiple(k)));
    r
}

/// Simulations that end at one, two and three risks, entered in the zone.
pub open spec fn zone_exits(
    g: GuardrailsModel,
    as_of: i64,
    price: i64,
    bars: Seq<BarModel>,
    window: usize,
    holding: usize,
) -> Seq<FixedRResultModel> {
    Seq::new(
        3,
        |k: int|
            FixedRResultModel {
                multiple: (k + 1) as u8,
                simulation: simulated(
                    g,
                    as_of,
                    price,
                    bars,
                    window,
                    holding,
                    Some(((k + 1) * 1000) as u32),
                ),
            },
    )
}

/// Simulations that end at one, two and three risks, entered at the alert.
pub open spec fn anchor_exits(
    g: GuardrailsModel,
    as_of: i64,
    price: i64,
    bars: Seq<BarModel>,
    holding: usize,
) -> Seq<FixedRResultModel> {
    zone_exits(entered_at(g, price), as_of, price, bars, 1, holding)
}

/// The grid of simulations with the risk of the second candle: every buffer
/// with every multiple.
pub open spec fn user_grid(
    g: GuardrailsModel,
    point: i64,
    c2: CandleRef,
    as_of: i64,
    price: i64,
    bars: Seq<BarModel>,
    holding: usize,
) -> Seq<UserResultModel> {
    Seq::new(
        12,
        |k: int|
            user_simulated(
                g,
                point,
                c2,
                as_of,
                price,
                bars,
                holding,
                user_buffer(k / 4),
                user_multiple(k % 4),
            ),
    )
}

/// The simulation tells that the alert could not be evaluated.
pub open spec fn unresolved(o: Outcome) -> bool {
    o is Excluded || o is DataGap || o is InsufficientData
}

/// The alert with what the stored facts say, before it is simulated.
pub open spec fn described(
    p: ParametersModel,
    t: TradeModel,
    f: TradeFactsModel,
    civil: (u32, u32, u32, u32, i32),
) -> TradeModel {
    TradeModel {
        evidence_hash: Some(f.evidence_hash),
        direction: f.direction,
        confidence: Some(f.confidence),
        quality: f.quality,
        session: session_words(civil.3 as int),
        weekly_slot: slot_words(civil.2 as int, civil.3 as int),
        guardrails: Some(f.guardrails),
        data_issues: issues_of(t, p.mode, f),
        ..t
    }
}

/// The alert after its simulation.
pub open spec fn played(
    p: ParametersModel,
    t: TradeModel,
    f: TradeFactsModel,
    bars: Seq<BarModel>,
) -> TradeModel {
    let g = f.guardrails;
    if t.data_issues.len() > 0 {
        TradeModel {
            simulation: nothing(issue_outcome(t.data_issues[0]), t.data_issues[0]),
            ..t
        }
    } else {
        let price = f.anchor_close->0;
        match p.mode {
            ExitMode::UserV1 => match f.confirmed_c2 {
                None => excluded(t, "missing_confirmed_trade_c2"@),
                Some(c2) => TradeModel {
                    fixed_r: anchor_exits(g, t.as_of_ts, price, bars, t.holding_bars),
                    user_v1: t.user_v1 + user_grid(
                        g,
                        f.point,
                        c2,
                        t.as_of_ts,
                        price,
                        bars,
                        t.holding_bars,
                    ),
                    simulation: nothing(Outcome::Excluded, "multi_variant_see_user_v1"@),
                    ..t
                },
            },
            ExitMode::FixedR => {
                let exits = zone_exits(
                    g,
                    t.as_of_ts,
                    price,
                    bars,
                    p.entry_bars,
                    t.holding_bars,
                );
                TradeModel { fixed_r: exits, simulation: exits[0].simulation, ..t }
            },
            ExitMode::Targets => {
                let r = simulated(
                    g,
                    t.as_of_ts,
                    price,
                    bars,
                    p.entry_bars,
                    t.holding_bars,
                    None,
                );
                TradeModel {
                    simulation: r,
                    data_issues: with_issue(t.data_issues, unresolved(r.outcome), r.reason),
                    ..t
                }
            },
        }
    }
}

/// The alert evaluated from the stored facts.
pub open spec fn evaluated(p: ParametersModel, t: TradeModel, f: TradeFactsModel) -> TradeModel {
    match new_york_at(t.as_of_ts) {
        None => excluded(
            TradeModel {
                evidence_hash: Some(f.evidence_hash),
                direction: f.direction,
                confidence: Some(f.confidence),
                quality: f.quality,
                ..t
            },
            "invalid_timestamp"@,
        ),
        Some(civil) => {
            let d = described(p, t, f, civil);
            let bars = usable_bars(f.bars, t.as_of_ts, f.cutoff, p.entry_bars + t.holding_bars);
            if f.anchor_close is None && gap_of(t.as_of_ts, f) is None {
                excluded(d, "invalid timestamp"@)
            } else {
                played(
                    p,
                    TradeModel {
                        anchor_gap: if f.anchor_close is None {
                            gap_of(t.as_of_ts, f)
                        } else {
                            t.anchor_gap
                        },
                        available_future_m1: bars.len() as usize,
                        ..d
                    },
                    f,
                    bars,
                )
            }
        },
    }
}

/// Results that repeat one simulation for every whole multiple.
pub open spec fn repeated_exits(s: SimulationModel) -> Seq<FixedRResultModel> {
    Seq::new(3, |k: int| FixedRResultModel { multiple: (k + 1) as u8, simulation: s })
}

/// Results that repeat one simulation for the whole grid.
pub open spec fn repeated_grid(s: SimulationModel) -> Seq<UserResultModel> {
    Seq::new(
        12,
        |k: int|
            UserResultModel {
                buffer_points: user_buffer(k / 4),
                multiple: user_multiple(k % 4),
                stop: None,
                target: None,
                target1_in_user_r: None,
                simulation: s,
            },
    )
}

/// The alert with every result that its mode promises: where nothing was
/// simulated, the reason stands in every place.
pub open spec fn filled_in(mode: ExitMode, t: TradeModel) -> TradeModel {
    TradeModel {
        fixed_r: if !(mode is Targets) && t.fixed_r.len() == 0 {
            repeated_exits(t.simulation)
        } else {
            t.fixed_r
        },
        user_v1: if mode is UserV1 && t.user_v1.len() == 0 {
            repeated_grid(t.simulation)
        } else {
            t.user_v1
        },
        ..t
    }
}

fn make_zone_exits(
    f: &TradeFacts,
    as_of: i64,
    price: i64,
    bars: &Vec<Bar>,
    window: usize,
    holding: usize,
) -> (r: Vec<FixedRResult>)
    requires
        closable(bars.deep_view()),
    ensures
        r.deep_view() == zone_exits(
            f@.guardrails,
            as_of,
            price,
            bars.deep_view(),
            window,
            holding,
        ),
{
    let mut out: Vec<FixedRResult> = Vec::new();
    let a = simulate_exit(&f.guardrails, as_of, price, bars.as_slice(), window, holding, Some(1000));
    out.push(FixedRResult { multiple: 1, simulation: a });
    let b = simulate_exit(&f.guardrails, as_of, price, bars.as_slice(), window, holding, Some(2000));
    out.push(FixedRResult { multiple: 2, simulation: b });
    let c = simulate_exit(&f.guardrails, as_of, price, bars.as_slice(), window, holding, Some(3000));
    out.push(FixedRResult { multiple: 3, simulation: c });
    assert(out.deep_view() =~= zone_exits(
        f@.guardrails,
        as_of,
        price,
        bars.deep_view(),
        window,
        holding,
    ));
    out
}

fn make_anchor_exits(
    f: &TradeFacts,
    as_of: i64,
    price: i64,
    bars: &Vec<Bar>,
    holding: usize,
) -> (r: Vec<FixedRResult>)
    requires
        closable(bars.deep_view()),
    ensures
        r.deep_view() == anchor_exits(f@.guardrails, as_of, price, bars.deep_view(), holding),
{
    let mut out: Vec<FixedRResult> = Vec::new();
    let a = simulate_anchor(&f.guardrails, as_of, price, bars.as_slice(), holding, 1000);
    out.push(FixedRResult { multiple: 1, simulation: a });
    let b = simulate_anchor(&f.guardrails, as_of, price, bars.as_slice(), holding, 2000);
    out.push(FixedRResult { multiple: 2, simulation: b });
    let c = simulate_anchor(&f.guardrails, as_of, price, bars.as_slice(), holding, 3000);
    out.push(FixedRResult { multiple: 3, simulation: c });
    assert(out.deep_view() =~= anchor_exits(
        f@.guardrails,
        as_of,
        price,
        bars.deep_view(),
        holding,
    ));
    out
}

fn buffer_at(k: usize) -> (r: u8)
    ensures
        r == user_buffer(k as int),
{
    if k == 0 {
        0
    } else if k == 1 {
        5
    } else {
        10
    }
}

fn multiple_at(k: usize) -> (r: u32)
    ensures
        r == user_multiple(k as int),
{
    if k == 0 {
        1000
    } else if k == 1 {
        1500
    } else if k == 2 {
        2000
    } else {
        3000
    }
}

fn make_user_grid(
    f: &TradeFacts,
    c2: &CandleRef,
    as_of: i64,
    price: i64,
    bars: &Vec<Bar>,
    holding: usize,
) -> (r: Vec<UserResult>)
    requires
        closable(bars.deep_view()),
    ensures
        r.deep_view() == user_grid(
            f@.guardrails,
            f@.point,
            *c2,
            as_of,
            price,
            bars.deep_view(),
            holding,
        ),
{
    let mut out: Vec<UserResult> = Vec::new();
    let ghost grid = user_grid(
        f@.guardrails,
        f@.point,
        *c2,
        as_of,
        price,
        bars.deep_view(),
        holding,
    );
    let mut k: usize = 0;
    assert(out.deep_view() =~= grid.take(0));
    while k < 12
        invariant
            k <= 12,
            closable(bars.deep_view()),
            grid == user_grid(
                f@.guardrails,
                f@.point,
                *c2,
                as_of,
                price,
                bars.deep_view(),
                holding,
            ),
            out.deep_view() == grid.take(k as int),
        decreases 12 - k,
    {
        let ghost before = out.deep_view();
        let r = simulate_user(
            &f.guardrails,
            f.point,
            c2,
            as_of,
            price,
            bars.as_slice(),
            holding,
            buffer_at(k / 4),
            multiple_at(k % 4),
        );
        let ghost m = r@;
        out.push(r);
        assert(out.deep_view() =~= before.push(m));
        assert(grid.take(k + 1) =~= grid.take(k as int).push(grid[k as int]));
        k += 1;
    }
    assert(grid.take(12) =~= grid);
    out
}

fn exclude(t: &mut Trade, reason: &str)
    ensures
        final(t)@ == excluded(old(t)@, reason@),
{
    let ghost before = t.data_issues.deep_view();
    t.data_issues.push(owned(reason));
    assert(t.data_issues.deep_view() =~= before.push(reason@));
    t.simulation = Simulation::empty(Outcome::Excluded, reason);
}

fn play(p: &Parameters, t: &mut Trade, f: &TradeFacts, bars: &Vec<Bar>)
    requires
        closable(bars.deep_view()),
        f.anchor_close is None ==> old(t)@.data_issues.len() > 0,
    ensures
        final(t)@ == played(p@, old(t)@, f@, bars.deep_view()),
{
    if t.data_issues.len() > 0 {
        let reason = t.data_issues[0].clone();
        let outcome = if starts_with(reason.as_str(), "missing_anchor") || text_eq(
            reason.as_str(),
            "anchor_after_source_cutoff",
        ) {
            Outcome::InsufficientData
        } else {
            Outcome::Excluded
        };
        assert(t@.data_issues[0] == reason@);
        t.simulation = Simulation::empty(outcome, reason.as_str());
        return ;
    }
    assert(t@.data_issues.len() == 0);
    let price: i64 = match f.anchor_close {
        Some(price) => price,
        None => return ,
    };
    match p.mode {
        ExitMode::UserV1 => {
            let c2 = match &f.confirmed_c2 {
                Some(c2) => *c2,
                None => {
                    exclude(t, "missing_confirmed_trade_c2");
                    return ;
                },
            };
            t.fixed_r = make_anchor_exits(f, t.as_of_ts, price, bars, t.holding_bars);
            let mut grid = make_user_grid(f, &c2, t.as_of_ts, price, bars, t.holding_bars);
            let ghost had = t.user_v1.deep_view();
            let ghost more = grid.deep_view();
            t.user_v1.append(&mut grid);
            assert(t.user_v1.deep_view() =~= had + more);
            t.simulation = Simulation::empty(Outcome::Excluded, "multi_variant_see_user_v1");
        },
        ExitMode::FixedR => {
            t.fixed_r =
            make_zone_exits(f, t.as_of_ts, price, bars, p.entry_bars, t.holding_bars);
            assert(t.fixed_r.deep_view().len() == 3);
            t.simulation = t.fixed_r[0].simulation.clone();
        },
        ExitMode::Targets => {
            let r = simulate(
                &f.guardrails,
                t.as_of_ts,
                price,
                bars.as_slice(),
                p.entry_bars,
                t.holding_bars,
            );
            let open = matches!(
                r.outcome,
                Outcome::Excluded | Outcome::DataGap | Outcome::InsufficientData
            );
            add_issue(&mut t.data_issues, open, r.reason.as_str());
            t.simulation = r;
        },
    }
}

/// Evaluates an alert from the stored facts.
pub fn evaluate_trade(p: &Parameters, trade: Trade, f: &TradeFacts) -> (r: Trade)
    ensures
        r@ == evaluated(p@, trade@, f@),
{
    let mut t = trade;
    t.evidence_hash = Some(f.evidence_hash.clone());
    t.direction = f.direction.clone();
    t.confidence = Some(f.confidence);
    t.quality = f.quality.clone();
    match time_buckets(t.as_of_ts) {
        Ok(b) => {
            t.session = b.0;
            t.weekly_slot = b.1;
        },
        Err(e) => {
            exclude(&mut t, e.as_str());
            return t;
        },
    }
    t.guardrails = Some(f.guardrails.clone());
    let user = matches!(p.mode, ExitMode::UserV1);
    let targets = matches!(p.mode, ExitMode::Targets);
    add_issue(
        &mut t.data_issues,
        f.guardrails.entry_zone.is_none() && !user,
        "missing_entry_zone",
    );
    add_issue(
        &mut t.data_issues,
        f.guardrails.invalidation_price.is_none() && !user,
        "missing_invalidation",
    );
    add_issue(&mut t.data_issues, f.guardrails.targets.len() == 0 && targets, "missing_target");
    add_issue(&mut t.data_issues, t.as_of_ts > f.cutoff, "anchor_after_source_cutoff");
    add_issue(&mut t.data_issues, f.anchor_close.is_none(), "missing_anchor_m1_close");
    if f.anchor_close.is_none() {
        match anchor_gap(t.as_of_ts, f) {
            Some(gap) => {
                t.anchor_gap = Some(gap);
            },
            None => {
                exclude(&mut t, "invalid timestamp");
                return t;
            },
        }
    }
    let bars = eligible_bars(&f.bars, t.as_of_ts, f.cutoff, p.entry_bars, t.holding_bars);
    t.available_future_m1 = bars.len();
    play(p, &mut t, f, &bars);
    t
}

/// Records why an alert could not be evaluated.
pub fn reject_trade(trade: Trade, reason: &str) -> (r: Trade)
    ensures
        r@ == excluded(trade@, reason@),
{
    let mut t = trade;
    exclude(&mut t, reason);
    t
}

/// Fills in every result that the mode promises.
pub fn fill_in(mode: ExitMode, trade: Trade) -> (r: Trade)
    ensures
        r@ == filled_in(mode, trade@),
{
    let mut t = trade;
    let ghost s = t@.simulation;
    if !matches!(mode, ExitMode::Targets) && t.fixed_r.len() == 0 {
        let mut out: Vec<FixedRResult> = Vec::new();
        out.push(FixedRResult { multiple: 1, simulation: t.simulation.clone() });
        out.push(FixedRResult { multiple: 2, simulation: t.simulation.clone() });
        out.push(FixedRResult { multiple: 3, simulation: t.simulation.clone() });
        assert(out.deep_view() =~= repeated_exits(s));
        t.fixed_r = out;
    }
    if matches!(mode, ExitMode::UserV1) && t.user_v1.len() == 0 {
        let mut out: Vec<UserResult> = Vec::new();
        let mut k: usize = 0;
        assert(out.deep_view() =~= repeated_grid(s).take(0));
        while k < 12
            invariant
                k <= 12,
                t@.simulation == s,
                out.deep_view() == repeated_grid(s).take(k as int),
            decreases 12 - k,
        {
            let ghost before = out.deep_view();
            let r = UserResult {
                buffer_points: buffer_at(k / 4),
                multiple: multiple_at(k % 4),
                stop: None,
                target: None,
                target1_in_user_r: None,
                simulation: t.simulation.clone(),
            };
            let ghost m = r@;
            out.push(r);
            assert(out.deep_view() =~= before.push(m));
            assert(repeated_grid(s).take(k + 1) =~= repeated_grid(s).take(k as int).push(
                repeated_grid(s)[k as int],
            ));
            k += 1;
        }
        assert(repeated_grid(s).take(12) =~= repeated_grid(s));
        t.user_v1 = out;
    }
    t
}

proof fn lemma_usable(bars: Seq<BarModel>, as_of: i64, cutoff: i64, limit: int, k: int)
    requires
        0 <= k < usable_bars(bars, as_of, cutoff, limit).len(),
    ensures
        usable(usable_bars(bars, as_of, cutoff, limit)[k], as_of, cutoff),
    decreases bars.len(),
{
    let rest = usable_bars(bars.drop_last(), as_of, cutoff, limit);
    if k < rest.len() {
        lemma_usable(bars.drop_last(), as_of, cutoff, limit, k);
    }
}

/// No candle before the alert and no candle that may still be forming is ever
/// simulated with.
pub proof fn law_only_closed_later_candles_are_used(
    bars: Seq<BarModel>,
    as_of: i64,
    cutoff: i64,
    limit: int,
)
    ensures
        forall|k: int|
            0 <= k < usable_bars(bars, as_of, cutoff, limit).len() ==> usable(
                #[trigger] usable_bars(bars, as_of, cutoff, limit)[k],
                as_of,
                cutoff,
            ),
{
    assert forall|k: int| 0 <= k < usable_bars(bars, as_of, cutoff, limit).len() implies usable(
        #[trigger] usable_bars(bars, as_of, cutoff, limit)[k],
        as_of,
        cutoff,
    ) by {
        lemma_usable(bars, as_of, cutoff, limit, k);
    }
}

/// Every finished alert carries the complete set of results of its mode.
pub proof fn law_results_are_complete(p: ParametersModel, t: TradeModel, f: TradeFactsModel)
    requires
        t.fixed_r.len() == 0,
        t.user_v1.len() == 0,
    ensures
        !(p.mode is Targets) ==> filled_in(p.mode, evaluated(p, t, f)).fixed_r.len() == 3,
        p.mode is UserV1 ==> filled_in(p.mode, evaluated(p, t, f)).user_v1.len() == 12,
{
}

/// An alert whose anchor minute is missing is never filled.
pub proof fn law_missing_anchor_is_never_filled(p: ParametersModel, t: TradeModel, f: TradeFactsModel)
    requires
        f.anchor_close is None,
    ensures
        evaluated(p, t, f).simulation.entry is None,
        evaluated(p, t, f).simulation.realized_rr is None,
{
}

} // verus!
