//! How alert records are made from candidates.
use vstd::prelude::*;
use crate::alert::types::{
    AlertModel, AlertRecord, AlertTrigger, ChannelKind, ALERT_RULE_VERSION,
};
use crate::candidate::rules::{effective_dir, effective_ltf_dir, find_chain, first_chain};
use crate::candidate::types::{CandidateModel, CandidateSetup, SymbolValidation, ValidationModel};
use crate::detector::{Direction, ReversalConfirmKind, SmtDivergence, SmtModel};
use crate::identity::{structure_id, structure_id_of};
use crate::text::{decimal, decimal_text, owned, push_decimal, text_eq};
use crate::types::tag_text;

verus! {

/// The name of a direction.
pub open spec fn direction_words(d: Direction) -> Seq<char> {
    match d {
        Direction::Bullish => "Bullish"@,
        Direction::Bearish => "Bearish"@,
    }
}

/// The name of a direction.
pub fn direction_text(d: Direction) -> (r: &'static str)
    ensures
        r@ == direction_words(d),
{
    match d {
        Direction::Bullish => "Bullish",
        Direction::Bearish => "Bearish",
    }
}

/// Identity of an alert: it follows the public episode of the divergence, so
/// that a stricter retry inside the same episode has the same identity.
pub open spec fn episode_id(family: Seq<char>, c: CandidateModel, symbol: Seq<char>) -> Seq<char> {
    structure_id_of(
        seq![
            family,
            c.smt_rule_version,
            c.watchlist_id,
            match c.context_pda_id {
                Some(id) => id,
                None => "no-pda"@,
            },
            tag_text(c.context_timeframe),
            tag_text(c.comparison_timeframe),
            direction_words(c.candidate_direction),
            decimal(c.observation_window.0 as int),
            symbol,
        ],
    )
}

fn make_episode_id(family: &str, c: &CandidateSetup, symbol: &str) -> (r: String)
    ensures
        r@ == episode_id(family@, c@, symbol@),
{
    let mut parts: Vec<String> = Vec::new();
    parts.push(owned(family));
    parts.push(c.smt_rule_version.clone());
    parts.push(c.watchlist_id.clone());
    match &c.context_pda_id {
        Some(id) => parts.push(id.clone()),
        None => parts.push(owned("no-pda")),
    }
    parts.push(owned(c.context_timeframe.tag()));
    parts.push(owned(c.comparison_timeframe.tag()));
    parts.push(owned(direction_text(c.candidate_direction)));
    parts.push(decimal_text(c.observation_window.0));
    parts.push(owned(symbol));
    proof {
        let m = c@;
        assert(parts.deep_view() =~= seq![
            family@,
            m.smt_rule_version,
            m.watchlist_id,
            match m.context_pda_id {
                Some(id) => id,
                None => "no-pda"@,
            },
            tag_text(m.context_timeframe),
            tag_text(m.comparison_timeframe),
            direction_words(m.candidate_direction),
            decimal(m.observation_window.0 as int),
            symbol@,
        ]);
    }
    structure_id(&parts)
}

/// The instrument that a reversal record is about, where it is known.
pub open spec fn reversal_symbol(c: CandidateModel, validation: Option<ValidationModel>) -> Option<
    Seq<char>,
> {
    match validation {
        Some(v) => Some(v.symbol),
        None => c.validation_symbol,
    }
}

/// The record of a reversal.
pub open spec fn reversal_alert(
    c: CandidateModel,
    validation: Option<ValidationModel>,
    now: i64,
    channels: Seq<ChannelKind>,
) -> AlertModel {
    AlertModel {
        id: episode_id(
            "alert_episode"@,
            c,
            match reversal_symbol(c, validation) {
                Some(s) => s,
                None => "unknown"@,
            },
        ),
        watchlist_id: c.watchlist_id,
        candidate_id: c.id,
        smt_id: c.smt_id,
        rule_version: ALERT_RULE_VERSION@,
        trigger: AlertTrigger::Validated,
        setup_status: c.setup_status,
        invalidation_reason: None,
        symbol_set: c.symbol_set,
        sweeper_symbol: c.sweeper_symbol,
        trade_symbols: c.trade_symbols,
        candidate_direction: c.candidate_direction,
        deterministic_score: c.deterministic_score,
        c2_case: c.c2_case,
        context_timeframe: c.context_timeframe,
        comparison_timeframe: c.comparison_timeframe,
        validation_timeframe: c.validation_timeframe,
        c2_candle_ts: c.c2_candle.ts,
        c3_candle_ts: match c.c3_candle {
            Some(k) => Some(k.ts),
            None => None,
        },
        smt_k_candle_ts: Some(c.smt_k_candle.ts),
        context_pda_id: c.context_pda_id,
        validation_kind: match validation {
            Some(v) => Some(v.kind),
            None => c.validation_kind,
        },
        validation_symbol: reversal_symbol(c, validation),
        validation_ts: match validation {
            Some(v) => Some(v.ts),
            None => c.validation_ts,
        },
        validation_direction: match validation {
            Some(v) => Some(v.direction),
            None => c.validation_direction,
        },
        channels_fired: channels,
        created_at: now,
    }
}

/// Builds the record of a reversal, from the accepted validation where there
/// is one and from the candidate's own summary otherwise.
pub fn build_alert_for_validation(
    c: &CandidateSetup,
    validation: Option<&SymbolValidation>,
    now_ms: i64,
    channels: Vec<ChannelKind>,
) -> (r: AlertRecord)
    ensures
        r@ == reversal_alert(
            c@,
            match validation {
                Some(v) => Some(v@),
                None => None,
            },
            now_ms,
            channels@,
        ),
{
    let symbol: Option<String> = match validation {
        Some(v) => Some(v.symbol.clone()),
        None => c.validation_symbol.clone(),
    };
    let id = match &symbol {
        Some(s) => make_episode_id("alert_episode", c, s.as_str()),
        None => make_episode_id("alert_episode", c, "unknown"),
    };
    let kind: Option<ReversalConfirmKind> = match validation {
        Some(v) => Some(v.kind),
        None => c.validation_kind,
    };
    let ts: Option<i64> = match validation {
        Some(v) => Some(v.ts),
        None => c.validation_ts,
    };
    let direction: Option<Direction> = match validation {
        Some(v) => Some(v.direction),
        None => c.validation_direction,
    };
    let c3: Option<i64> = match &c.c3_candle {
        Some(k) => Some(k.ts),
        None => None,
    };
    let copy = c.clone();
    AlertRecord {
        id,
        watchlist_id: copy.watchlist_id,
        candidate_id: copy.id,
        smt_id: copy.smt_id,
        rule_version: owned(ALERT_RULE_VERSION),
        trigger: AlertTrigger::Validated,
        setup_status: c.setup_status,
        invalidation_reason: None,
        symbol_set: copy.symbol_set,
        sweeper_symbol: copy.sweeper_symbol,
        trade_symbols: copy.trade_symbols,
        candidate_direction: c.candidate_direction,
        deterministic_score: c.deterministic_score,
        c2_case: c.c2_case,
        context_timeframe: c.context_timeframe,
        comparison_timeframe: c.comparison_timeframe,
        validation_timeframe: c.validation_timeframe,
        c2_candle_ts: c.c2_candle.ts,
        c3_candle_ts: c3,
        smt_k_candle_ts: Some(c.smt_k_candle.ts),
        context_pda_id: copy.context_pda_id,
        validation_kind: kind,
        validation_symbol: symbol,
        validation_ts: ts,
        validation_direction: direction,
        channels_fired: channels,
        created_at: now_ms,
    }
}

/// The first validation of an instrument.
pub open spec fn first_validation(list: Seq<ValidationModel>, symbol: Seq<char>) -> Option<
    ValidationModel,
>
    decreases list.len(),
{
    if list.len() == 0 {
        None
    } else if list[0].symbol == symbol {
        Some(list[0])
    } else {
        first_validation(list.drop_first(), symbol)
    }
}

/// The validation that a candidate's own summary describes, where the summary
/// is complete. Its event is the recorded one of that instrument, or a name
/// made of the instrument and the time.
pub open spec fn summary_validation(c: CandidateModel, now: i64) -> Option<ValidationModel> {
    match (c.validation_symbol, c.validation_kind, c.validation_direction, c.validation_ts) {
        (Some(symbol), Some(kind), Some(direction), Some(ts)) => {
            let known = first_validation(c.validations, symbol);
            Some(
                ValidationModel {
                    event_id: match known {
                        Some(v) => v.event_id,
                        None => "legacy-"@ + symbol + "-"@ + decimal(ts as int),
                    },
                    symbol,
                    kind,
                    direction,
                    ts,
                    price: match known {
                        Some(v) => v.price,
                        None => 0,
                    },
                },
            )
        },
        _ => None,
    }
}

fn find_validation<'a>(list: &'a Vec<SymbolValidation>, symbol: &str) -> (r: Option<
    &'a SymbolValidation,
>)
    ensures
        match r {
            Some(v) => first_validation(list.deep_view(), symbol@) == Some(v@),
            None => first_validation(list.deep_view(), symbol@) is None,
        },
{
    let mut i: usize = 0;
    assert(list.deep_view().skip(0) =~= list.deep_view());
    while i < list.len()
        invariant
            i <= list.len(),
            first_validation(list.deep_view(), symbol@) == first_validation(
                list.deep_view().skip(i as int),
                symbol@,
            ),
        decreases list.len() - i,
    {
        let ghost rest = list.deep_view().skip(i as int);
        assert(rest[0] == list@[i as int]@);
        if text_eq(list[i].symbol.as_str(), symbol) {
            return Some(&list[i]);
        }
        assert(rest.drop_first() =~= list.deep_view().skip(i + 1));
        i += 1;
    }
    None
}

fn make_summary_validation(c: &CandidateSetup, now_ms: i64) -> (r: Option<SymbolValidation>)
    ensures
        r.deep_view() == summary_validation(c@, now_ms),
{
    match (&c.validation_symbol, c.validation_kind, c.validation_direction, c.validation_ts) {
        (Some(symbol), Some(kind), Some(direction), Some(ts)) => {
            let known = find_validation(&c.validations, symbol.as_str());
            let event_id = match known {
                Some(v) => v.event_id.clone(),
                None => {
                    let mut id = owned("legacy-");
                    id.append(symbol.as_str());
                    id.append("-");
                    push_decimal(&mut id, ts);
                    id
                },
            };
            let price: i64 = match known {
                Some(v) => v.price,
                None => 0,
            };
            Some(SymbolValidation { event_id, symbol: symbol.clone(), kind, direction, ts, price })
        },
        _ => None,
    }
}

/// Builds the record of a candidate whose summary says how it was validated.
pub fn build_alert(c: &CandidateSetup, now_ms: i64, channels: Vec<ChannelKind>) -> (r: AlertRecord)
    ensures
        r@ == reversal_alert(c@, summary_validation(c@, now_ms), now_ms, channels@),
{
    let validation = make_summary_validation(c, now_ms);
    match &validation {
        Some(v) => build_alert_for_validation(c, Some(v), now_ms, channels),
        None => build_alert_for_validation(c, None, now_ms, channels),
    }
}

/// The record of a confirmed second candle on one executable instrument; none
/// unless both the sweeper and the instrument have a second candle.
pub open spec fn c2_alert(
    c: CandidateModel,
    smt: SmtModel,
    symbol: Seq<char>,
    ts: i64,
    channels: Seq<ChannelKind>,
) -> Option<AlertModel> {
    match (first_chain(smt.chains, smt.sweeper_symbol), first_chain(smt.chains, symbol)) {
        (Some(sweeper), Some(trade)) => match (sweeper.c2_candle, trade.c2_candle) {
            (Some(_), Some(c2)) => {
                let direction = effective_dir(
                    c.candidate_direction,
                    symbol,
                    c.sweeper_symbol,
                    smt.relationship,
                );
                Some(
                    AlertModel {
                        id: episode_id("c2_alert_episode"@, c, symbol),
                        watchlist_id: c.watchlist_id,
                        candidate_id: c.id,
                        smt_id: c.smt_id,
                        rule_version: ALERT_RULE_VERSION@,
                        trigger: AlertTrigger::C2Confirmed,
                        setup_status: c.setup_status,
                        invalidation_reason: None,
                        symbol_set: c.symbol_set,
                        sweeper_symbol: c.sweeper_symbol,
                        trade_symbols: seq![symbol],
                        candidate_direction: direction,
                        deterministic_score: c.deterministic_score,
                        c2_case: match trade.c2_case {
                            Some(n) => n,
                            None => 0,
                        },
                        context_timeframe: c.context_timeframe,
                        comparison_timeframe: c.comparison_timeframe,
                        validation_timeframe: c.validation_timeframe,
                        c2_candle_ts: c2.ts,
                        c3_candle_ts: match trade.c3_candle {
                            Some(k) => Some(k.ts),
                            None => None,
                        },
                        smt_k_candle_ts: Some(trade.smt_k_candle.ts),
                        context_pda_id: c.context_pda_id,
                        validation_kind: None,
                        validation_symbol: Some(symbol),
                        validation_ts: None,
                        validation_direction: Some(direction),
                        channels_fired: channels,
                        created_at: ts,
                    },
                )
            },
            _ => None,
        },
        _ => None,
    }
}

/// Builds the record of a confirmed second candle on one executable
/// instrument, with that instrument's own direction and candles.
pub fn build_c2_alert(
    c: &CandidateSetup,
    smt: &SmtDivergence,
    trade_symbol: &str,
    alert_ts: i64,
    channels: Vec<ChannelKind>,
) -> (r: Option<AlertRecord>)
    ensures
        r.deep_view() == c2_alert(c@, smt@, trade_symbol@, alert_ts, channels@),
{
    let sweeper = match find_chain(&smt.chains, smt.sweeper_symbol.as_str()) {
        Some(chain) => chain,
        None => return None,
    };
    let trade = match find_chain(&smt.chains, trade_symbol) {
        Some(chain) => chain,
        None => return None,
    };
    if sweeper.c2_candle.is_none() {
        return None;
    }
    let c2 = match &trade.c2_candle {
        Some(k) => *k,
        None => return None,
    };
    let direction = effective_ltf_dir(
        c.candidate_direction,
        trade_symbol,
        c.sweeper_symbol.as_str(),
        smt.relationship,
    );
    let c2_case: u8 = match trade.c2_case {
        Some(n) => n,
        None => 0,
    };
    let c3: Option<i64> = match &trade.c3_candle {
        Some(k) => Some(k.ts),
        None => None,
    };
    let mut trade_symbols: Vec<String> = Vec::new();
    trade_symbols.push(owned(trade_symbol));
    assert(trade_symbols.deep_view() =~= seq![trade_symbol@]);
    let copy = c.clone();
    Some(
        AlertRecord {
            id: make_episode_id("c2_alert_episode", c, trade_symbol),
            watchlist_id: copy.watchlist_id,
            candidate_id: copy.id,
            smt_id: copy.smt_id,
            rule_version: owned(ALERT_RULE_VERSION),
            trigger: AlertTrigger::C2Confirmed,
            setup_status: c.setup_status,
            invalidation_reason: None,
            symbol_set: copy.symbol_set,
            sweeper_symbol: copy.sweeper_symbol,
            trade_symbols,
            candidate_direction: direction,
            deterministic_score: c.deterministic_score,
            c2_case,
            context_timeframe: c.context_timeframe,
            comparison_timeframe: c.comparison_timeframe,
            validation_timeframe: c.validation_timeframe,
            c2_candle_ts: c2.ts,
            c3_candle_ts: c3,
            smt_k_candle_ts: Some(trade.smt_k_candle.ts),
            context_pda_id: copy.context_pda_id,
            validation_kind: None,
            validation_symbol: Some(owned(trade_symbol)),
            validation_ts: None,
            validation_direction: Some(direction),
            channels_fired: channels,
            created_at: alert_ts,
        },
    )
}

} // verus!
