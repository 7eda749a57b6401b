//! When alerts fire, what they are about and where they go.
use vstd::prelude::*;
use crate::alert::engine::{
    after_change, c2_created, c2_record, filled, fired_record, has_id, hydrated, selected, stored,
    written_directly, AlertEngineModel, FiredFacts,
};
use crate::alert::messages::{
    configured_url, desktop_title_of, displayed_symbol, failure_words, parts_complaint,
    redacted_parts, reply_complaint, topic_of, webhook_complaint, FEISHU_HOOK_PATH_PREFIX,
    UrlPartsModel,
};
use crate::alert::records::{direction_words, episode_id, first_validation, summary_validation};
use crate::alert::types::{AlertConfig, AlertModel, AlertTrigger, ChannelKind};
use crate::candidate::close_laws::{chain_at, lemma_chain_at};
use crate::candidate::types::{CandidateModel, ChangeModel, SetupStatus, ValidationModel};
use crate::detector::{Direction, SmtModel};
use crate::identity::structure_id_of;
use crate::text::{begins_with, decimal, last_part, lemma_push_contains, trimmed};
use crate::types::{duration, tag_text};

verus! {

/// A change fires a record exactly where alerts are on, history is not being
/// rebuilt, the candidate was just validated - by a reversal that comes with the
/// change, or for the first time -, the store holds no alert of it, and the pause
/// after the last record is over.
pub proof fn law_a_validation_fires_once_the_pause_is_over(
    e: AlertEngineModel,
    change: ChangeModel,
    now: i64,
    seeding: bool,
    fired: FiredFacts,
)
    ensures
        ({
            let r = fired_record(e, change, now, seeding, fired);
            let c = change.candidate;
            let was_validated = e.status.dom().contains(c.id) && e.status[c.id] is Validated;
            let news = change.validation_event is Some || (c.setup_status is Validated
                && !was_validated);
            let about_one = change.validation_event is Some || c.validation_symbol is Some;
            let known = (about_one && (fired.episode_symbol || fired.group_symbol)) || (!about_one
                && fired.candidate);
            let paused = e.config.cooldown_seconds > 0 && e.last_fired > 0 && now < e.last_fired
                + 1000 * e.config.cooldown_seconds;
            &&& (r is Some) == (e.config.enabled && !seeding && news && !known && !paused)
            &&& r matches Some(a) ==> {
                &&& a.trigger is Validated
                &&& a.candidate_id == c.id && a.smt_id == c.smt_id && a.watchlist_id == c.watchlist_id
                &&& a.created_at == now
                &&& a.candidate_direction == c.candidate_direction
                &&& a.setup_status == c.setup_status
                &&& a.deterministic_score == c.deterministic_score
                &&& change.validation_event matches Some(v) ==> a.validation_symbol == Some(
                    v.symbol,
                ) && a.validation_ts == Some(v.ts) && a.validation_kind == Some(v.kind)
                    && a.validation_direction == Some(v.direction)
                &&& change.validation_event is None ==> a.validation_symbol == c.validation_symbol
                    && a.validation_ts == c.validation_ts && a.validation_kind == c.validation_kind
                    && a.validation_direction == c.validation_direction
            }
        }),
{
}

/// An engine remembers the status of every candidate that changed, and the time
/// of a record only where one fired.
pub proof fn law_an_engine_remembers_what_it_saw(
    e: AlertEngineModel,
    change: ChangeModel,
    now: i64,
    seeding: bool,
    fired: FiredFacts,
    other: Seq<char>,
)
    ensures
        ({
            let after = after_change(e, change, now, seeding, fired);
            &&& after.status.dom().contains(change.candidate.id)
            &&& after.status[change.candidate.id] == change.candidate.setup_status
            &&& other != change.candidate.id ==> after.status.dom().contains(other)
                == e.status.dom().contains(other) && (e.status.dom().contains(other)
                ==> after.status[other] == e.status[other])
            &&& fired_record(e, change, now, seeding, fired) is Some ==> after.last_fired == now
            &&& fired_record(e, change, now, seeding, fired) is None ==> after.last_fired
                == e.last_fired
            &&& after.config == e.config && after.channels == e.channels
        }),
{
}

/// A channel receives a record where it is registered and is either the inbox, or
/// switched on and told of a confirmed second candle.
pub proof fn law_channels_receive_what_they_are_for(
    channels: Seq<ChannelKind>,
    config: AlertConfig,
    c2: bool,
)
    ensures
        selected(channels, config, c2).contains(ChannelKind::Inbox) == channels.contains(
            ChannelKind::Inbox,
        ),
        selected(channels, config, c2).contains(ChannelKind::DesktopNotify) == (channels.contains(
            ChannelKind::DesktopNotify,
        ) && c2 && config.desktop_notify_enabled),
        selected(channels, config, c2).contains(ChannelKind::FeishuNotify) == (channels.contains(
            ChannelKind::FeishuNotify,
        ) && c2 && config.feishu_notify_enabled),
    decreases channels.len(),
{
    if channels.len() > 0 {
        let before = channels.drop_last();
        let rest = selected(before, config, c2);
        let last = channels.last();
        law_channels_receive_what_they_are_for(before, config, c2);
        assert(channels =~= before.push(last));
        lemma_push_contains(before, last, ChannelKind::Inbox);
        lemma_push_contains(before, last, ChannelKind::DesktopNotify);
        lemma_push_contains(before, last, ChannelKind::FeishuNotify);
        lemma_push_contains(rest, last, ChannelKind::Inbox);
        lemma_push_contains(rest, last, ChannelKind::DesktopNotify);
        lemma_push_contains(rest, last, ChannelKind::FeishuNotify);
    }
}

/// A confirmation is about one instrument: there is one where the sweeper and the
/// instrument have their second candles and the leg has not ended - which does not
/// matter while history is rebuilt. It is dated by the close of the instrument's
/// second candle and points where the instrument is to go.
pub proof fn law_a_confirmation_is_about_one_instrument(
    e: AlertEngineModel,
    c: CandidateModel,
    smt: SmtModel,
    symbol: Seq<char>,
    seeding: bool,
    i: int,
    k: int,
)
    requires
        chain_at(smt.chains, smt.sweeper_symbol, i),
        chain_at(smt.chains, symbol, k),
        smt.chains[k].c2_candle matches Some(c2) ==> c2.ts + duration(smt.comparison_timeframe)
            <= i64::MAX,
    ensures
        ({
            let r = c2_record(e, c, smt, symbol, seeding);
            let chain = smt.chains[k];
            let live = seeding || !c.invalidated_symbols.contains(symbol);
            let against = symbol != c.sweeper_symbol && smt.relationship is Negative;
            let rises = (c.candidate_direction is Bullish) != against;
            let silent = seeding || !e.config.enabled;
            &&& (r is Some) == (live && smt.chains[i].c2_candle is Some && chain.c2_candle is Some)
            &&& r matches Some(a) ==> {
                &&& a.trigger is C2Confirmed
                &&& a.trade_symbols == seq![symbol]
                &&& a.validation_symbol == Some(symbol)
                &&& (a.candidate_direction is Bullish) == rises
                &&& a.c2_candle_ts == chain.c2_candle->0.ts
                &&& a.created_at - a.c2_candle_ts == duration(smt.comparison_timeframe)
                &&& chain.c2_case is Some ==> a.c2_case == chain.c2_case->0
                &&& chain.c3_candle is None ==> a.c3_candle_ts is None
                &&& chain.c3_candle matches Some(c3) ==> a.c3_candle_ts == Some(c3.ts)
                &&& a.smt_k_candle_ts == Some(chain.smt_k_candle.ts)
                &&& a.candidate_id == c.id && a.smt_id == c.smt_id && a.watchlist_id
                    == c.watchlist_id
                &&& a.deterministic_score == c.deterministic_score
                &&& silent ==> a.channels_fired.len() == 0
                &&& !silent ==> a.channels_fired == selected(e.channels, e.config, true)
            }
        }),
{
    lemma_chain_at(smt.chains, smt.sweeper_symbol, i);
    lemma_chain_at(smt.chains, symbol, k);
}

/// Every instrument whose confirmation is not stored yet gets its record, and
/// nothing else does; without a store each gets one.
pub proof fn law_every_new_confirmation_is_created(
    e: AlertEngineModel,
    c: CandidateModel,
    smt: SmtModel,
    symbols: Seq<Seq<char>>,
    seeding: bool,
    ids: Seq<Seq<char>>,
    k: int,
)
    requires
        0 <= k < symbols.len(),
    ensures
        ({
            let made = c2_created(e, c, smt, symbols, seeding, Some(ids));
            let all = c2_created(e, c, smt, symbols, seeding, None);
            c2_record(e, c, smt, symbols[k], seeding) matches Some(a) ==> {
                &&& !ids.contains(a.id) ==> exists|j: int|
                    0 <= j < made.len() && (#[trigger] made[j]).id == a.id
                &&& all.contains(a)
            }
        }),
        forall|j: int|
            0 <= j < c2_created(e, c, smt, symbols, seeding, Some(ids)).len() ==> !ids.contains(
                (#[trigger] c2_created(e, c, smt, symbols, seeding, Some(ids))[j]).id,
            ),
    decreases symbols.len(),
{
    let before = symbols.drop_last();
    let made = c2_created(e, c, smt, symbols, seeding, Some(ids));
    let all = c2_created(e, c, smt, symbols, seeding, None);
    let had = c2_created(e, c, smt, before, seeding, Some(ids));
    let had_all = c2_created(e, c, smt, before, seeding, None);
    lemma_created_are_new(e, c, smt, symbols, seeding, ids);
    match c2_record(e, c, smt, symbols[k], seeding) {
        Some(a) => {
            if k < before.len() {
                assert(before[k] == symbols[k]);
                law_every_new_confirmation_is_created(e, c, smt, before, seeding, ids, k);
                assert(had_all.contains(a));
                let p = choose|p: int| 0 <= p < had_all.len() && had_all[p] == a;
                assert(all[p] == a);
                if !ids.contains(a.id) {
                    let j = choose|j: int| 0 <= j < had.len() && (#[trigger] had[j]).id == a.id;
                    assert(made[j].id == a.id);
                }
            } else {
                assert(all[had_all.len() as int] == a);
                if !ids.contains(a.id) {
                    if has_id(had, a.id) {
                        let j = choose|j: int| 0 <= j < had.len() && (#[trigger] had[j]).id == a.id;
                        assert(made[j].id == a.id);
                    } else {
                        assert(made[had.len() as int].id == a.id);
                    }
                }
            }
        },
        None => {},
    }
}

proof fn lemma_created_are_new(
    e: AlertEngineModel,
    c: CandidateModel,
    smt: SmtModel,
    symbols: Seq<Seq<char>>,
    seeding: bool,
    ids: Seq<Seq<char>>,
)
    ensures
        forall|j: int|
            0 <= j < c2_created(e, c, smt, symbols, seeding, Some(ids)).len() ==> !ids.contains(
                (#[trigger] c2_created(e, c, smt, symbols, seeding, Some(ids))[j]).id,
            ),
    decreases symbols.len(),
{
    if symbols.len() > 0 {
        lemma_created_are_new(e, c, smt, symbols.drop_last(), seeding, ids);
        let had = c2_created(e, c, smt, symbols.drop_last(), seeding, Some(ids));
        let made = c2_created(e, c, smt, symbols, seeding, Some(ids));
        assert forall|j: int| 0 <= j < made.len() implies !ids.contains(
            (#[trigger] made[j]).id,
        ) by {
            if j < had.len() {
                assert(made[j] == had[j]);
            } else {
                assert(!stored(Some(ids), had, made[j].id));
            }
        }
    }
}

/// Statuses that come back after a restart are those of the candidates, the last
/// of each; filling in touches only the unknown ones.
pub proof fn law_statuses_come_back(
    status: Map<Seq<char>, SetupStatus>,
    candidates: Seq<CandidateModel>,
    c: CandidateModel,
    id: Seq<char>,
)
    ensures
        hydrated(candidates.push(c)).dom().contains(c.id),
        hydrated(candidates.push(c))[c.id] == c.setup_status,
        id != c.id ==> hydrated(candidates.push(c)).dom().contains(id) == hydrated(
            candidates,
        ).dom().contains(id) && (hydrated(candidates).dom().contains(id) ==> hydrated(
            candidates.push(c),
        )[id] == hydrated(candidates)[id]),
        !hydrated(Seq::empty()).dom().contains(id),
        status.dom().contains(id) ==> filled(status, candidates).dom().contains(id) && filled(
            status,
            candidates,
        )[id] == status[id],
        filled(status, candidates.push(c)).dom().contains(c.id),
        !filled(status, candidates).dom().contains(c.id) ==> filled(
            status,
            candidates.push(c),
        )[c.id] == c.setup_status,
    decreases candidates.len(),
{
    assert(candidates.push(c).drop_last() =~= candidates);
    if candidates.len() > 0 {
        law_statuses_come_back(status, candidates.drop_last(), candidates.last(), id);
    }
}

/// A record goes to the store by way of the inbox, or directly where no inbox
/// delivers it.
pub proof fn law_every_record_reaches_the_store(a: AlertModel)
    ensures
        written_directly(a) || a.channels_fired.contains(ChannelKind::Inbox),
        !(written_directly(a) && a.channels_fired.contains(ChannelKind::Inbox)),
{
}

/// The identity of an alert is made of the group, the price area, the rules, the
/// direction, the beginning of the observation and the instrument.
pub proof fn law_identities_tell_episodes_apart(
    family: Seq<char>,
    c: CandidateModel,
    symbol: Seq<char>,
)
    ensures
        exists|parts: Seq<Seq<char>>| #[trigger]
            structure_id_of(parts) == episode_id(family, c, symbol) && parts.contains(family)
                && parts.contains(symbol) && parts.contains(c.watchlist_id) && parts.contains(
                c.smt_rule_version,
            ) && parts.contains(direction_words(c.candidate_direction)) && parts.contains(
                decimal(c.observation_window.0 as int),
            ) && (c.context_pda_id matches Some(pda) ==> parts.contains(pda)) && parts.contains(
                tag_text(c.context_timeframe),
            ) && parts.contains(tag_text(c.comparison_timeframe)),
{
    let parts = seq![
        family,
        c.smt_rule_version,
        c.watchlist_id,
        match c.context_pda_id {
            Some(id) => id,
            None => "no-pda"@,
        },
        tag_text(c.context_timeframe),
        tag_text(c.comparison_timeframe),
        direction_words(c.candidate_direction),
        decimal(c.observation_window.0 as int),
        symbol,
    ];
    assert(parts[0] == family);
    assert(parts[1] == c.smt_rule_version);
    assert(parts[2] == c.watchlist_id);
    assert(c.context_pda_id matches Some(pda) ==> parts[3] == pda);
    assert(parts[4] == tag_text(c.context_timeframe));
    assert(parts[5] == tag_text(c.comparison_timeframe));
    assert(parts[6] == direction_words(c.candidate_direction));
    assert(parts[7] == decimal(c.observation_window.0 as int));
    assert(parts[8] == symbol);
    assert(structure_id_of(parts) == episode_id(family, c, symbol));
    assert(parts.contains(parts[0]) && parts.contains(parts[1]) && parts.contains(parts[2]));
    assert(parts.contains(parts[3]) && parts.contains(parts[4]) && parts.contains(parts[5]));
    assert(parts.contains(parts[6]) && parts.contains(parts[7]) && parts.contains(parts[8]));
}

/// A candidate's own summary is a validation where it is complete, and then of
/// exactly what it says; its event and price are those on record.
pub proof fn law_summaries_are_validations(c: CandidateModel, now: i64, k: int)
    ensures
        ({
            let r = summary_validation(c, now);
            let whole = c.validation_symbol is Some && c.validation_kind is Some
                && c.validation_direction is Some && c.validation_ts is Some;
            &&& (r is Some) == whole
            &&& r matches Some(v) ==> v.symbol == c.validation_symbol->0 && v.kind
                == c.validation_kind->0 && v.direction == c.validation_direction->0 && v.ts
                == c.validation_ts->0
            &&& whole && 0 <= k < c.validations.len() && c.validations[k].symbol
                == c.validation_symbol->0 && (forall|j: int|
                0 <= j < k ==> (#[trigger] c.validations[j]).symbol != c.validation_symbol->0)
                ==> r->0.event_id == c.validations[k].event_id && r->0.price
                == c.validations[k].price
        }),
{
    if c.validation_symbol is Some && 0 <= k < c.validations.len() && c.validations[k].symbol
        == c.validation_symbol->0 && (forall|j: int|
        0 <= j < k ==> (#[trigger] c.validations[j]).symbol != c.validation_symbol->0) {
        lemma_first_validation(c.validations, c.validation_symbol->0, k);
    }
}

/// The first validation of an instrument is found.
pub proof fn lemma_first_validation(list: Seq<ValidationModel>, symbol: Seq<char>, k: int)
    requires
        0 <= k < list.len(),
        list[k].symbol == symbol,
        forall|j: int| 0 <= j < k ==> (#[trigger] list[j]).symbol != symbol,
    ensures
        first_validation(list, symbol) == Some(list[k]),
    decreases k,
{
    if k > 0 {
        assert(list[0].symbol != symbol);
        let rest = list.drop_first();
        assert forall|j: int| 0 <= j < k - 1 implies (#[trigger] rest[j]).symbol != symbol by {
            assert(rest[j] == list[j + 1]);
        }
        lemma_first_validation(rest, symbol, k - 1);
    }
}

/// A webhook is accepted exactly where it is an `https` address of the Feishu host
/// whose path has a token behind the prefix of hooks.
pub proof fn law_only_feishu_hooks_are_accepted(url: Seq<char>, parts: UrlPartsModel, token: Seq<char>)
    ensures
        parts_complaint(Some(parts)) is None ==> parts.scheme == "https"@ && parts.host == Some(
            "open.feishu.cn"@,
        ) && parts.path.len() > "/open-apis/bot/v2/hook/"@.len() && parts.path.take(
            "/open-apis/bot/v2/hook/"@.len() as int,
        ) == "/open-apis/bot/v2/hook/"@,
        parts.scheme == "https"@ && parts.host == Some("open.feishu.cn"@) && token.len() > 0
            && parts.path == "/open-apis/bot/v2/hook/"@ + token ==> parts_complaint(Some(parts))
            is None,
        parts_complaint(None) is Some,
        trimmed(url).len() == 0 ==> webhook_complaint(url) is Some && configured_url(Some(url))
            is None,
        trimmed(url).len() > 0 ==> configured_url(Some(url)) == Some(trimmed(url)),
        configured_url(None) is None,
{
    let prefix = "/open-apis/bot/v2/hook/"@;
    assert((prefix + token).take(prefix.len() as int) =~= prefix);
    if parts.path.len() == prefix.len() && parts.path.take(prefix.len() as int) == prefix {
        assert(parts.path =~= parts.path.take(prefix.len() as int));
    }
}

/// A message was delivered exactly where the answer is a success, can be read and
/// has the code of success.
pub proof fn law_only_code_zero_is_a_delivery(
    success: bool,
    status: Seq<char>,
    reply: Option<(i64, Option<Seq<char>>)>,
)
    ensures
        (reply_complaint(success, status, reply) is None) == (success && reply is Some && (
        reply->0).0 == 0),
{
}

proof fn lemma_last_part_is_behind(s: Seq<char>)
    ensures
        !last_part(s).contains(':'),
        last_part(s).len() <= s.len(),
        s.skip(s.len() - last_part(s).len()) == last_part(s),
        last_part(s).len() < s.len() ==> s[s.len() - last_part(s).len() - 1] == ':',
    decreases s.len(),
{
    if s.len() > 0 && s.last() != ':' {
        let rest = s.drop_last();
        lemma_last_part_is_behind(rest);
        let p = last_part(rest);
        lemma_push_contains(p, s.last(), ':');
        assert(s.skip(s.len() - last_part(s).len()) =~= last_part(s)) by {
            assert forall|i: int| 0 <= i < p.len() implies s[rest.len() - p.len() + i] == p[i] by {
                assert(rest.skip(rest.len() - p.len())[i] == p[i]);
            }
        }
    } else if s.len() > 0 {
        assert(s.skip(s.len() as int) =~= Seq::<char>::empty());
    } else {
        assert(s.skip(0) =~= Seq::<char>::empty());
    }
}

/// An instrument is named by what stands behind the last colon of its symbol, and a
/// message names the instrument that is traded.
pub proof fn law_instruments_are_named_without_their_exchange(
    exchange: Seq<char>,
    ticker: Seq<char>,
    a: AlertModel,
)
    requires
        !ticker.contains(':'),
    ensures
        last_part(exchange + seq![':'] + ticker) == ticker,
        last_part(ticker) == ticker,
        a.trade_symbols.len() > 0 ==> displayed_symbol(a) == last_part(a.trade_symbols[0]),
        a.trade_symbols.len() == 0 && a.validation_symbol is Some ==> displayed_symbol(a)
            == last_part(a.validation_symbol->0),
{
    let s = exchange + seq![':'] + ticker;
    lemma_last_part_is_behind(s);
    lemma_last_part_is_behind(ticker);
    let n = last_part(s).len() as int;
    let m = last_part(ticker).len() as int;
    if n > ticker.len() {
        let tail = s.skip(s.len() - n);
        assert(tail[n - ticker.len() - 1] == ':');
        assert(last_part(s).contains(':'));
    }
    if n < ticker.len() {
        assert(s[s.len() - n - 1] == ticker[ticker.len() - n - 1]);
        assert(ticker.contains(':'));
    }
    assert(s.skip(s.len() - ticker.len()) =~= ticker);
    if m < ticker.len() {
        assert(ticker.contains(':'));
    }
    assert(ticker.skip(0) =~= ticker);
}

/// Rising and falling alerts look different, and so do confirmations and
/// reversals.
pub proof fn law_messages_tell_directions_apart(a: AlertModel, b: AlertModel)
    ensures
        direction_words(Direction::Bullish) != direction_words(Direction::Bearish),
        direction_words(Direction::Bullish) == "Bullish"@,
        topic_of(AlertTrigger::C2Confirmed) != topic_of(AlertTrigger::Validated),
        a.candidate_direction is Bullish ==> desktop_title_of(a).last() == '↑',
        a.candidate_direction is Bearish ==> desktop_title_of(a).last() == '↓',
{
    reveal_strlit("Bullish");
    reveal_strlit("Bearish");
    reveal_strlit("ict:alert:fired");
    reveal_strlit("ict:reversal:recorded");
    reveal_strlit("↑");
    reveal_strlit("↓");
    assert("Bullish"@[1] != "Bearish"@[1]);
    assert("ict:alert:fired"@.len() != "ict:reversal:recorded"@.len());
}

/// What is shown of a web address does not depend on its secret: two hooks of one
/// host look alike.
pub proof fn law_the_secret_is_not_shown(p: UrlPartsModel, q: UrlPartsModel)
    requires
        p.scheme == q.scheme,
        p.host == q.host,
        begins_with(p.path, FEISHU_HOOK_PATH_PREFIX@) == begins_with(
            q.path,
            FEISHU_HOOK_PATH_PREFIX@,
        ),
    ensures
        redacted_parts(Some(p)) == redacted_parts(Some(q)),
        redacted_parts(Some(p)).take(p.scheme.len() as int) == p.scheme,
        p.host matches Some(h) ==> redacted_parts(Some(p)).subrange(
            p.scheme.len() as int + 3,
            p.scheme.len() as int + 3 + h.len(),
        ) == h,
        p.host matches Some(h) ==> (begins_with(p.path, FEISHU_HOOK_PATH_PREFIX@)
            ==> redacted_parts(Some(p)).skip(p.scheme.len() as int + 3 + h.len())
            == FEISHU_HOOK_PATH_PREFIX@ + "<redacted>"@),
        p.host matches Some(h) ==> (!begins_with(p.path, FEISHU_HOOK_PATH_PREFIX@)
            ==> redacted_parts(Some(p)).skip(p.scheme.len() as int + 3 + h.len())
            == "/<redacted>"@),
{
    reveal_strlit("://");
    let r = redacted_parts(Some(p));
    assert(r.take(p.scheme.len() as int) =~= p.scheme);
    if let Some(h) = p.host {
        let n = p.scheme.len() as int + 3;
        assert(r.subrange(n, n + h.len()) =~= h);
        if begins_with(p.path, FEISHU_HOOK_PATH_PREFIX@) {
            assert(r.skip(n + h.len()) =~= FEISHU_HOOK_PATH_PREFIX@ + "<redacted>"@);
        } else {
            assert(r.skip(n + h.len()) =~= "/<redacted>"@);
        }
    }
}

/// A failed request is reported by the first cause that holds.
pub proof fn law_failures_are_told_apart(timeout: bool, connect: bool, request: bool, reading: bool)
    ensures
        ({
            let words = failure_words(timeout, connect, request, reading);
            &&& timeout ==> words == "飞书 webhook 请求超时"@
            &&& connect && !timeout ==> words == "飞书 webhook 连接失败"@
            &&& request && !timeout && !connect ==> words == "飞书 webhook 请求构造失败"@
            &&& reading && !timeout && !connect && !request ==> words == "飞书 webhook 响应读取失败"@
            &&& !timeout && !connect && !request && !reading ==> words == "飞书 webhook 请求失败"@
        }),
{
}

} // verus!
