//! What is promised of settings and groups.
use vstd::prelude::*;
use crate::alert::types::AlertConfig;
use crate::config::{
    accepted, after_delete, default_llm, llm_complaint, mode_for, normal_groups, normalized,
    response_format_of, without_group, AppConfigModel, LlmConfigModel, StructuredOutputMode,
};
use crate::params::{
    alert_param, alert_params, deadline_after, signed, test_complaint, value_of, ParamModel,
    ParamUpdate,
};
use crate::sorting::{law_sorting, sorted_by, strict_weak};
use crate::text::{lemma_push_contains, lemma_text_order, text_before};
use crate::watchlist::{
    completed, default_groups, first_group, group_order, groups_with, hex_digits, last_group,
    rebuilt, retired, startup_group, WatchlistModel,
};

verus! {

proof fn lemma_names()
    ensures
        "enabled"@ != "desktop_notify_enabled"@,
        "enabled"@ != "feishu_notify_enabled"@,
        "enabled"@ != "cooldown_seconds"@,
        "desktop_notify_enabled"@ != "feishu_notify_enabled"@,
        "desktop_notify_enabled"@ != "cooldown_seconds"@,
        "feishu_notify_enabled"@ != "cooldown_seconds"@,
{
    reveal_strlit("enabled");
    reveal_strlit("desktop_notify_enabled");
    reveal_strlit("feishu_notify_enabled");
    reveal_strlit("cooldown_seconds");
    assert("enabled"@.len() == 7 && "desktop_notify_enabled"@.len() == 22);
    assert("feishu_notify_enabled"@.len() == 21 && "cooldown_seconds"@.len() == 16);
}

/// A setting changes what its name says and nothing else: switches take flags, the
/// pause takes whole numbers.
pub proof fn law_a_setting_changes_its_own(c: AlertConfig, b: bool, n: u64)
    requires
        n <= i64::MAX,
    ensures
        alert_param(c, "enabled"@, ParamModel::Flag(b)) == (AlertConfig { enabled: b, ..c }),
        alert_param(c, "desktop_notify_enabled"@, ParamModel::Flag(b)) == (AlertConfig {
            desktop_notify_enabled: b,
            ..c
        }),
        alert_param(c, "feishu_notify_enabled"@, ParamModel::Flag(b)) == (AlertConfig {
            feishu_notify_enabled: b,
            ..c
        }),
        alert_param(c, "cooldown_seconds"@, ParamModel::Whole(n)) == (AlertConfig {
            cooldown_seconds: n as i64,
            ..c
        }),
{
    lemma_names();
}

/// Of several changes of one setting the last counts, and settings that are not
/// named stay.
pub proof fn law_the_last_change_counts(c: AlertConfig, updates: Seq<ParamUpdate>, k: int, b: bool)
    requires
        0 <= k < updates.len(),
        updates[k].key@ == "enabled"@,
        updates[k].value@ == ParamModel::Flag(b),
        forall|j: int| k < j < updates.len() ==> (#[trigger] updates[j]).key@ != "enabled"@,
    ensures
        alert_params(c, updates).enabled == b,
    decreases updates.len(),
{
    lemma_names();
    let rest = updates.drop_last();
    if k < rest.len() {
        assert(updates[updates.len() - 1].key@ != "enabled"@);
        assert(rest[k] == updates[k]);
        assert forall|j: int| k < j < rest.len() implies (#[trigger] rest[j]).key@ != "enabled"@ by {
            assert(rest[j] == updates[j]);
        }
        law_the_last_change_counts(c, rest, k, b);
    }
}

/// A deadline is at least one candle, and the last one that was asked for; every
/// accepted change is counted.
pub proof fn law_deadlines_are_at_least_one_candle(bars: int, updates: Seq<ParamUpdate>)
    ensures
        ({
            let r = deadline_after(bars, updates);
            &&& r.1 == 0 ==> r.0 == bars
            &&& r.1 > 0 ==> r.0 >= 1
            &&& r.1 <= updates.len()
            &&& updates.len() > 0 && updates.last().key@ == "expiry_mtf_bars"@ ==> (
            updates.last().value@ matches ParamModel::Whole(n) ==> (1 <= n <= usize::MAX ==> r.0
                == n) && (n == 0 ==> r.0 == 1))
            &&& updates.len() > 0 && updates.last().key@ != "expiry_mtf_bars"@ ==> r
                == deadline_after(bars, updates.drop_last())
        }),
    decreases updates.len(),
{
    if updates.len() > 0 {
        law_deadlines_are_at_least_one_candle(bars, updates.drop_last());
    }
}

/// A stored text is read as what it is: a flag, a number, or a text.
pub proof fn law_stored_texts_are_read(text: Seq<char>, is_number: bool)
    ensures
        value_of("true"@, is_number) == ParamModel::Flag(true),
        value_of("false"@, is_number) == ParamModel::Flag(false),
        value_of(text, is_number) matches ParamModel::Text(s) ==> s == text && !is_number,
        value_of(text, is_number) is Real ==> is_number,
        signed(ParamModel::Whole(5)) == Some(5i64),
        signed(ParamModel::Whole(u64::MAX)) is None,
{
    reveal_strlit("true");
    reveal_strlit("false");
    assert("true"@.len() == 4 && "false"@.len() == 5);
}

/// A test is sent where alerts and the channel are on.
pub proof fn law_tests_need_both_switches(alerts: bool, channel: bool, off: Seq<char>)
    ensures
        test_complaint(Some((alerts, channel)), off) is None <==> alerts && channel,
        alerts && !channel ==> test_complaint(Some((alerts, channel)), off) == Some(off),
        test_complaint(None, off) is Some,
{
}

/// A model can be called where its provider is known, it is named and reached over
/// the web, its key is named, and every limit is positive.
pub proof fn law_models_are_checked(c: LlmConfigModel)
    ensures
        llm_complaint(c) is None ==> c.timeout_secs > 0 && c.max_output_tokens > 0
            && c.max_calls_per_day > 0 && c.bars_per_tf[0] > 0 && c.bars_per_tf[1] > 0
            && c.bars_per_tf[2] > 0 && (c.temperature matches Some(t) && t >= 0),
        llm_complaint(c) is None ==> c.provider == "openai_compatible"@ || c.provider
            == "deepseek_official"@ || c.provider == "volcengine_ark_plan"@,
        llm_complaint(c) is None && c.response_format != "auto"@ ==> response_format_of(c)
            == c.response_format,
        c.timeout_secs == 0 || c.max_output_tokens == 0 || c.max_calls_per_day == 0
            || c.temperature is None ==> llm_complaint(c) is Some,
{
}

/// The configuration that the program starts with asks for nothing: no model is
/// called, and its limits are positive.
pub proof fn law_models_are_off_at_first()
    ensures
        !default_llm().enabled,
        default_llm().timeout_secs == 60,
        default_llm().max_retries == 1,
        default_llm().max_output_tokens == 4_096,
        default_llm().max_calls_per_day == 500,
        default_llm().temperature == Some(0i64),
{
}

/// A setting other than `auto` names its mode, whoever the provider is.
pub proof fn law_explicit_modes_ignore_the_provider(a: Seq<char>, b: Seq<char>)
    ensures
        mode_for("json_schema"@, a) == Some(StructuredOutputMode::JsonSchema),
        mode_for("json_object"@, a) == Some(StructuredOutputMode::JsonObject),
        mode_for("prompt_only"@, a) == Some(StructuredOutputMode::PromptOnly),
        mode_for("auto"@, "deepseek_official"@) == Some(StructuredOutputMode::JsonObject),
        mode_for("auto"@, "volcengine_ark_plan"@) == Some(StructuredOutputMode::PromptOnly),
        mode_for("auto"@, "openai_compatible"@) == Some(StructuredOutputMode::JsonSchema),
        b != "auto"@ ==> mode_for(b, a) == mode_for(b, "openai_compatible"@),
{
    reveal_strlit("auto");
    reveal_strlit("json_schema");
    reveal_strlit("json_object");
    reveal_strlit("prompt_only");
    reveal_strlit("deepseek_official");
    reveal_strlit("volcengine_ark_plan");
    reveal_strlit("openai_compatible");
    assert("auto"@.len() == 4 && "json_schema"@.len() == 11 && "json_object"@.len() == 11);
    assert("prompt_only"@.len() == 11);
    assert("json_schema"@[5] != "json_object"@[5]);
    assert("json_schema"@[0] != "prompt_only"@[0] && "json_object"@[0] != "prompt_only"@[0]);
    assert("deepseek_official"@[0] != "volcengine_ark_plan"@[0]);
    assert("openai_compatible"@[0] != "volcengine_ark_plan"@[0]);
    assert("openai_compatible"@[0] != "deepseek_official"@[0]);
}

/// Normalising keeps the groups that were accepted, in their order, drops those
/// that were not, and adds the built-in groups that are missing.
pub proof fn law_normalising_keeps_valid_groups(
    groups: Seq<WatchlistModel>,
    valid: Seq<bool>,
    x: WatchlistModel,
)
    requires
        valid.len() == groups.len(),
    ensures
        accepted(groups, valid).contains(x) <==> exists|i: int|
            0 <= i < groups.len() && #[trigger] groups[i] == x && valid[i],
        accepted(groups, valid).len() > 0 ==> normal_groups(groups, valid).take(
            accepted(groups, valid).len() as int,
        ) == accepted(groups, valid),
        default_groups().contains(x) ==> first_group(normal_groups(groups, valid), x.id) is Some,
        normal_groups(groups, valid).contains(x) ==> accepted(groups, valid).contains(x)
            || default_groups().contains(x),
{
    lemma_accepted(groups, valid, x);
    let kept = if accepted(groups, valid).len() == 0 {
        default_groups()
    } else {
        accepted(groups, valid)
    };
    lemma_completed(kept, default_groups(), x);
}

proof fn lemma_accepted(groups: Seq<WatchlistModel>, valid: Seq<bool>, x: WatchlistModel)
    ensures
        accepted(groups, valid).contains(x) <==> exists|i: int|
            0 <= i < groups.len() && #[trigger] groups[i] == x && valid[i],
    decreases groups.len(),
{
    if groups.len() > 0 {
        let rest = groups.drop_last();
        lemma_accepted(rest, valid, x);
        lemma_push_contains(accepted(rest, valid), groups.last(), x);
        if accepted(rest, valid).contains(x) {
            let i = choose|i: int| 0 <= i < rest.len() && #[trigger] rest[i] == x && valid[i];
            assert(groups[i] == x);
        }
        if valid[groups.len() - 1] && groups.last() == x {
            assert(groups[groups.len() - 1] == x);
        }
        if exists|i: int| 0 <= i < groups.len() && #[trigger] groups[i] == x && valid[i] {
            let i = choose|i: int| 0 <= i < groups.len() && #[trigger] groups[i] == x && valid[i];
            if i < rest.len() {
                assert(rest[i] == x);
            }
        }
    }
}

proof fn lemma_first_group(groups: Seq<WatchlistModel>, id: Seq<char>, i: int)
    requires
        0 <= i < groups.len(),
        groups[i].id == id,
    ensures
        first_group(groups, id) is Some,
    decreases i,
{
    if i > 0 && groups[0].id != id {
        assert(groups.drop_first()[i - 1] == groups[i]);
        lemma_first_group(groups.drop_first(), id, i - 1);
    }
}

proof fn lemma_group_found(groups: Seq<WatchlistModel>, id: Seq<char>) -> (i: int)
    ensures
        first_group(groups, id) matches Some(g) ==> 0 <= i < groups.len() && groups[i] == g && g.id
            == id && forall|j: int| 0 <= j < i ==> (#[trigger] groups[j]).id != id,
        first_group(groups, id) is None ==> forall|j: int|
            0 <= j < groups.len() ==> (#[trigger] groups[j]).id != id,
    decreases groups.len(),
{
    if groups.len() == 0 || groups[0].id == id {
        0
    } else {
        let rest = groups.drop_first();
        let i = lemma_group_found(rest, id);
        assert forall|j: int| 0 < j < groups.len() implies #[trigger] groups[j] == rest[j - 1] by {
        }
        assert(first_group(groups, id) is Some ==> rest[i] == groups[i + 1]);
        i + 1
    }
}

proof fn lemma_completed(
    groups: Seq<WatchlistModel>,
    defaults: Seq<WatchlistModel>,
    x: WatchlistModel,
)
    ensures
        groups.len() <= completed(groups, defaults).len(),
        completed(groups, defaults).take(groups.len() as int) == groups,
        defaults.contains(x) ==> first_group(completed(groups, defaults), x.id) is Some,
        completed(groups, defaults).contains(x) ==> groups.contains(x) || defaults.contains(x),
    decreases defaults.len(),
{
    let all = completed(groups, defaults);
    if defaults.len() == 0 {
        assert(all.take(groups.len() as int) =~= groups);
    } else {
        let rest = defaults.drop_last();
        let held = completed(groups, rest);
        let last = defaults.last();
        lemma_completed(groups, rest, x);
        lemma_push_contains(rest, last, x);
        lemma_push_contains(held, last, x);
        assert(rest.push(last) =~= defaults);
        assert(all.take(groups.len() as int) =~= held.take(groups.len() as int));
        if defaults.contains(x) {
            if rest.contains(x) {
                let i = lemma_group_found(held, x.id);
                assert(all[i] == held[i]);
                lemma_first_group(all, x.id, i);
            } else {
                assert(x == last);
                if first_group(groups, last.id) is Some {
                    let i = lemma_group_found(groups, last.id);
                    assert(all.take(groups.len() as int)[i] == all[i]);
                    lemma_first_group(all, last.id, i);
                } else {
                    assert(all[held.len() as int] == last);
                    lemma_first_group(all, last.id, held.len() as int);
                }
            }
        }
    }
}

/// Deleting a group removes every group of its identity and no other; a deleted
/// selection moves to the first group that is left.
pub proof fn law_deleted_groups_are_gone(c: AppConfigModel, id: Seq<char>, x: WatchlistModel)
    ensures
        without_group(c.watchlists, id).contains(x) <==> c.watchlists.contains(x) && x.id != id,
        without_group(c.watchlists, id).len() > 0 ==> after_delete(c, id).watchlists
            == without_group(c.watchlists, id),
        c.active_watchlist_id == Some(id) ==> after_delete(c, id).active_watchlist_id == Some(
            after_delete(c, id).watchlists[0].id,
        ),
        c.active_watchlist_id != Some(id) ==> after_delete(c, id).active_watchlist_id
            == c.active_watchlist_id,
        after_delete(c, id).chart_symbols == c.chart_symbols,
        after_delete(c, id).alerts == c.alerts,
{
    lemma_without(c.watchlists, id, x);
}

proof fn lemma_without(groups: Seq<WatchlistModel>, id: Seq<char>, x: WatchlistModel)
    ensures
        without_group(groups, id).contains(x) <==> groups.contains(x) && x.id != id,
    decreases groups.len(),
{
    if groups.len() > 0 {
        let rest = groups.drop_last();
        lemma_without(rest, id, x);
        lemma_push_contains(rest, groups.last(), x);
        lemma_push_contains(without_group(rest, id), groups.last(), x);
        assert(rest.push(groups.last()) =~= groups);
    }
}

/// Normalising touches the groups and the web hook alone, and a missing patience
/// becomes three seconds.
pub proof fn law_normalising_leaves_the_rest(c: AppConfigModel, valid: Seq<bool>)
    ensures
        normalized(c, valid).llm == c.llm,
        normalized(c, valid).tradingview == c.tradingview,
        normalized(c, valid).chart_symbols == c.chart_symbols,
        normalized(c, valid).active_watchlist_id == c.active_watchlist_id,
        normalized(c, valid).alerts.feishu.enabled == c.alerts.feishu.enabled,
        c.alerts.feishu.timeout_ms > 0 ==> normalized(c, valid).alerts.feishu.timeout_ms
            == c.alerts.feishu.timeout_ms,
        c.alerts.feishu.timeout_ms == 0 ==> normalized(c, valid).alerts.feishu.timeout_ms == 3_000,
{
}

/// The group that is shown first is the selected one; where it is gone, the first of
/// all.
pub proof fn law_the_selected_group_is_shown(
    groups: Seq<WatchlistModel>,
    active: Option<Seq<char>>,
    i: int,
)
    requires
        0 <= i < groups.len(),
    ensures
        active == Some(groups[i].id) && (forall|j: int|
            0 <= j < i ==> (#[trigger] groups[j]).id != groups[i].id) ==> startup_group(groups, active)
            == groups[i],
        active is None ==> startup_group(groups, active) == groups[0],
        active matches Some(id) ==> ((forall|j: int|
            0 <= j < groups.len() ==> (#[trigger] groups[j]).id != id) ==> startup_group(
            groups,
            active,
        ) == groups[0]),
{
    if let Some(id) = active {
        let k = lemma_group_found(groups, id);
        if id == groups[i].id {
            lemma_first_group(groups, id, i);
        }
    }
}

/// An event goes to the groups that hold its instrument.
pub proof fn law_groups_hold_their_instruments(
    groups: Seq<WatchlistModel>,
    symbol: Seq<char>,
    x: WatchlistModel,
)
    ensures
        groups_with(groups, symbol).contains(x) <==> groups.contains(x) && x.symbols.contains(
            symbol,
        ),
    decreases groups.len(),
{
    if groups.len() > 0 {
        let rest = groups.drop_last();
        law_groups_hold_their_instruments(rest, symbol, x);
        lemma_push_contains(rest, groups.last(), x);
        lemma_push_contains(groups_with(rest, symbol), groups.last(), x);
        assert(rest.push(groups.last()) =~= groups);
    }
}

/// Groups are listed in the order of their identities.
pub proof fn law_groups_are_listed_by_identity(groups: Seq<WatchlistModel>, i: int, j: int)
    ensures
        sorted_by(groups, group_order()).to_multiset() == groups.to_multiset(),
        0 <= i < j < sorted_by(groups, group_order()).len() ==> !text_before(
            sorted_by(groups, group_order())[j].id,
            sorted_by(groups, group_order())[i].id,
        ),
{
    let before = group_order();
    assert forall|a: WatchlistModel, b: WatchlistModel| #[trigger]
        before(a, b) implies !before(b, a) by {
        lemma_text_order(a.id, b.id, a.id);
    }
    assert forall|a: WatchlistModel, b: WatchlistModel, c: WatchlistModel|
        !(#[trigger] before(b, a)) && !(#[trigger] before(c, b)) implies !before(c, a) by {
        lemma_text_order(a.id, b.id, c.id);
        lemma_text_order(c.id, a.id, b.id);
        lemma_text_order(b.id, c.id, a.id);
        lemma_text_order(c.id, b.id, a.id);
        lemma_text_order(b.id, a.id, c.id);
    }
    assert(strict_weak(before));
    law_sorting(groups, before);
    let r = sorted_by(groups, before);
    if 0 <= i < j < r.len() {
        assert(!before(r[j], r[i]));
    }
}

/// A running group ends where no wanted group has its identity.
pub proof fn law_unwanted_groups_end(
    running: Seq<WatchlistModel>,
    wanted: Seq<WatchlistModel>,
    id: Seq<char>,
)
    ensures
        retired(running, wanted).contains(id) <==> (exists|i: int|
            0 <= i < running.len() && (#[trigger] running[i]).id == id) && forall|j: int|
            0 <= j < wanted.len() ==> (#[trigger] wanted[j]).id != id,
    decreases running.len(),
{
    if running.len() > 0 {
        let rest = running.drop_last();
        let last = running.last();
        law_unwanted_groups_end(rest, wanted, id);
        lemma_push_contains(retired(rest, wanted), last.id, id);
        let k = lemma_group_found(wanted, last.id);
        if exists|i: int| 0 <= i < rest.len() && (#[trigger] rest[i]).id == id {
            let i = choose|i: int| 0 <= i < rest.len() && (#[trigger] rest[i]).id == id;
            assert(running[i].id == id);
        }
        if last.id == id {
            assert(running[running.len() - 1].id == id);
        }
        if exists|i: int| 0 <= i < running.len() && (#[trigger] running[i]).id == id {
            let i = choose|i: int| 0 <= i < running.len() && (#[trigger] running[i]).id == id;
            if i < rest.len() {
                assert(rest[i].id == id);
            }
        }
    }
}

/// A wanted group whose engines run with the same settings is left alone; one that
/// does not run, or runs with others, is built.
pub proof fn law_changed_groups_are_built(
    running: Seq<WatchlistModel>,
    wanted: Seq<WatchlistModel>,
    k: int,
)
    requires
        0 <= k < wanted.len(),
        forall|i: int, j: int|
            0 <= i < j < wanted.len() ==> (#[trigger] wanted[i]).id != (#[trigger] wanted[j]).id,
        forall|i: int, j: int|
            0 <= i < j < running.len() ==> (#[trigger] running[i]).id != (#[trigger] running[j]).id,
    ensures
        rebuilt(running, wanted).contains(wanted[k]) <==> !running.contains(wanted[k]),
    decreases wanted.len(),
{
    let rest = wanted.drop_last();
    let last = wanted.last();
    let held = rebuilt(running, rest);
    assert forall|i: int, j: int| 0 <= i < j < rest.len() implies (#[trigger] rest[i]).id != (
    #[trigger] rest[j]).id by {
        assert(wanted[i].id != wanted[j].id);
    }
    lemma_rebuilt_from(running, rest);
    lemma_push_contains(held, last, wanted[k]);
    if k < rest.len() {
        assert(rest[k] == wanted[k]);
        law_changed_groups_are_built(running, rest, k);
        assert(wanted[k].id != wanted[wanted.len() - 1].id);
    } else {
        if held.contains(last) {
            let p = choose|p: int| 0 <= p < held.len() && held[p] == last;
            assert(rest.contains(held[p]));
            let q = choose|q: int| 0 <= q < rest.len() && rest[q] == last;
            assert(wanted[q].id != wanted[wanted.len() - 1].id);
        }
        let all = running + held;
        let at = lemma_last_found(all, last.id);
        if last_group(all, last.id) is Some {
            if at >= running.len() {
                assert(all[at] == held[at - running.len()]);
                assert(rest.contains(held[at - running.len()]));
                let q = choose|q: int| 0 <= q < rest.len() && rest[q] == all[at];
                assert(wanted[q].id != wanted[wanted.len() - 1].id);
            } else {
                assert(all[at] == running[at]);
            }
        }
        if running.contains(last) {
            let r = choose|r: int| 0 <= r < running.len() && running[r] == last;
            assert(all[r] == last);
            if at < running.len() && at != r {
                if at < r {
                    assert(running[at].id != running[r].id);
                } else {
                    assert(running[r].id != running[at].id);
                }
            }
        }
    }
}

proof fn lemma_rebuilt_from(running: Seq<WatchlistModel>, wanted: Seq<WatchlistModel>)
    ensures
        forall|p: int|
            0 <= p < rebuilt(running, wanted).len() ==> wanted.contains(
                #[trigger] rebuilt(running, wanted)[p],
            ),
    decreases wanted.len(),
{
    if wanted.len() > 0 {
        let rest = wanted.drop_last();
        let held = rebuilt(running, rest);
        let all = rebuilt(running, wanted);
        lemma_rebuilt_from(running, rest);
        assert forall|p: int| 0 <= p < all.len() implies wanted.contains(#[trigger] all[p]) by {
            if p < held.len() {
                assert(all[p] == held[p]);
                let q = choose|q: int| 0 <= q < rest.len() && rest[q] == held[p];
                assert(wanted[q] == all[p]);
            } else {
                assert(wanted[wanted.len() - 1] == all[p]);
            }
        }
    }
}

proof fn lemma_last_found(groups: Seq<WatchlistModel>, id: Seq<char>) -> (i: int)
    ensures
        last_group(groups, id) matches Some(g) ==> 0 <= i < groups.len() && groups[i] == g && g.id
            == id,
        last_group(groups, id) is None ==> forall|j: int|
            0 <= j < groups.len() ==> (#[trigger] groups[j]).id != id,
    decreases groups.len(),
{
    if groups.len() == 0 || groups.last().id == id {
        groups.len() - 1
    } else {
        let rest = groups.drop_last();
        let i = lemma_last_found(rest, id);
        if last_group(rest, id) is None {
            assert forall|j: int| 0 <= j < groups.len() implies (#[trigger] groups[j]).id != id by {
                if j < rest.len() {
                    assert(rest[j] == groups[j]);
                }
            }
        }
        i
    }
}

/// Two times give two identities.
pub proof fn law_new_identities_differ(a: nat, b: nat)
    requires
        hex_digits(a) == hex_digits(b),
    ensures
        a == b,
    decreases a,
{
    let s = hex_digits(a);
    let t = hex_digits(b);
    assert(hex_digits(a / 16).len() > 0 && hex_digits(b / 16).len() > 0) by {
        reveal_with_fuel(hex_digits, 2);
    }
    if a < 16 && b < 16 {
        assert(s[0] == t[0]);
    } else if a >= 16 && b >= 16 {
        assert(s.drop_last() =~= hex_digits(a / 16));
        assert(t.drop_last() =~= hex_digits(b / 16));
        assert(s.last() == t.last());
        law_new_identities_differ(a / 16, b / 16);
    } else {
        assert(s.len() == t.len());
    }
}

} // verus!
