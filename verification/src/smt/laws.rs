//! What is promised of divergences beyond their detection.
use vstd::prelude::*;
use crate::alert::engine::{AlertEngineModel, FiredFacts};
use crate::alert::records::direction_words;
use crate::alert::types::ChannelKind;
use crate::candidate::close_laws::{chain_at, lemma_chain_at};
use crate::candidate::rules::first_chain;
use crate::candidate::types::{CandidateModel, ChangeModel};
use crate::detector::{
    Direction, FvgModel, IctStructureModel, LiquidityRefModel, SmtDetectionState,
    SmtInvalidationReason, SmtModel, SymbolChainModel,
};
use crate::smt::feed::{area_of, recorded_area, restored, source_of, stored_area, to_persist};
use crate::smt::public::{
    above, canonical, episode_key, first_reference, first_smt, group_smts, is_public, last_smt,
    later_window, law_each_episode_shows_its_best_attempt, law_only_public_attempts_are_shown,
    rank_of, reference_ts, state_of, stored_only,
};
use crate::smt::reactions::{settled, EffectModel, Moment};
use crate::smt::replay::{
    audited, backfilled, context_of, detection_start, emitting, findings_of, first_from, in_order,
    latest_start, law_context_never_emits, law_reasons_are_kept_once, live_findings, optional,
    passes, replay_order, replay_plan, rewritten, unknown_rows, AuditFindings, ReplayPass,
    ReplayTask,
};
use crate::sorting::{law_sorting, sorted_by, strict_weak};
use crate::text::{
    decimal, digits, digits_value, lemma_digits, lemma_push_contains, lemma_text_order, text_before,
};
use crate::types::{law_tag_round_trip, tag_text, BarModel};

verus! {

/// The sweeper is in a state: its first chain says so, and without a chain it
/// has ended.
pub open spec fn stands(smt: SmtModel, state: SmtDetectionState) -> bool {
    if exists|i: int| #[trigger] chain_at(smt.chains, smt.sweeper_symbol, i) {
        exists|i: int| #[trigger]
            chain_at(smt.chains, smt.sweeper_symbol, i) && smt.chains[i].detection_state == state
    } else {
        state is Invalidated
    }
}

proof fn lemma_chain_found(chains: Seq<SymbolChainModel>, symbol: Seq<char>) -> (i: int)
    ensures
        first_chain(chains, symbol) is Some ==> chain_at(chains, symbol, i),
        first_chain(chains, symbol) is None ==> forall|k: int|
            0 <= k < chains.len() ==> (#[trigger] chains[k]).symbol != symbol,
    decreases chains.len(),
{
    if chains.len() == 0 {
        0
    } else if chains[0].symbol == symbol {
        0
    } else {
        let rest = chains.drop_first();
        let i = lemma_chain_found(rest, symbol);
        if first_chain(rest, symbol) is Some {
            assert forall|k: int| 0 <= k < i + 1 implies (#[trigger] chains[k]).symbol != symbol by {
                if k > 0 {
                    assert(rest[k - 1] == chains[k]);
                }
            }
            assert(chains[i + 1] == rest[i]);
        } else {
            assert forall|k: int| 0 <= k < chains.len() implies (#[trigger] chains[k]).symbol
                != symbol by {
                if k > 0 {
                    assert(rest[k - 1] == chains[k]);
                }
            }
        }
        i + 1
    }
}

proof fn lemma_stands(smt: SmtModel)
    ensures
        stands(smt, state_of(smt)),
        forall|s: SmtDetectionState| stands(smt, s) ==> s == state_of(smt),
{
    let at = lemma_chain_found(smt.chains, smt.sweeper_symbol);
    if first_chain(smt.chains, smt.sweeper_symbol) is Some {
        lemma_chain_at(smt.chains, smt.sweeper_symbol, at);
    }
    assert forall|i: int| #[trigger]
        chain_at(smt.chains, smt.sweeper_symbol, i) implies first_chain(
        smt.chains,
        smt.sweeper_symbol,
    ) == Some(smt.chains[i]) by {
        lemma_chain_at(smt.chains, smt.sweeper_symbol, i);
    }
}

/// An attempt is public where it follows the current rules, has a price area, and
/// has not ended before its parent candle confirmed it.
pub proof fn law_public_attempts(smt: SmtModel, rule: Seq<char>)
    ensures
        is_public(smt, rule) ==> smt.rule_version == rule && smt.htf_pda_ref is Some,
        is_public(smt, rule) && !smt.htf_confirmed ==> !stands(smt, SmtDetectionState::Invalidated),
        smt.rule_version == rule && smt.htf_pda_ref is Some && smt.htf_confirmed ==> is_public(
            smt,
            rule,
        ),
        smt.rule_version == rule && smt.htf_pda_ref is Some && (stands(
            smt,
            SmtDetectionState::SmtKDetected,
        ) || stands(smt, SmtDetectionState::C2Confirmed) || stands(smt, SmtDetectionState::C3Entry))
            ==> is_public(smt, rule),
{
    lemma_stands(smt);
}

/// The sweeper took the liquidity of a time: that of its first reference, and the
/// start of the observation where it has none.
pub open spec fn took(smt: SmtModel, ts: i64) -> bool {
    ||| exists|i: int|
        0 <= i < smt.liquidity_refs.len() && (#[trigger] smt.liquidity_refs[i]).symbol
            == smt.sweeper_symbol && smt.liquidity_refs[i].ref_ts == ts && none_before(
            smt.liquidity_refs,
            smt.sweeper_symbol,
            i,
        )
    ||| none_before(smt.liquidity_refs, smt.sweeper_symbol, smt.liquidity_refs.len() as int)
        && smt.observation_window.0 == ts
}

/// No reference of an instrument stands before a position.
pub open spec fn none_before(refs: Seq<LiquidityRefModel>, symbol: Seq<char>, n: int) -> bool {
    forall|j: int| 0 <= j < n ==> (#[trigger] refs[j]).symbol != symbol
}

proof fn lemma_reference(refs: Seq<LiquidityRefModel>, symbol: Seq<char>, i: int)
    requires
        0 <= i <= refs.len(),
        none_before(refs, symbol, i),
        i < refs.len() ==> refs[i].symbol == symbol,
    ensures
        first_reference(refs, symbol) == if i < refs.len() {
            Some(refs[i])
        } else {
            None
        },
    decreases i,
{
    if i > 0 {
        assert(refs[0].symbol != symbol);
        let rest = refs.drop_first();
        assert forall|j: int| 0 <= j < i - 1 implies (#[trigger] rest[j]).symbol != symbol by {
            assert(rest[j] == refs[j + 1]);
        }
        lemma_reference(rest, symbol, i - 1);
    }
}

proof fn lemma_took(smt: SmtModel, ts: i64)
    requires
        took(smt, ts),
    ensures
        reference_ts(smt) == ts,
{
    let refs = smt.liquidity_refs;
    if none_before(refs, smt.sweeper_symbol, refs.len() as int) && smt.observation_window.0 == ts {
        lemma_reference(refs, smt.sweeper_symbol, refs.len() as int);
    } else {
        let i = choose|i: int|
            0 <= i < refs.len() && (#[trigger] refs[i]).symbol == smt.sweeper_symbol
                && refs[i].ref_ts == ts && none_before(refs, smt.sweeper_symbol, i);
        lemma_reference(refs, smt.sweeper_symbol, i);
    }
}

/// Two attempts at one trade: the same group, sweeper, periods, direction and
/// price area, and the same liquidity taken.
pub open spec fn one_episode(a: SmtModel, b: SmtModel, ts: i64) -> bool {
    &&& a.watchlist_id == b.watchlist_id
    &&& a.sweeper_symbol == b.sweeper_symbol
    &&& a.context_timeframe == b.context_timeframe
    &&& a.comparison_timeframe == b.comparison_timeframe
    &&& a.candidate_direction == b.candidate_direction
    &&& a.htf_pda_ref matches Some(p) && b.htf_pda_ref matches Some(q) && p.id == q.id
    &&& took(a, ts)
    &&& took(b, ts)
}

/// Of two attempts of one episode at most one is shown.
pub proof fn law_an_episode_is_shown_once(
    smts: Seq<SmtModel>,
    rule: Seq<char>,
    i: int,
    j: int,
    ts: i64,
)
    requires
        0 <= i < canonical(smts, rule).len(),
        0 <= j < canonical(smts, rule).len(),
        one_episode(canonical(smts, rule)[i], canonical(smts, rule)[j], ts),
    ensures
        i == j,
{
    let shown = canonical(smts, rule);
    law_each_episode_shows_its_best_attempt(smts, rule);
    lemma_took(shown[i], ts);
    lemma_took(shown[j], ts);
    assert(episode_key(shown[i]) == episode_key(shown[j]));
    if i < j {
        assert(episode_key(shown[i]) != episode_key(shown[j]));
    } else if j < i {
        assert(episode_key(shown[j]) != episode_key(shown[i]));
    }
}

/// A public attempt is represented in its episode by one that is at least as far:
/// a third candle beats a second one, that beats a mere sweep, and that an end;
/// at the same stage a confirmed parent beats an open one, and then the later
/// sweep wins.
pub proof fn law_the_furthest_attempt_is_shown(smts: Seq<SmtModel>, rule: Seq<char>, k: int) -> (i: int)
    requires
        0 <= k < smts.len(),
        is_public(smts[k], rule),
    ensures
        0 <= i < canonical(smts, rule).len(),
        smts.contains(canonical(smts, rule)[i]),
        episode_key(canonical(smts, rule)[i]) == episode_key(smts[k]),
        ({
            let best = canonical(smts, rule)[i];
            let other = smts[k];
            &&& stands(other, SmtDetectionState::C3Entry) ==> stands(
                best,
                SmtDetectionState::C3Entry,
            )
            &&& stands(other, SmtDetectionState::C2Confirmed) ==> stands(
                best,
                SmtDetectionState::C3Entry,
            ) || stands(best, SmtDetectionState::C2Confirmed)
            &&& stands(other, SmtDetectionState::SmtKDetected) ==> !stands(
                best,
                SmtDetectionState::Invalidated,
            )
            &&& forall|s: SmtDetectionState| #[trigger]
                stands(best, s) && stands(other, s) && other.htf_confirmed ==> best.htf_confirmed
            &&& forall|s: SmtDetectionState, p: int, q: int| #[trigger]
                stands(best, s) && stands(other, s) && other.htf_confirmed == best.htf_confirmed
                    && #[trigger] chain_at(best.chains, best.sweeper_symbol, p)
                    && #[trigger] chain_at(other.chains, other.sweeper_symbol, q)
                    ==> best.chains[p].smt_k_candle.ts >= other.chains[q].smt_k_candle.ts
        }),
{
    law_each_episode_shows_its_best_attempt(smts, rule);
    law_only_public_attempts_are_shown(smts, rule);
    let shown = canonical(smts, rule);
    let i = choose|i: int|
        0 <= i < shown.len() && episode_key(#[trigger] shown[i]) == episode_key(smts[k])
            && !above(
            rank_of(smts[k]),
            rank_of(shown[i]),
        );
    let best = shown[i];
    let other = smts[k];
    lemma_stands(best);
    lemma_stands(other);
    assert forall|s: SmtDetectionState, p: int, q: int| #[trigger]
        stands(best, s) && stands(other, s) && other.htf_confirmed == best.htf_confirmed
            && #[trigger] chain_at(best.chains, best.sweeper_symbol, p) && #[trigger] chain_at(
            other.chains,
            other.sweeper_symbol,
            q,
        ) implies best.chains[p].smt_k_candle.ts >= other.chains[q].smt_k_candle.ts by {
        lemma_chain_at(best.chains, best.sweeper_symbol, p);
        lemma_chain_at(other.chains, other.sweeper_symbol, q);
    }
    i
}

proof fn lemma_middle(p: Seq<char>, x: Seq<char>, y: Seq<char>, q: Seq<char>)
    requires
        p + x + q == p + y + q,
    ensures
        x == y,
{
    assert((p + x + q).len() == p.len() + x.len() + q.len());
    assert((p + y + q).len() == p.len() + y.len() + q.len());
    assert(x.len() == y.len());
    assert forall|k: int| 0 <= k < x.len() implies x[k] == y[k] by {
        assert((p + x + q)[p.len() + k] == x[k]);
        assert((p + y + q)[p.len() + k] == y[k]);
    }
    assert(x =~= y);
}

proof fn lemma_decimal_tells_apart(a: int, b: int)
    requires
        decimal(a) == decimal(b),
    ensures
        a == b,
{
    if a < 0 {
        lemma_digits((-a) as nat);
    } else {
        lemma_digits(a as nat);
    }
    if b < 0 {
        lemma_digits((-b) as nat);
    } else {
        lemma_digits(b as nat);
    }
    let x = decimal(a);
    let y = decimal(b);
    if a < 0 && b < 0 {
        assert(x.drop_first() =~= digits((-a) as nat));
        assert(y.drop_first() =~= digits((-b) as nat));
        assert(digits_value(x.drop_first()) == digits_value(y.drop_first()));
    } else if a < 0 {
        assert(x[0] == '-');
        assert('0' <= y[0]);
    } else if b < 0 {
        assert(y[0] == '-');
        assert('0' <= x[0]);
    }
}

proof fn lemma_directions_tell_apart(a: Direction, b: Direction)
    requires
        direction_words(a) == direction_words(b),
    ensures
        a == b,
{
    reveal_strlit("Bullish");
    reveal_strlit("Bearish");
    if a != b {
        assert(direction_words(Direction::Bullish)[1] == direction_words(Direction::Bearish)[1]);
    }
}

/// Attempts that differ in one part of the trade belong to different episodes:
/// where the other parts agree and the episode is the same, so is this part.
pub proof fn law_other_trades_are_other_episodes(a: SmtModel, b: SmtModel, s: i64, t: i64)
    requires
        a.htf_pda_ref is Some,
        b.htf_pda_ref is Some,
        took(a, s),
        took(b, t),
        episode_key(a) == episode_key(b),
    ensures
        ({
            let group = a.watchlist_id == b.watchlist_id;
            let sweeper = a.sweeper_symbol == b.sweeper_symbol;
            let context = a.context_timeframe == b.context_timeframe;
            let comparison = a.comparison_timeframe == b.comparison_timeframe;
            let direction = a.candidate_direction == b.candidate_direction;
            let area = (a.htf_pda_ref->0).id == (b.htf_pda_ref->0).id;
            let time = s == t;
            &&& sweeper && context && comparison && direction && area && time ==> group
            &&& group && context && comparison && direction && area && time ==> sweeper
            &&& group && sweeper && comparison && direction && area && time ==> context
            &&& group && sweeper && context && direction && area && time ==> comparison
            &&& group && sweeper && context && comparison && area && time ==> direction
            &&& group && sweeper && context && comparison && direction && time ==> area
            &&& group && sweeper && context && comparison && direction && area ==> time
        }),
{
    lemma_took(a, s);
    lemma_took(b, t);
    let bar = "|"@;
    let parts = |x: SmtModel, ts: i64|
        seq![
            x.watchlist_id,
            x.sweeper_symbol,
            tag_text(x.context_timeframe),
            tag_text(x.comparison_timeframe),
            direction_words(x.candidate_direction),
            (x.htf_pda_ref->0).id,
            decimal(ts as int),
        ];
    let p = parts(a, s);
    let q = parts(b, t);
    assert(episode_key(a) == joined(p, bar));
    assert(episode_key(b) == joined(q, bar));
    law_tag_round_trip(a.context_timeframe);
    law_tag_round_trip(b.context_timeframe);
    law_tag_round_trip(a.comparison_timeframe);
    law_tag_round_trip(b.comparison_timeframe);
    assert forall|n: int|
        0 <= n < 7 && (forall|m: int| 0 <= m < 7 && m != n ==> p[m] == q[m]) implies #[trigger] p[n]
        == q[n] by {
        lemma_one_part(p, q, bar, n);
    }
    if p[4] == q[4] {
        lemma_directions_tell_apart(a.candidate_direction, b.candidate_direction);
    }
    if p[6] == q[6] {
        lemma_decimal_tells_apart(s as int, t as int);
    }
}

/// Seven texts with a separator between them.
spec fn joined(p: Seq<Seq<char>>, bar: Seq<char>) -> Seq<char> {
    p[0] + bar + p[1] + bar + p[2] + bar + p[3] + bar + p[4] + bar + p[5] + bar + p[6]
}

proof fn lemma_one_part(p: Seq<Seq<char>>, q: Seq<Seq<char>>, bar: Seq<char>, n: int)
    requires
        p.len() == 7,
        q.len() == 7,
        0 <= n < 7,
        joined(p, bar) == joined(q, bar),
        forall|m: int| 0 <= m < 7 && m != n ==> p[m] == q[m],
    ensures
        p[n] == q[n],
{
    let none = Seq::<char>::empty();
    let left = if n == 0 {
        none
    } else if n == 1 {
        p[0] + bar
    } else if n == 2 {
        p[0] + bar + p[1] + bar
    } else if n == 3 {
        p[0] + bar + p[1] + bar + p[2] + bar
    } else if n == 4 {
        p[0] + bar + p[1] + bar + p[2] + bar + p[3] + bar
    } else if n == 5 {
        p[0] + bar + p[1] + bar + p[2] + bar + p[3] + bar + p[4] + bar
    } else {
        p[0] + bar + p[1] + bar + p[2] + bar + p[3] + bar + p[4] + bar + p[5] + bar
    };
    let right = if n == 6 {
        none
    } else if n == 5 {
        bar + p[6]
    } else if n == 4 {
        bar + p[5] + bar + p[6]
    } else if n == 3 {
        bar + p[4] + bar + p[5] + bar + p[6]
    } else if n == 2 {
        bar + p[3] + bar + p[4] + bar + p[5] + bar + p[6]
    } else if n == 1 {
        bar + p[2] + bar + p[3] + bar + p[4] + bar + p[5] + bar + p[6]
    } else {
        bar + p[1] + bar + p[2] + bar + p[3] + bar + p[4] + bar + p[5] + bar + p[6]
    };
    assert(joined(p, bar) =~= left + p[n] + right);
    assert(joined(q, bar) =~= left + q[n] + right);
    lemma_middle(left, p[n], q[n], right);
}

/// Divergences are listed by the end of their observation, the latest first.
pub proof fn law_the_latest_window_comes_first(list: Seq<SmtModel>, i: int, j: int)
    ensures
        ({
            let shown = sorted_by(list, later_window());
            &&& shown.to_multiset() == list.to_multiset()
            &&& 0 <= i < j < shown.len() ==> shown[i].observation_window.1
                >= shown[j].observation_window.1
        }),
{
    let before = later_window();
    assert(strict_weak(before));
    law_sorting(list, before);
    let shown = sorted_by(list, before);
    if 0 <= i < j < shown.len() {
        assert(!before(shown[j], shown[i]));
    }
}

/// The last row with an identity.
pub open spec fn last_row(rows: Seq<SmtModel>, id: Seq<char>, i: int) -> bool {
    &&& 0 <= i < rows.len()
    &&& rows[i].id == id
    &&& forall|j: int| i < j < rows.len() ==> (#[trigger] rows[j]).id != id
}

proof fn lemma_last_row(rows: Seq<SmtModel>, id: Seq<char>, i: int)
    requires
        last_row(rows, id, i),
    ensures
        last_smt(rows, id) == Some(rows[i]),
    decreases rows.len(),
{
    if i < rows.len() - 1 {
        assert(rows[rows.len() - 1].id != id);
        let rest = rows.drop_last();
        assert forall|j: int| i < j < rest.len() implies (#[trigger] rest[j]).id != id by {
            assert(rest[j] == rows[j]);
        }
        lemma_last_row(rest, id, i);
    }
}

proof fn lemma_last_smt(rows: Seq<SmtModel>, id: Seq<char>) -> (i: int)
    ensures
        last_smt(rows, id) is Some ==> last_row(rows, id, i),
        last_smt(rows, id) is None ==> forall|j: int|
            0 <= j < rows.len() ==> (#[trigger] rows[j]).id != id,
    decreases rows.len(),
{
    if rows.len() == 0 {
        0
    } else if rows.last().id == id {
        rows.len() - 1
    } else {
        let rest = rows.drop_last();
        let i = lemma_last_smt(rest, id);
        if last_smt(rest, id) is Some {
            assert forall|j: int| i < j < rows.len() implies (#[trigger] rows[j]).id != id by {
                if j < rest.len() {
                    assert(rest[j] == rows[j]);
                }
            }
        } else {
            assert forall|j: int| 0 <= j < rows.len() implies (#[trigger] rows[j]).id != id by {
                if j < rest.len() {
                    assert(rest[j] == rows[j]);
                }
            }
        }
        i
    }
}

/// A live divergence keeps what it knows and takes only a missing price area or
/// parent candle from its latest stored row; where that row says that the sweeper
/// ended, the row stands.
pub proof fn law_live_divergences_are_completed(
    live: Seq<SmtModel>,
    rows: Seq<SmtModel>,
    i: int,
    k: int,
)
    requires
        0 <= i < live.len(),
        last_row(rows, live[i].id, k),
    ensures
        ({
            let r = group_smts(live, rows)[i];
            let row = rows[k];
            let over = exists|n: int|
                0 <= n < row.chains.len() && (#[trigger] row.chains[n]).symbol
                    == row.sweeper_symbol && row.chains[n].detection_state is Invalidated;
            &&& group_smts(live, rows).len() >= live.len()
            &&& over ==> r == row
            &&& !over ==> r.id == live[i].id && r.chains == live[i].chains && r.htf_confirmed
                == live[i].htf_confirmed && r.observation_window == live[i].observation_window
                && r.rule_version == live[i].rule_version
            &&& !over && live[i].htf_pda_ref is Some ==> r.htf_pda_ref == live[i].htf_pda_ref
            &&& !over && live[i].htf_pda_ref is None ==> r.htf_pda_ref == row.htf_pda_ref
            &&& !over && live[i].mtf_ref_candle is Some ==> r.mtf_ref_candle
                == live[i].mtf_ref_candle
            &&& !over && live[i].mtf_ref_candle is None ==> r.mtf_ref_candle == row.mtf_ref_candle
        }),
{
    lemma_last_row(rows, live[i].id, k);
}

/// A live divergence without a stored row is listed as it is.
pub proof fn law_unstored_divergences_stay(live: Seq<SmtModel>, rows: Seq<SmtModel>, i: int)
    requires
        0 <= i < live.len(),
        forall|j: int| 0 <= j < rows.len() ==> (#[trigger] rows[j]).id != live[i].id,
    ensures
        group_smts(live, rows)[i] == live[i],
{
    let k = lemma_last_smt(rows, live[i].id);
}

proof fn lemma_stored_only(rows: Seq<SmtModel>, live: Seq<SmtModel>)
    ensures
        forall|k: int|
            0 <= k < rows.len() && last_smt(live, (#[trigger] rows[k]).id) is None
                && last_row(rows, rows[k].id, k) ==> stored_only(rows, live).contains(rows[k]),
        forall|n: int|
            0 <= n < stored_only(rows, live).len() ==> last_smt(
                live,
                (#[trigger] stored_only(rows, live)[n]).id,
            ) is None && last_smt(rows, stored_only(rows, live)[n].id) == Some(
                stored_only(rows, live)[n],
            ),
        forall|m: int, n: int|
            0 <= m < n < stored_only(rows, live).len() ==> (#[trigger] stored_only(rows, live)[m]).id
                != (#[trigger] stored_only(rows, live)[n]).id,
    decreases rows.len(),
{
    if rows.len() > 0 {
        let tail = rows.drop_first();
        let rest = stored_only(tail, live);
        let all = stored_only(rows, live);
        lemma_stored_only(tail, live);
        assert forall|id: Seq<char>| #[trigger]
            last_smt(tail, id) is Some implies last_smt(rows, id) == last_smt(tail, id) by {
            let i = lemma_last_smt(tail, id);
            assert forall|j: int| i + 1 < j < rows.len() implies (#[trigger] rows[j]).id != id by {
                assert(tail[j - 1] == rows[j]);
            }
            assert(rows[i + 1] == tail[i]);
            lemma_last_row(rows, id, i + 1);
            lemma_last_row(tail, id, i);
        }
        let dropped = last_smt(tail, rows[0].id) is Some || last_smt(live, rows[0].id) is Some;
        if last_smt(tail, rows[0].id) is None {
            let i = lemma_last_smt(tail, rows[0].id);
            assert forall|j: int| 0 < j < rows.len() implies (#[trigger] rows[j]).id
                != rows[0].id by {
                assert(tail[j - 1] == rows[j]);
            }
            lemma_last_row(rows, rows[0].id, 0);
        }
        assert forall|k: int|
            0 <= k < rows.len() && last_smt(live, (#[trigger] rows[k]).id) is None && last_row(
                rows,
                rows[k].id,
                k,
            ) implies all.contains(rows[k]) by {
            if k > 0 {
                assert(tail[k - 1] == rows[k]);
                assert forall|j: int| k - 1 < j < tail.len() implies (#[trigger] tail[j]).id
                    != rows[k].id by {
                    assert(tail[j] == rows[j + 1]);
                }
                assert(last_row(tail, tail[k - 1].id, k - 1));
                assert(rest.contains(tail[k - 1]));
                let n = choose|n: int| 0 <= n < rest.len() && rest[n] == rows[k];
                if dropped {
                    assert(all[n] == rows[k]);
                } else {
                    assert(all[n + 1] == rows[k]);
                }
            } else {
                let i = lemma_last_smt(tail, rows[0].id);
                if last_smt(tail, rows[0].id) is Some {
                    assert(rows[i + 1] == tail[i]);
                    assert(false);
                }
                assert(all[0] == rows[0]);
            }
        }
        assert forall|n: int| 0 <= n < all.len() implies last_smt(live, (#[trigger] all[n]).id) is None
            && last_smt(rows, all[n].id) == Some(all[n]) by {
            if dropped {
                assert(all[n] == rest[n]);
            } else if n > 0 {
                assert(all[n] == rest[n - 1]);
            }
        }
        assert forall|m: int, n: int| 0 <= m < n < all.len() implies (#[trigger] all[m]).id != (
        #[trigger] all[n]).id by {
            if dropped {
                assert(all[m] == rest[m] && all[n] == rest[n]);
            } else {
                assert(all[n] == rest[n - 1]);
                if m > 0 {
                    assert(all[m] == rest[m - 1]);
                } else {
                    assert(last_smt(tail, rest[n - 1].id) is Some);
                }
            }
        }
    }
}

/// Stored rows are listed behind the live divergences: the latest of each
/// identity that is not live, and no other.
pub proof fn law_stored_rows_fill_the_list(
    live: Seq<SmtModel>,
    rows: Seq<SmtModel>,
    k: int,
    m: int,
    n: int,
)
    requires
        0 <= k < rows.len(),
        live.len() <= m < n < group_smts(live, rows).len(),
    ensures
        ({
            let all = group_smts(live, rows);
            &&& last_row(rows, rows[k].id, k) && (forall|j: int|
                0 <= j < live.len() ==> (#[trigger] live[j]).id != rows[k].id) ==> all.contains(
                rows[k],
            )
            &&& rows.contains(all[m])
            &&& forall|j: int| 0 <= j < live.len() ==> (#[trigger] live[j]).id != all[m].id
            &&& all[m].id != all[n].id
            &&& all[m].id == rows[k].id && last_row(rows, rows[k].id, k) ==> all[m] == rows[k]
        }),
{
    let all = group_smts(live, rows);
    let kept = stored_only(rows, live);
    let first = live.len() as int;
    lemma_stored_only(rows, live);
    assert(all[m] == kept[m - first]);
    assert(all[n] == kept[n - first]);
    let i = lemma_last_smt(rows, all[m].id);
    lemma_last_row(rows, all[m].id, i);
    assert(rows[i] == all[m]);
    let l = lemma_last_smt(live, all[m].id);
    if last_row(rows, rows[k].id, k) {
        lemma_last_row(rows, rows[k].id, k);
        if forall|j: int| 0 <= j < live.len() ==> (#[trigger] live[j]).id != rows[k].id {
            let j = lemma_last_smt(live, rows[k].id);
            assert(kept.contains(rows[k]));
            let p = choose|p: int| 0 <= p < kept.len() && kept[p] == rows[k];
            assert(all[first + p] == rows[k]);
        }
    }
}

/// A candidate is traced to the live divergence of its identity, and to the
/// stored one only where none is live.
pub proof fn law_live_sources_come_first(
    live: Seq<SmtModel>,
    stored: Seq<SmtModel>,
    id: Seq<char>,
    k: int,
)
    ensures
        last_row(live, id, k) ==> source_of(live, stored, id) == Some(live[k]),
        (forall|j: int| 0 <= j < live.len() ==> (#[trigger] live[j]).id != id) && last_row(
            stored,
            id,
            k,
        ) ==> source_of(live, stored, id) == Some(stored[k]),
{
    if last_row(live, id, k) {
        lemma_last_row(live, id, k);
    }
    if last_row(stored, id, k) {
        lemma_last_row(stored, id, k);
    }
    let i = lemma_last_smt(live, id);
}

/// The last gap with an identity.
pub open spec fn last_gap(structures: Seq<IctStructureModel>, gap: FvgModel, i: int) -> bool {
    &&& 0 <= i < structures.len()
    &&& structures[i] == IctStructureModel::Fvg(gap)
    &&& forall|j: int|
        i < j < structures.len() ==> !(#[trigger] structures[j] matches IctStructureModel::Fvg(g)
            && g.id == gap.id)
}

proof fn lemma_last_gap(structures: Seq<IctStructureModel>, gap: FvgModel, i: int)
    requires
        last_gap(structures, gap, i),
    ensures
        stored_area(structures, gap.id) == Some(area_of(gap)),
    decreases structures.len(),
{
    if i < structures.len() - 1 {
        assert(!(structures[structures.len() - 1] matches IctStructureModel::Fvg(g) && g.id
            == gap.id));
        let rest = structures.drop_last();
        assert forall|j: int| i < j < rest.len() implies !(#[trigger] rest[j] matches
            IctStructureModel::Fvg(g) && g.id == gap.id) by {
            assert(rest[j] == structures[j]);
        }
        lemma_last_gap(rest, gap, i);
    }
}

/// The last candidate of a divergence that recorded a price area.
pub open spec fn last_record(
    candidates: Seq<CandidateModel>,
    smt_id: Seq<char>,
    area: Seq<char>,
    i: int,
) -> bool {
    &&& 0 <= i < candidates.len()
    &&& candidates[i].smt_id == smt_id
    &&& candidates[i].context_pda_id == Some(area)
    &&& forall|j: int|
        i < j < candidates.len() ==> !((#[trigger] candidates[j]).smt_id == smt_id
            && candidates[j].context_pda_id is Some)
}

proof fn lemma_last_record(
    candidates: Seq<CandidateModel>,
    smt_id: Seq<char>,
    area: Seq<char>,
    i: int,
)
    requires
        last_record(candidates, smt_id, area, i),
    ensures
        recorded_area(candidates, smt_id) == Some(area),
    decreases candidates.len(),
{
    if i < candidates.len() - 1 {
        assert(!(candidates[candidates.len() - 1].smt_id == smt_id
            && candidates[candidates.len() - 1].context_pda_id is Some));
        let rest = candidates.drop_last();
        assert forall|j: int| i < j < rest.len() implies !((#[trigger] rest[j]).smt_id == smt_id
            && rest[j].context_pda_id is Some) by {
            assert(rest[j] == candidates[j]);
        }
        lemma_last_record(rest, smt_id, area, i);
    }
}

/// A stored divergence that lost its price area gets the gap back that its
/// candidate recorded, with the prices and times of that gap and not left yet.
pub proof fn law_lost_areas_come_back(
    smt: SmtModel,
    candidates: Seq<CandidateModel>,
    structures: Seq<IctStructureModel>,
    gap: FvgModel,
    c: int,
    s: int,
)
    requires
        smt.htf_pda_ref is None,
        last_record(candidates, smt.id, gap.id, c),
        last_gap(structures, gap, s),
    ensures
        restored(smt, candidates, structures).htf_pda_ref matches Some(area) && area.id == gap.id
            && area.tf == gap.tf && area.direction == gap.direction && area.price_low
            == gap.price_low && area.price_high == gap.price_high && area.ts_open == gap.ts_open
            && area.ts_confirm == gap.ts_confirm && area.ts_filled == gap.ts_filled
            && area.exit_ts is None && area.kind == "fvg"@,
        restored(smt, candidates, structures).id == smt.id,
        restored(smt, candidates, structures).chains == smt.chains,
{
    lemma_last_record(candidates, smt.id, gap.id, c);
    lemma_last_gap(structures, gap, s);
}

/// Divergences are written back where they were repaired and have their area.
pub proof fn law_repaired_rows_are_written(live: Seq<SmtModel>, repaired: Seq<Seq<char>>, x: SmtModel)
    ensures
        to_persist(live, repaired).contains(x) <==> live.contains(x) && repaired.contains(x.id)
            && x.htf_pda_ref is Some,
    decreases live.len(),
{
    if live.len() > 0 {
        let rest = live.drop_last();
        law_repaired_rows_are_written(rest, repaired, x);
        lemma_push_contains(rest, live.last(), x);
        lemma_push_contains(to_persist(rest, repaired), live.last(), x);
        assert(rest.push(live.last()) =~= live);
    }
}

/// A change is stored with its market time, then its decision; a reversal found
/// late is kept for the inbox alone, at the time of the reversal, and only where
/// it is not known; whatever is delivered comes last.
pub proof fn law_a_change_is_stored_before_it_is_told(
    alerts: AlertEngineModel,
    change: ChangeModel,
    at: Moment,
    fired: FiredFacts,
    k: int,
)
    ensures
        ({
            let all = settled(alerts, change, at, fired);
            let late = at.backfills && change.validation_event is Some && !fired.group_symbol;
            &&& 2 <= all.len() <= 4
            &&& all[0] == (EffectModel::KeepCandidate {
                candidate: change.candidate,
                ts: at.transition_ts,
            })
            &&& all[1] == EffectModel::KeepDecision(change.decision)
            &&& (all.len() > 2 && all[2] is KeepAlert) <==> late
            &&& 0 <= k < all.len() && all[k] is KeepAlert ==> k == 2
            &&& 0 <= k < all.len() && all[k] is Deliver ==> k == all.len() - 1 && k >= 2
            &&& late ==> (all[2] matches EffectModel::KeepAlert(a) && a.channels_fired == seq![
                ChannelKind::Inbox,
            ] && a.trigger is Validated && a.candidate_id == change.candidate.id
                && a.watchlist_id == change.candidate.watchlist_id && a.created_at == (
            change.validation_event->0).ts)
        }),
{
}

/// Detection starts at the first candle that is not before the start, and without
/// a start as many candles from the end as the limit says.
pub proof fn law_detection_starts_in_time(
    bars: Seq<BarModel>,
    event_start: Option<i64>,
    limit: int,
    i: int,
)
    requires
        limit >= 0,
        0 <= i < bars.len(),
    ensures
        ({
            let n = detection_start(bars, event_start, limit);
            &&& event_start matches Some(start) ==> ((forall|j: int|
                0 <= j < i ==> (#[trigger] bars[j]).ts < start) && bars[i].ts >= start ==> n == i)
            &&& event_start matches Some(start) ==> ((forall|j: int|
                0 <= j < bars.len() ==> (#[trigger] bars[j]).ts < start) ==> n == bars.len())
            &&& event_start is None && bars.len() >= limit ==> bars.skip(n).len() == limit
            &&& event_start is None && bars.len() < limit ==> n == 0
        }),
{
    match event_start {
        Some(start) => {
            if (forall|j: int| 0 <= j < i ==> (#[trigger] bars[j]).ts < start) && bars[i].ts
                >= start {
                lemma_first_from(bars, start, i);
            }
            if forall|j: int| 0 <= j < bars.len() ==> (#[trigger] bars[j]).ts < start {
                lemma_first_from(bars, start, bars.len() as int);
            }
        },
        None => {},
    }
}

proof fn lemma_first_from(bars: Seq<BarModel>, start: i64, i: int)
    requires
        0 <= i <= bars.len(),
        forall|j: int| 0 <= j < i ==> (#[trigger] bars[j]).ts < start,
        i < bars.len() ==> bars[i].ts >= start,
    ensures
        first_from(bars, start) == i,
    decreases i,
{
    if i > 0 {
        assert(bars[0].ts < start);
        let rest = bars.drop_first();
        assert forall|j: int| 0 <= j < i - 1 implies (#[trigger] rest[j]).ts < start by {
            assert(rest[j] == bars[j + 1]);
        }
        lemma_first_from(rest, start, i - 1);
    }
}

/// Several histories have a common start where each has a first candle; it is the
/// latest of these.
pub proof fn law_the_latest_history_starts_last(firsts: Seq<Option<i64>>)
    ensures
        latest_start(firsts) is Some <==> firsts.len() > 0 && forall|i: int|
            0 <= i < firsts.len() ==> (#[trigger] firsts[i]) is Some,
        latest_start(firsts) matches Some(ts) ==> firsts.contains(Some(ts)) && forall|i: int|
            0 <= i < firsts.len() ==> (#[trigger] firsts[i])->0 <= ts,
    decreases firsts.len(),
{
    if firsts.len() == 1 {
        assert(firsts.contains(firsts[0]));
    } else if firsts.len() > 1 {
        let rest = firsts.drop_last();
        law_the_latest_history_starts_last(rest);
        if latest_start(firsts) is Some {
            assert forall|i: int| 0 <= i < firsts.len() implies (#[trigger] firsts[i]) is Some
                && firsts[i]->0 <= latest_start(firsts)->0 by {
                if i < rest.len() {
                    assert(rest[i] == firsts[i]);
                }
            }
            if latest_start(firsts) == firsts.last() {
                assert(firsts[firsts.len() - 1] == latest_start(firsts));
            } else {
                let k = choose|k: int| 0 <= k < rest.len() && rest[k] == latest_start(rest);
                assert(firsts[k] == latest_start(firsts));
            }
        } else if forall|i: int| 0 <= i < firsts.len() ==> (#[trigger] firsts[i]) is Some {
            assert forall|i: int| 0 <= i < rest.len() implies (#[trigger] rest[i]) is Some by {
                assert(rest[i] == firsts[i]);
            }
            assert(firsts[firsts.len() - 1] is Some);
        }
    }
}

/// Candles are replayed in the order of their times, and those of one time in the
/// order of their instruments.
pub proof fn law_candles_are_replayed_in_order(bars: Seq<BarModel>, i: int, j: int)
    ensures
        ({
            let r = sorted_by(bars, replay_order());
            &&& r.to_multiset() == bars.to_multiset()
            &&& 0 <= i < j < r.len() ==> r[i].ts <= r[j].ts
            &&& 0 <= i < j < r.len() && r[i].ts == r[j].ts ==> !text_before(
                r[j].symbol,
                r[i].symbol,
            )
        }),
{
    let before = replay_order();
    assert forall|a: BarModel, b: BarModel| #[trigger] before(a, b) implies !before(b, a) by {
        lemma_text_order(a.symbol, b.symbol, a.symbol);
    }
    assert forall|a: BarModel, b: BarModel, c: BarModel|
        !(#[trigger] before(b, a)) && !(#[trigger] before(c, b)) implies !before(c, a) by {
        lemma_text_order(a.symbol, b.symbol, c.symbol);
        lemma_text_order(c.symbol, a.symbol, b.symbol);
        lemma_text_order(b.symbol, c.symbol, a.symbol);
        lemma_text_order(c.symbol, b.symbol, a.symbol);
        lemma_text_order(b.symbol, a.symbol, c.symbol);
    }
    law_sorting(bars, before);
    let r = sorted_by(bars, before);
    if 0 <= i < j < r.len() {
        assert(!before(r[j], r[i]));
    }
}

/// The candles gave a reason.
pub open spec fn found(f: AuditFindings, r: SmtInvalidationReason) -> bool {
    (f.history matches Some(list) && list@.contains(r)) || f.c2 == Some(r) || f.chain == Some(r)
}

proof fn lemma_found(f: AuditFindings, r: SmtInvalidationReason)
    ensures
        findings_of(f).contains(r) <==> found(f, r),
{
    let history = match f.history {
        Some(list) => list@,
        None => Seq::empty(),
    };
    let second = optional(f.c2);
    let third = optional(f.chain);
    lemma_either(history + second, third, r);
    lemma_either(history, second, r);
    if f.c2 == Some(r) {
        assert(second[0] == r);
    }
    if f.chain == Some(r) {
        assert(third[0] == r);
    }
}

proof fn lemma_either(
    a: Seq<SmtInvalidationReason>,
    b: Seq<SmtInvalidationReason>,
    r: SmtInvalidationReason,
)
    ensures
        (a + b).contains(r) <==> a.contains(r) || b.contains(r),
{
    if a.contains(r) {
        let k = choose|k: int| 0 <= k < a.len() && a[k] == r;
        assert((a + b)[k] == r);
    }
    if b.contains(r) {
        let k = choose|k: int| 0 <= k < b.len() && b[k] == r;
        assert((a + b)[a.len() + k] == r);
    }
}

proof fn lemma_some_reason(list: Seq<SmtInvalidationReason>)
    ensures
        list.len() > 0 <==> exists|r: SmtInvalidationReason| #[trigger] list.contains(r),
{
    if list.len() > 0 {
        assert(list.contains(list[0]));
    }
}

/// An ended row without a reason is given exactly the reasons that the candles
/// found, and any other row none.
pub proof fn law_missing_reasons_are_filled_in(
    row: SmtModel,
    f: AuditFindings,
    r: SmtInvalidationReason,
)
    ensures
        backfilled(row, f) matches Some(list) ==> (list.contains(r) <==> found(f, r)) && list.len()
            > 0 && row.invalidation_reasons.len() == 0 && stands(
            row,
            SmtDetectionState::Invalidated,
        ),
        found(f, r) && row.invalidation_reasons.len() == 0 && (exists|i: int| #[trigger]
            chain_at(row.chains, row.sweeper_symbol, i) && row.chains[i].detection_state
                is Invalidated) ==> backfilled(row, f) is Some,
{
    let list = in_order(findings_of(f));
    law_reasons_are_kept_once(findings_of(f));
    lemma_found(f, r);
    lemma_some_reason(list);
    lemma_stands(row);
    assert(list.contains(r) == findings_of(f).contains(r));
    assert forall|i: int| #[trigger]
        chain_at(row.chains, row.sweeper_symbol, i) implies first_chain(
        row.chains,
        row.sweeper_symbol,
    ) == Some(row.chains[i]) by {
        lemma_chain_at(row.chains, row.sweeper_symbol, i);
    }
}

/// A rewritten row keeps its old reasons beside the new ones, and stands on the
/// canonical evidence.
pub proof fn law_rewritten_rows_keep_their_reasons(
    row: SmtModel,
    f: AuditFindings,
    evidence: Option<SmtModel>,
    r: SmtInvalidationReason,
)
    ensures
        rewritten(row, f, evidence) matches Some(x) ==> evidence == Some(x.snapshot) && (
        x.reasons.contains(r) <==> row.invalidation_reasons.contains(r) || found(f, r)),
        evidence is None ==> rewritten(row, f, evidence) is None,
        evidence is Some && (row.invalidation_reasons.contains(r) || found(f, r)) && (exists|i: int|
         #[trigger]
            chain_at(row.chains, row.sweeper_symbol, i) && row.chains[i].detection_state
                is Invalidated) ==> rewritten(row, f, evidence) is Some,
{
    let all = row.invalidation_reasons + findings_of(f);
    let list = in_order(all);
    law_reasons_are_kept_once(all);
    lemma_found(f, r);
    lemma_either(row.invalidation_reasons, findings_of(f), r);
    lemma_some_reason(list);
    assert(list.contains(r) == all.contains(r));
    assert forall|i: int| #[trigger]
        chain_at(row.chains, row.sweeper_symbol, i) implies first_chain(
        row.chains,
        row.sweeper_symbol,
    ) == Some(row.chains[i]) by {
        lemma_chain_at(row.chains, row.sweeper_symbol, i);
    }
}

/// A live divergence is ended for what its history or its chain shows, never for
/// its second candle, which the detector watches.
pub proof fn law_live_divergences_are_audited(
    live: SmtModel,
    f: AuditFindings,
    evidence: Option<SmtModel>,
    r: SmtInvalidationReason,
)
    ensures
        audited(live, f, evidence) matches Some(x) ==> (x.reasons.contains(r) <==> (
        f.history matches Some(list) && list@.contains(r)) || f.chain == Some(r)) && x.snapshot == (
        match evidence {
            Some(s) => s,
            None => live,
        }) && x.reasons.len() > 0,
        (f.history matches Some(list) && list@.contains(r)) || f.chain == Some(r) ==> audited(
            live,
            f,
            evidence,
        ) is Some,
{
    let g = live_findings(f);
    let list = in_order(findings_of(g));
    law_reasons_are_kept_once(findings_of(g));
    lemma_found(g, r);
    lemma_some_reason(list);
    assert(list.contains(r) == findings_of(g).contains(r));
}

/// Stored rows that are not live are those whose identity no live divergence has.
pub proof fn law_unknown_rows_are_not_live(stored: Seq<SmtModel>, live: Seq<SmtModel>, x: SmtModel)
    ensures
        unknown_rows(stored, live).contains(x) <==> stored.contains(x) && forall|j: int|
            0 <= j < live.len() ==> (#[trigger] live[j]).id != x.id,
    decreases stored.len(),
{
    if stored.len() > 0 {
        let rest = stored.drop_last();
        law_unknown_rows_are_not_live(rest, live, x);
        lemma_push_contains(rest, stored.last(), x);
        lemma_push_contains(unknown_rows(rest, live), stored.last(), x);
        assert(rest.push(stored.last()) =~= stored);
        let i = lemma_last_smt(live, stored.last().id);
    }
}

/// The first divergence of an identity is the one that is shown in detail.
pub proof fn law_details_are_those_of_the_first_row(rows: Seq<SmtModel>, id: Seq<char>, i: int)
    ensures
        0 <= i < rows.len() && rows[i].id == id && (forall|j: int|
            0 <= j < i ==> (#[trigger] rows[j]).id != id) ==> first_smt(rows, id) == Some(rows[i]),
        (forall|j: int| 0 <= j < rows.len() ==> (#[trigger] rows[j]).id != id) ==> first_smt(rows, id)
            is None,
    decreases rows.len(),
{
    if rows.len() > 0 && rows[0].id != id {
        let rest = rows.drop_first();
        law_details_are_those_of_the_first_row(rest, id, i - 1);
        assert forall|j: int| 0 < j < rows.len() implies #[trigger] rows[j] == rest[j - 1] by {
        }
        if 0 <= i < rows.len() && rows[i].id == id && (forall|j: int|
            0 <= j < i ==> (#[trigger] rows[j]).id != id) {
            assert(rest[i - 1] == rows[i]);
            assert forall|j: int| 0 <= j < i - 1 implies (#[trigger] rest[j]).id != id by {
                assert(rest[j] == rows[j + 1]);
            }
        }
        if forall|j: int| 0 <= j < rows.len() ==> (#[trigger] rows[j]).id != id {
            assert forall|j: int| 0 <= j < rest.len() implies (#[trigger] rest[j]).id != id by {
                assert(rest[j] == rows[j + 1]);
            }
        }
    }
}

/// Half hours and hours are always replayed with fifteen hundred candles, hours from
/// where the half hours start; four hours only where they are covered, with eleven
/// hundred, from where the hours start.
pub proof fn law_replays_go_from_fine_to_coarse(covered: bool, m30: Option<i64>, h1: Option<i64>)
    ensures
        ({
            let all = passes(covered, m30, h1);
            &&& all.len() == if covered {
                3nat
            } else {
                2
            }
            &&& all[0].tf is M30 && all[0].load_limit == 1_500 && all[0].event_start is None
            &&& all[1].tf is H1 && all[1].load_limit == 1_500 && all[1].event_start == m30
            &&& covered ==> all[2].tf is H4 && all[2].load_limit == 1_100 && all[2].event_start == h1
        }),
{
}

/// A replay feeds every pass in order, mends stored rows where the group is known,
/// then audits, and draws last.
pub proof fn law_a_replay_mends_before_it_audits(planned: Seq<ReplayPass>, grouped: bool, i: int)
    ensures
        ({
            let all = replay_plan(planned, grouped);
            let n = planned.len() as int;
            &&& 0 <= i < n ==> all[i] == ReplayTask::Feed(planned[i])
            &&& grouped ==> all.len() == n + 5 && all[n] is RepairChains && all[n + 1]
                is BackfillReasons && all[n + 2] is RewriteEnded && all[n + 3] is AuditLive && all[n
                + 4] is Redraw
            &&& !grouped ==> all.len() == n + 2 && all[n] is AuditLive && all[n + 1] is Redraw
        }),
{
}

/// Every candle of a history is either context or emits, and only those before the
/// start are context.
pub proof fn law_candles_are_context_or_emit(
    histories: Seq<Seq<BarModel>>,
    event_start: Option<i64>,
    limit: int,
    h: int,
    i: int,
)
    requires
        limit >= 0,
        0 <= h < histories.len(),
        0 <= i < histories[h].len(),
    ensures
        i < detection_start(histories[h], event_start, limit) ==> context_of(
            histories,
            event_start,
            limit,
        ).contains(histories[h][i]),
        i >= detection_start(histories[h], event_start, limit) ==> emitting(
            histories,
            event_start,
            limit,
        ).contains(histories[h][i]),
    decreases histories.len(),
{
    let rest = histories.drop_last();
    let last = histories.last();
    let n = detection_start(last, event_start, limit);
    law_context_never_emits(last, event_start, limit);
    let x = histories[h][i];
    let a = context_of(rest, event_start, limit);
    let b = emitting(rest, event_start, limit);
    if h < rest.len() {
        assert(rest[h] == histories[h]);
        law_candles_are_context_or_emit(rest, event_start, limit, h, i);
        if a.contains(x) {
            let k = choose|k: int| 0 <= k < a.len() && a[k] == x;
            assert((a + last.take(n))[k] == x);
        }
        if b.contains(x) {
            let k = choose|k: int| 0 <= k < b.len() && b[k] == x;
            assert((b + last.skip(n))[k] == x);
        }
    } else if i < n {
        assert((a + last.take(n))[a.len() + i] == x);
    } else {
        assert((b + last.skip(n))[b.len() + i - n] == x);
    }
}

} // verus!
