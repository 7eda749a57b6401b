//! Which divergence attempts are shown: one per episode, the one that came
//! furthest.
use vstd::prelude::*;
use crate::alert::records::{direction_text, direction_words};
use crate::candidate::rules::{
    sweeper_chain, sweeper_chain_of, sweeper_detection_state, sweeper_state_of,
};
use crate::detector::{LiquidityRef, LiquidityRefModel, SmtDetectionState, SmtDivergence, SmtModel};
use crate::sorting::{sorted_by, stable_sort};
use crate::text::{decimal, owned, push_decimal, text_eq};
use crate::types::tag_text;

verus! {

/// First liquidity reference of an instrument.
pub open spec fn first_reference(refs: Seq<LiquidityRefModel>, symbol: Seq<char>) -> Option<
    LiquidityRefModel,
>
    decreases refs.len(),
{
    if refs.len() == 0 {
        None
    } else if refs[0].symbol == symbol {
        Some(refs[0])
    } else {
        first_reference(refs.drop_first(), symbol)
    }
}

fn find_reference<'a>(refs: &'a Vec<LiquidityRef>, symbol: &str) -> (r: Option<&'a LiquidityRef>)
    ensures
        r.deep_view() == first_reference(refs.deep_view(), symbol@),
{
    let mut i: usize = 0;
    assert(refs.deep_view().skip(0) =~= refs.deep_view());
    while i < refs.len()
        invariant
            i <= refs.len(),
            first_reference(refs.deep_view(), symbol@) == first_reference(
                refs.deep_view().skip(i as int),
                symbol@,
            ),
        decreases refs.len() - i,
    {
        assert(refs.deep_view().skip(i as int)[0] == refs@[i as int]@);
        if text_eq(refs[i].symbol.as_str(), symbol) {
            return Some(&refs[i]);
        }
        assert(refs.deep_view().skip(i as int).drop_first() =~= refs.deep_view().skip(i + 1));
        i += 1;
    }
    None
}

/// Time of the reference that the sweeper took.
pub open spec fn reference_ts(smt: SmtModel) -> i64 {
    match first_reference(smt.liquidity_refs, smt.sweeper_symbol) {
        Some(reference) => reference.ref_ts,
        None => smt.observation_window.0,
    }
}

/// Identity of an episode: retries of one episode differ in their own identity
/// but share the price area and the reference.
pub open spec fn episode_key(smt: SmtModel) -> Seq<char> {
    smt.watchlist_id + "|"@ + smt.sweeper_symbol + "|"@ + tag_text(smt.context_timeframe) + "|"@
        + tag_text(smt.comparison_timeframe) + "|"@ + direction_words(smt.candidate_direction)
        + "|"@ + match smt.htf_pda_ref {
        Some(pda) => pda.id,
        None => "no-pda"@,
    } + "|"@ + decimal(reference_ts(smt) as int)
}

/// Builds the identity of an episode.
pub fn smt_episode_key(smt: &SmtDivergence) -> (r: String)
    ensures
        r@ == episode_key(smt@),
{
    let ts: i64 = match find_reference(&smt.liquidity_refs, smt.sweeper_symbol.as_str()) {
        Some(reference) => reference.ref_ts,
        None => smt.observation_window.0,
    };
    let mut out = owned(smt.watchlist_id.as_str());
    out.append("|");
    out.append(smt.sweeper_symbol.as_str());
    out.append("|");
    out.append(smt.context_timeframe.tag());
    out.append("|");
    out.append(smt.comparison_timeframe.tag());
    out.append("|");
    out.append(direction_text(smt.candidate_direction));
    out.append("|");
    match &smt.htf_pda_ref {
        Some(pda) => {
            out.append(pda.id.as_str());
        },
        None => {
            out.append("no-pda");
        },
    }
    out.append("|");
    push_decimal(&mut out, ts);
    out
}

/// State of the sweeper; without its chain the attempt counts as ended.
pub open spec fn state_of(smt: SmtModel) -> SmtDetectionState {
    match sweeper_state_of(smt) {
        Some(s) => s,
        None => SmtDetectionState::Invalidated,
    }
}

/// The state of the sweeper.
pub fn sweeper_state(smt: &SmtDivergence) -> (r: SmtDetectionState)
    ensures
        r == state_of(smt@),
{
    match sweeper_detection_state(smt) {
        Some(s) => s,
        None => SmtDetectionState::Invalidated,
    }
}

/// The attempt is shown: it follows the current rules, it has a price area,
/// and it did not end before its parent candle confirmed it.
pub open spec fn is_public(smt: SmtModel, rule: Seq<char>) -> bool {
    &&& smt.rule_version == rule
    &&& smt.htf_pda_ref is Some
    &&& !(state_of(smt) is Invalidated && !smt.htf_confirmed)
}

/// Whether an attempt is shown under the rules named `rule`.
pub fn public_smt_attempt(smt: &SmtDivergence, rule: &str) -> (r: bool)
    ensures
        r == is_public(smt@, rule@),
{
    if !text_eq(smt.rule_version.as_str(), rule) || smt.htf_pda_ref.is_none() {
        return false;
    }
    !(sweeper_state(smt) == SmtDetectionState::Invalidated && !smt.htf_confirmed)
}

/// How far a state is.
pub open spec fn state_rank(s: SmtDetectionState) -> u8 {
    match s {
        SmtDetectionState::C3Entry => 4,
        SmtDetectionState::C2Confirmed => 3,
        SmtDetectionState::SmtKDetected => 2,
        SmtDetectionState::Invalidated => 1,
    }
}

/// How an attempt ranks inside its episode: by its state, then by the
/// confirmation of its parent, then by the time of its first candle.
pub open spec fn rank_of(smt: SmtModel) -> (u8, u8, i64) {
    (
        state_rank(state_of(smt)),
        if smt.htf_confirmed {
            1u8
        } else {
            0u8
        },
        match sweeper_chain_of(smt) {
            Some(chain) => chain.smt_k_candle.ts,
            None => i64::MIN,
        },
    )
}

/// How an attempt ranks inside its episode.
pub fn smt_attempt_rank(smt: &SmtDivergence) -> (r: (u8, u8, i64))
    ensures
        r == rank_of(smt@),
{
    let state: u8 = match sweeper_state(smt) {
        SmtDetectionState::C3Entry => 4,
        SmtDetectionState::C2Confirmed => 3,
        SmtDetectionState::SmtKDetected => 2,
        SmtDetectionState::Invalidated => 1,
    };
    let confirmed: u8 = if smt.htf_confirmed {
        1
    } else {
        0
    };
    let ts: i64 = match sweeper_chain(smt) {
        Some(chain) => chain.smt_k_candle.ts,
        None => i64::MIN,
    };
    (state, confirmed, ts)
}

/// One rank is above another.
pub open spec fn above(a: (u8, u8, i64), b: (u8, u8, i64)) -> bool {
    a.0 > b.0 || (a.0 == b.0 && (a.1 > b.1 || (a.1 == b.1 && a.2 > b.2)))
}

fn is_above(a: (u8, u8, i64), b: (u8, u8, i64)) -> (r: bool)
    ensures
        r == above(a, b),
{
    a.0 > b.0 || (a.0 == b.0 && (a.1 > b.1 || (a.1 == b.1 && a.2 > b.2)))
}

/// Where an episode is held, or the length where it is not.
pub open spec fn episode_at(held: Seq<SmtModel>, key: Seq<char>) -> int
    decreases held.len(),
{
    if held.len() == 0 {
        0
    } else if episode_key(held[0]) == key {
        0
    } else {
        1 + episode_at(held.drop_first(), key)
    }
}

proof fn lemma_episode_at(held: Seq<SmtModel>, key: Seq<char>, n: int)
    requires
        0 <= n <= held.len(),
        forall|k: int| 0 <= k < n ==> episode_key(#[trigger] held[k]) != key,
        n < held.len() ==> episode_key(held[n]) == key,
    ensures
        episode_at(held, key) == n,
    decreases held.len(),
{
    if n > 0 {
        let tail = held.drop_first();
        assert(episode_key(held[0]) != key);
        assert forall|k: int| 0 <= k < n - 1 implies episode_key(#[trigger] tail[k]) != key by {
            assert(tail[k] == held[k + 1]);
        }
        lemma_episode_at(tail, key, n - 1);
    }
}

proof fn lemma_episode_found(held: Seq<SmtModel>, key: Seq<char>)
    ensures
        0 <= episode_at(held, key) <= held.len(),
        episode_at(held, key) < held.len() ==> episode_key(held[episode_at(held, key)]) == key,
        forall|k: int|
            0 <= k < episode_at(held, key) ==> episode_key(#[trigger] held[k]) != key,
    decreases held.len(),
{
    if held.len() > 0 && episode_key(held[0]) != key {
        let tail = held.drop_first();
        lemma_episode_found(tail, key);
        let n = episode_at(held, key);
        assert forall|k: int| 0 <= k < n implies episode_key(#[trigger] held[k]) != key by {
            if k > 0 {
                assert(tail[k - 1] == held[k]);
            }
        }
    }
}

/// The held attempts after another one: it takes the place of a lower one of
/// its episode.
pub open spec fn taken_in(held: Seq<SmtModel>, smt: SmtModel) -> Seq<SmtModel> {
    let at = episode_at(held, episode_key(smt));
    if at == held.len() {
        held.push(smt)
    } else if above(rank_of(smt), rank_of(held[at])) {
        held.update(at, smt)
    } else {
        held
    }
}

/// One attempt per episode, the highest, and the first of equally high ones.
pub open spec fn canonical(smts: Seq<SmtModel>, rule: Seq<char>) -> Seq<SmtModel>
    decreases smts.len(),
{
    if smts.len() == 0 {
        Seq::empty()
    } else {
        let rest = canonical(smts.drop_last(), rule);
        if is_public(smts.last(), rule) {
            taken_in(rest, smts.last())
        } else {
            rest
        }
    }
}

fn take_in(held: &mut Vec<SmtDivergence>, smt: &SmtDivergence)
    ensures
        final(held).deep_view() == taken_in(old(held).deep_view(), smt@),
{
    let key = smt_episode_key(smt);
    let ghost before = held.deep_view();
    let mut at: usize = 0;
    while at < held.len()
        invariant
            before == held.deep_view(),
            before == old(held).deep_view(),
            key@ == episode_key(smt@),
            at <= held.len(),
            forall|k: int| 0 <= k < at ==> episode_key(#[trigger] before[k]) != key@,
        decreases held.len() - at,
    {
        assert(before[at as int] == held@[at as int]@);
        let other = smt_episode_key(&held[at]);
        if text_eq(other.as_str(), key.as_str()) {
            proof {
                lemma_episode_at(before, key@, at as int);
            }
            if is_above(smt_attempt_rank(smt), smt_attempt_rank(&held[at])) {
                held.set(at, smt.clone());
                assert(held.deep_view() =~= before.update(at as int, smt@));
            }
            return;
        }
        at += 1;
    }
    proof {
        lemma_episode_at(before, key@, at as int);
    }
    held.push(smt.clone());
    assert(held.deep_view() =~= before.push(smt@));
}

/// Keeps one attempt per episode.
pub fn canonical_public_smts(smts: &Vec<SmtDivergence>, rule: &str) -> (r: Vec<SmtDivergence>)
    ensures
        r.deep_view() == canonical(smts.deep_view(), rule@),
{
    let mut held: Vec<SmtDivergence> = Vec::new();
    let mut i: usize = 0;
    assert(held.deep_view() =~= Seq::<SmtModel>::empty());
    while i < smts.len()
        invariant
            i <= smts.len(),
            held.deep_view() == canonical(smts.deep_view().take(i as int), rule@),
        decreases smts.len() - i,
    {
        proof {
            let now = smts.deep_view().take(i + 1);
            assert(now.drop_last() =~= smts.deep_view().take(i as int));
            assert(now.last() == smts@[i as int]@);
        }
        if public_smt_attempt(&smts[i], rule) {
            take_in(&mut held, &smts[i]);
        }
        i += 1;
    }
    assert(smts.deep_view().take(i as int) =~= smts.deep_view());
    held
}

/// Last divergence with an identity.
pub open spec fn last_smt(list: Seq<SmtModel>, id: Seq<char>) -> Option<SmtModel>
    decreases list.len(),
{
    if list.len() == 0 {
        None
    } else if list.last().id == id {
        Some(list.last())
    } else {
        last_smt(list.drop_last(), id)
    }
}

/// Finds the last divergence with an identity.
pub fn find_last_smt<'a>(list: &'a Vec<SmtDivergence>, id: &str) -> (r: Option<&'a SmtDivergence>)
    ensures
        r.deep_view() == last_smt(list.deep_view(), id@),
{
    let mut i: usize = list.len();
    assert(list.deep_view().take(i as int) =~= list.deep_view());
    while i > 0
        invariant
            i <= list.len(),
            last_smt(list.deep_view(), id@) == last_smt(list.deep_view().take(i as int), id@),
        decreases i,
    {
        let ghost now = list.deep_view().take(i as int);
        i -= 1;
        proof {
            assert(now.last() == list@[i as int]@);
            assert(now.drop_last() =~= list.deep_view().take(i as int));
        }
        if text_eq(list[i].id.as_str(), id) {
            return Some(&list[i]);
        }
    }
    None
}

/// A chain of the sweeper has ended.
pub open spec fn sweeper_ended(smt: SmtModel) -> bool {
    exists|i: int|
        0 <= i < smt.chains.len() && (#[trigger] smt.chains[i]).symbol == smt.sweeper_symbol
            && smt.chains[i].detection_state is Invalidated
}

fn has_sweeper_ended(smt: &SmtDivergence) -> (r: bool)
    ensures
        r == sweeper_ended(smt@),
{
    let mut i: usize = 0;
    while i < smt.chains.len()
        invariant
            i <= smt.chains.len(),
            forall|k: int|
                0 <= k < i ==> !((#[trigger] smt@.chains[k]).symbol == smt@.sweeper_symbol
                    && smt@.chains[k].detection_state is Invalidated),
        decreases smt.chains.len() - i,
    {
        assert(smt@.chains[i as int] == smt.chains@[i as int]@);
        if text_eq(smt.chains[i].symbol.as_str(), smt.sweeper_symbol.as_str())
            && smt.chains[i].detection_state == SmtDetectionState::Invalidated {
            return true;
        }
        i += 1;
    }
    false
}

/// A live divergence completed from its stored row: an ended row wins, and
/// otherwise only what is missing is taken from it.
pub open spec fn completed(live: SmtModel, row: Option<SmtModel>) -> SmtModel {
    match row {
        None => live,
        Some(row) => if sweeper_ended(row) {
            row
        } else {
            SmtModel {
                htf_pda_ref: if live.htf_pda_ref is None {
                    row.htf_pda_ref
                } else {
                    live.htf_pda_ref
                },
                mtf_ref_candle: if live.mtf_ref_candle is None {
                    row.mtf_ref_candle
                } else {
                    live.mtf_ref_candle
                },
                ..live
            }
        },
    }
}

fn complete(live: &SmtDivergence, row: Option<&SmtDivergence>) -> (r: SmtDivergence)
    ensures
        r@ == completed(
            live@,
            match row {
                Some(d) => Some(d@),
                None => None,
            },
        ),
{
    match row {
        None => live.clone(),
        Some(row) => {
            if has_sweeper_ended(row) {
                return row.clone();
            }
            let mut out = live.clone();
            if live.htf_pda_ref.is_none() {
                out.htf_pda_ref = row.htf_pda_ref.clone();
            }
            if live.mtf_ref_candle.is_none() {
                out.mtf_ref_candle = row.mtf_ref_candle;
            }
            out
        },
    }
}

/// Live divergences completed from their stored rows.
pub open spec fn all_completed(live: Seq<SmtModel>, rows: Seq<SmtModel>) -> Seq<SmtModel> {
    Seq::new(live.len(), |i: int| completed(live[i], last_smt(rows, live[i].id)))
}

/// Stored rows that have no live divergence, each identity once in its last
/// version.
pub open spec fn stored_only(rows: Seq<SmtModel>, live: Seq<SmtModel>) -> Seq<SmtModel>
    decreases rows.len(),
{
    if rows.len() == 0 {
        Seq::empty()
    } else {
        let tail = rows.drop_first();
        if last_smt(tail, rows[0].id) is Some || last_smt(live, rows[0].id) is Some {
            stored_only(tail, live)
        } else {
            seq![rows[0]] + stored_only(tail, live)
        }
    }
}

/// All divergences of a group, live and stored.
pub open spec fn group_smts(live: Seq<SmtModel>, rows: Seq<SmtModel>) -> Seq<SmtModel> {
    all_completed(live, rows) + stored_only(rows, live)
}

fn occurs_later(rows: &Vec<SmtDivergence>, from: usize, id: &str) -> (r: bool)
    requires
        from <= rows.len(),
    ensures
        r == (last_smt(rows.deep_view().skip(from as int), id@) is Some),
{
    let mut i: usize = rows.len();
    let ghost tail = rows.deep_view().skip(from as int);
    assert(tail.take(i - from) =~= tail);
    while i > from
        invariant
            from <= i <= rows.len(),
            tail == rows.deep_view().skip(from as int),
            last_smt(tail, id@) == last_smt(tail.take(i - from), id@),
        decreases i,
    {
        let ghost now = tail.take(i - from);
        i -= 1;
        proof {
            assert(now.last() == rows@[i as int]@);
            assert(now.drop_last() =~= tail.take(i - from));
        }
        if text_eq(rows[i].id.as_str(), id) {
            return true;
        }
    }
    false
}

/// Collects the divergences of a group.
pub fn all_group_smts(live: &Vec<SmtDivergence>, rows: &Vec<SmtDivergence>) -> (r: Vec<
    SmtDivergence,
>)
    ensures
        r.deep_view() == group_smts(live.deep_view(), rows.deep_view()),
{
    let mut out: Vec<SmtDivergence> = Vec::new();
    let mut i: usize = 0;
    let ghost done = all_completed(live.deep_view(), rows.deep_view());
    assert(out.deep_view() =~= done.take(0));
    while i < live.len()
        invariant
            i <= live.len(),
            done == all_completed(live.deep_view(), rows.deep_view()),
            out.deep_view() == done.take(i as int),
        decreases live.len() - i,
    {
        let ghost before = out.deep_view();
        assert(live.deep_view()[i as int] == live@[i as int]@);
        let row = find_last_smt(rows, live[i].id.as_str());
        let one = complete(&live[i], row);
        assert(one@ == done[i as int]);
        out.push(one);
        assert(out.deep_view() =~= before.push(done[i as int]));
        assert(out.deep_view() =~= done.take(i + 1));
        i += 1;
    }
    assert(out.deep_view() =~= done);
    let mut j: usize = 0;
    let ghost goal = group_smts(live.deep_view(), rows.deep_view());
    assert(rows.deep_view().skip(0) =~= rows.deep_view());
    while j < rows.len()
        invariant
            j <= rows.len(),
            goal == group_smts(live.deep_view(), rows.deep_view()),
            goal == out.deep_view() + stored_only(
                rows.deep_view().skip(j as int),
                live.deep_view(),
            ),
        decreases rows.len() - j,
    {
        let ghost before = out.deep_view();
        let ghost rest = rows.deep_view().skip(j as int);
        proof {
            assert(rest[0] == rows@[j as int]@);
            assert(rest.drop_first() =~= rows.deep_view().skip(j + 1));
        }
        let id = rows[j].id.as_str();
        let later = occurs_later(rows, j + 1, id);
        if !later && find_last_smt(live, id).is_none() {
            out.push(rows[j].clone());
            assert(out.deep_view() =~= before.push(rest[0]));
            assert(goal =~= out.deep_view() + stored_only(
                rows.deep_view().skip(j + 1),
                live.deep_view(),
            ));
        }
        j += 1;
    }
    assert(goal =~= out.deep_view());
    out
}

/// What is shown of a group.
pub fn public_smts_for_group(
    live: &Vec<SmtDivergence>,
    rows: &Vec<SmtDivergence>,
    rule: &str,
) -> (r: Vec<SmtDivergence>)
    ensures
        r.deep_view() == canonical(group_smts(live.deep_view(), rows.deep_view()), rule@),
{
    canonical_public_smts(&all_group_smts(live, rows), rule)
}

/// A divergence whose window ends later comes first.
pub open spec fn later_window() -> spec_fn(SmtModel, SmtModel) -> bool {
    |a: SmtModel, b: SmtModel| a.observation_window.1 > b.observation_window.1
}

/// Orders the shown divergences of all selected groups, latest first.
pub fn list_smt(shown: Vec<SmtDivergence>) -> (r: Vec<SmtDivergence>)
    ensures
        r.deep_view() == sorted_by(shown.deep_view(), later_window()),
{
    let comes_before = |a: &SmtDivergence, b: &SmtDivergence| -> (r: bool)
        ensures
            r == (a@.observation_window.1 > b@.observation_window.1),
        { a.observation_window.1 > b.observation_window.1 };
    stable_sort(shown, comes_before, Ghost(later_window()))
}

/// First divergence with an identity.
pub open spec fn first_smt(list: Seq<SmtModel>, id: Seq<char>) -> Option<SmtModel>
    decreases list.len(),
{
    if list.len() == 0 {
        None
    } else if list[0].id == id {
        Some(list[0])
    } else {
        first_smt(list.drop_first(), id)
    }
}

/// Finds one stored divergence, shown or not.
pub fn get_smt_snapshot(rows: &Vec<SmtDivergence>, smt_id: &str) -> (r: Option<SmtDivergence>)
    ensures
        r.deep_view() == first_smt(rows.deep_view(), smt_id@),
{
    let mut i: usize = 0;
    assert(rows.deep_view().skip(0) =~= rows.deep_view());
    while i < rows.len()
        invariant
            i <= rows.len(),
            first_smt(rows.deep_view(), smt_id@) == first_smt(
                rows.deep_view().skip(i as int),
                smt_id@,
            ),
        decreases rows.len() - i,
    {
        assert(rows.deep_view().skip(i as int)[0] == rows@[i as int]@);
        assert(rows.deep_view().skip(i as int).drop_first() =~= rows.deep_view().skip(i + 1));
        if text_eq(rows[i].id.as_str(), smt_id) {
            return Some(rows[i].clone());
        }
        i += 1;
    }
    None
}

/// Every two shown attempts belong to different episodes.
pub open spec fn distinct_episodes(held: Seq<SmtModel>) -> bool {
    forall|i: int, j: int|
        0 <= i < j < held.len() ==> episode_key(#[trigger] held[i]) != episode_key(
            #[trigger] held[j],
        )
}

proof fn lemma_taken_in(held: Seq<SmtModel>, smt: SmtModel)
    requires
        distinct_episodes(held),
    ensures
        distinct_episodes(taken_in(held, smt)),
        held.len() <= taken_in(held, smt).len(),
        forall|i: int|
            0 <= i < held.len() ==> episode_key(#[trigger] taken_in(held, smt)[i]) == episode_key(
                held[i],
            ) && !above(rank_of(held[i]), rank_of(taken_in(held, smt)[i])),
        exists|i: int|
            0 <= i < taken_in(held, smt).len() && episode_key(#[trigger] taken_in(held, smt)[i])
                == episode_key(smt) && !above(rank_of(smt), rank_of(taken_in(held, smt)[i])),
{
    let key = episode_key(smt);
    lemma_episode_found(held, key);
    let at = episode_at(held, key);
    let now = taken_in(held, smt);
    assert(episode_key(now[at]) == key && !above(rank_of(smt), rank_of(now[at])));
    assert forall|i: int, j: int| 0 <= i < j < now.len() implies episode_key(#[trigger] now[i])
        != episode_key(#[trigger] now[j]) by {
        if j < held.len() {
            assert(episode_key(held[i]) != episode_key(held[j]));
        }
    }
}

/// Every public attempt is represented by one of its episode that ranks at
/// least as high, and no episode is shown twice.
pub proof fn law_each_episode_shows_its_best_attempt(smts: Seq<SmtModel>, rule: Seq<char>)
    ensures
        distinct_episodes(canonical(smts, rule)),
        forall|k: int|
            0 <= k < smts.len() && is_public(#[trigger] smts[k], rule) ==> exists|i: int|
                0 <= i < canonical(smts, rule).len() && episode_key(
                    #[trigger] canonical(smts, rule)[i],
                ) == episode_key(smts[k]) && !above(
                    rank_of(smts[k]),
                    rank_of(canonical(smts, rule)[i]),
                ),
    decreases smts.len(),
{
    if smts.len() > 0 {
        let rest = smts.drop_last();
        let held = canonical(rest, rule);
        let now = canonical(smts, rule);
        law_each_episode_shows_its_best_attempt(rest, rule);
        lemma_taken_in(held, smts.last());
        assert forall|k: int|
            0 <= k < smts.len() && is_public(#[trigger] smts[k], rule) implies exists|i: int|
            0 <= i < now.len() && episode_key(#[trigger] now[i]) == episode_key(smts[k]) && !above(
                rank_of(smts[k]),
                rank_of(now[i]),
            ) by {
            if k < rest.len() {
                assert(rest[k] == smts[k]);
                let i = choose|i: int|
                    0 <= i < held.len() && episode_key(#[trigger] held[i]) == episode_key(rest[k])
                        && !above(rank_of(rest[k]), rank_of(held[i]));
                assert(episode_key(now[i]) == episode_key(smts[k]));
                assert(!above(rank_of(held[i]), rank_of(now[i])));
            }
        }
    }
}

/// Whatever is shown is a public attempt that was there.
pub proof fn law_only_public_attempts_are_shown(smts: Seq<SmtModel>, rule: Seq<char>)
    ensures
        forall|i: int|
            0 <= i < canonical(smts, rule).len() ==> is_public(
                #[trigger] canonical(smts, rule)[i],
                rule,
            ) && smts.contains(canonical(smts, rule)[i]),
    decreases smts.len(),
{
    if smts.len() > 0 {
        let rest = smts.drop_last();
        let held = canonical(rest, rule);
        let now = canonical(smts, rule);
        law_only_public_attempts_are_shown(rest, rule);
        lemma_episode_found(held, episode_key(smts.last()));
        assert forall|i: int| 0 <= i < now.len() implies is_public(#[trigger] now[i], rule)
            && smts.contains(now[i]) by {
            if i < held.len() && now[i] == held[i] {
                assert(rest.contains(held[i]));
                let k = choose|k: int| 0 <= k < rest.len() && rest[k] == held[i];
                assert(smts[k] == now[i]);
            } else {
                assert(now[i] == smts.last());
                assert(smts[smts.len() - 1] == now[i]);
            }
        }
    }
}

} // verus!
