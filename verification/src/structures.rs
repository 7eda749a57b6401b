//! The structures that a chart draws: detected ones, stored ones while the
//! detectors are busy, and the divergences of the selected groups.
use vstd::prelude::*;
use crate::candidate::rules::{sweeper_detection_state, sweeper_state_of};
use crate::detector::{
    Fvg, FvgModel, IctStructure, IctStructureModel, SmtDetectionState, SmtDivergence, SmtModel,
};
use crate::text::text_eq;
use crate::types::Timeframe;

verus! {

/// Identity of a structure.
pub open spec fn id_of(s: IctStructureModel) -> Seq<char> {
    match s {
        IctStructureModel::Cisd(x) => x.id,
        IctStructureModel::Mss(x) => x.id,
        IctStructureModel::Fvg(x) => x.id,
        IctStructureModel::SessionRange(x) => x.id,
        IctStructureModel::Pdh(x) => x.id,
        IctStructureModel::Pdl(x) => x.id,
        IctStructureModel::SmtDivergence(x) => x.id,
        IctStructureModel::Other(x) => x.id,
    }
}

impl IctStructure {
    /// Identity of the structure.
    pub fn id(&self) -> (r: &str)
        ensures
            r@ == id_of(self@),
    {
        match self {
            IctStructure::Cisd(x) => x.id.as_str(),
            IctStructure::Mss(x) => x.id.as_str(),
            IctStructure::Fvg(x) => x.id.as_str(),
            IctStructure::SessionRange(x) => x.id.as_str(),
            IctStructure::Pdh(x) => x.id.as_str(),
            IctStructure::Pdl(x) => x.id.as_str(),
            IctStructure::SmtDivergence(x) => x.id.as_str(),
            IctStructure::Other(x) => x.id.as_str(),
        }
    }
}

/// The divergence is drawn on a pane: the pane shows its comparison or its
/// context period, and one of its chains is on the instrument.
pub open spec fn drawn_on(smt: SmtModel, symbol: Seq<char>, tf: Timeframe) -> bool {
    (smt.comparison_timeframe == tf || smt.context_timeframe == tf) && exists|i: int|
        0 <= i < smt.chains.len() && (#[trigger] smt.chains[i]).symbol == symbol
}

/// Whether a divergence is drawn on a pane.
pub fn is_drawn_on(smt: &SmtDivergence, symbol: &str, tf: Timeframe) -> (r: bool)
    ensures
        r == drawn_on(smt@, symbol@, tf),
{
    if smt.comparison_timeframe != tf && smt.context_timeframe != tf {
        return false;
    }
    let mut i: usize = 0;
    while i < smt.chains.len()
        invariant
            i <= smt.chains.len(),
            smt.comparison_timeframe == tf || smt.context_timeframe == tf,
            forall|k: int| 0 <= k < i ==> (#[trigger] smt@.chains[k]).symbol != symbol@,
        decreases smt.chains.len() - i,
    {
        assert(smt@.chains[i as int] == smt.chains@[i as int]@);
        if text_eq(smt.chains[i].symbol.as_str(), symbol) {
            return true;
        }
        i += 1;
    }
    false
}

/// The divergences that a pane draws.
pub open spec fn drawn(smts: Seq<SmtModel>, symbol: Seq<char>, tf: Timeframe) -> Seq<
    IctStructureModel,
>
    decreases smts.len(),
{
    if smts.len() == 0 {
        Seq::empty()
    } else if drawn_on(smts.last(), symbol, tf) {
        drawn(smts.drop_last(), symbol, tf).push(IctStructureModel::SmtDivergence(smts.last()))
    } else {
        drawn(smts.drop_last(), symbol, tf)
    }
}

fn push_drawn(
    out: &mut Vec<IctStructure>,
    smts: &Vec<SmtDivergence>,
    symbol: &str,
    tf: Timeframe,
)
    ensures
        final(out).deep_view() == old(out).deep_view() + drawn(smts.deep_view(), symbol@, tf),
{
    let mut i: usize = 0;
    let ghost before = out.deep_view();
    assert(before + drawn(smts.deep_view().take(0), symbol@, tf) =~= before);
    while i < smts.len()
        invariant
            i <= smts.len(),
            out.deep_view() == before + drawn(smts.deep_view().take(i as int), symbol@, tf),
        decreases smts.len() - i,
    {
        let ghost had = out.deep_view();
        proof {
            let now = smts.deep_view().take(i + 1);
            assert(now.drop_last() =~= smts.deep_view().take(i as int));
            assert(now.last() == smts@[i as int]@);
        }
        if is_drawn_on(&smts[i], symbol, tf) {
            out.push(IctStructure::SmtDivergence(smts[i].clone()));
            assert(out.deep_view() =~= had.push(
                IctStructureModel::SmtDivergence(smts@[i as int]@),
            ));
            assert(out.deep_view() =~= before + drawn(
                smts.deep_view().take(i + 1),
                symbol@,
                tf,
            ));
        }
        i += 1;
    }
    assert(smts.deep_view().take(i as int) =~= smts.deep_view());
}

/// When the last divergence that entered its third candle left a price area.
pub open spec fn left_at(smts: Seq<SmtModel>, id: Seq<char>) -> Option<i64>
    decreases smts.len(),
{
    if smts.len() == 0 {
        None
    } else {
        let smt = smts.last();
        let rest = left_at(smts.drop_last(), id);
        match smt.htf_pda_ref {
            Some(pda) => if sweeper_state_of(smt) == Some(SmtDetectionState::C3Entry) && pda.id == id
                && pda.exit_ts is Some {
                pda.exit_ts
            } else {
                rest
            },
            None => rest,
        }
    }
}

fn find_left_at(smts: &Vec<SmtDivergence>, id: &str) -> (r: Option<i64>)
    ensures
        r == left_at(smts.deep_view(), id@),
{
    let mut i: usize = smts.len();
    assert(smts.deep_view().take(i as int) =~= smts.deep_view());
    while i > 0
        invariant
            i <= smts.len(),
            left_at(smts.deep_view(), id@) == left_at(smts.deep_view().take(i as int), id@),
        decreases i,
    {
        let ghost now = smts.deep_view().take(i as int);
        i -= 1;
        proof {
            assert(now.last() == smts@[i as int]@);
            assert(now.drop_last() =~= smts.deep_view().take(i as int));
        }
        let entered = match sweeper_detection_state(&smts[i]) {
            Some(s) => s == SmtDetectionState::C3Entry,
            None => false,
        };
        match &smts[i].htf_pda_ref {
            Some(pda) => {
                if entered && text_eq(pda.id.as_str(), id) && pda.exit_ts.is_some() {
                    return pda.exit_ts;
                }
            },
            None => {},
        }
    }
    None
}

/// A gap that a divergence left ends at the time of leaving; every other
/// structure stays as it is.
pub open spec fn end_stamped(s: IctStructureModel, smts: Seq<SmtModel>) -> IctStructureModel {
    match s {
        IctStructureModel::Fvg(gap) => match left_at(smts, gap.id) {
            Some(ts) => IctStructureModel::Fvg(FvgModel { consumed_exit_ts: Some(ts), ..gap }),
            None => s,
        },
        _ => s,
    }
}

/// A gap that is used up ends there, or earlier where it was left before.
pub open spec fn use_stamped(s: IctStructureModel, used_up: Option<i64>) -> IctStructureModel {
    match (s, used_up) {
        (IctStructureModel::Fvg(gap), Some(ts)) => IctStructureModel::Fvg(
            FvgModel {
                consumed_exit_ts: match gap.consumed_exit_ts {
                    Some(end) => if end <= ts {
                        Some(end)
                    } else {
                        Some(ts)
                    },
                    None => Some(ts),
                },
                ..gap
            },
        ),
        _ => s,
    }
}

/// Stamps the end of every gap that a divergence left.
pub fn filter_consumed_fvgs(list: &mut Vec<IctStructure>, smts: &Vec<SmtDivergence>)
    ensures
        final(list).deep_view() == Seq::new(
            old(list).deep_view().len(),
            |i: int| end_stamped(old(list).deep_view()[i], smts.deep_view()),
        ),
{
    let ghost all = list.deep_view();
    let mut i: usize = 0;
    while i < list.len()
        invariant
            i <= list.len(),
            list.len() == all.len(),
            all == old(list).deep_view(),
            forall|k: int|
                0 <= k < i ==> (#[trigger] list@[k])@ == end_stamped(all[k], smts.deep_view()),
            forall|k: int| i <= k < list.len() ==> (#[trigger] list@[k])@ == all[k],
        decreases list.len() - i,
    {
        let mut change: Option<IctStructure> = None;
        match &list[i] {
            IctStructure::Fvg(gap) => {
                let left = find_left_at(smts, gap.id.as_str());
                if left.is_some() {
                    let mut new = gap.clone();
                    new.consumed_exit_ts = left;
                    change = Some(IctStructure::Fvg(new));
                }
            },
            _ => {},
        }
        match change {
            Some(new) => {
                assert(new@ == end_stamped(all[i as int], smts.deep_view()));
                list.set(i, new);
            },
            None => {},
        }
        i += 1;
    }
    assert(list.deep_view() =~= Seq::new(
        all.len(),
        |i: int| end_stamped(all[i], smts.deep_view()),
    ));
}

/// Stamps the end of every gap that is used up. `used_up` holds the time for
/// each structure, where there is one.
pub fn stamp_depleted_fvg_ends(list: &mut Vec<IctStructure>, used_up: &Vec<Option<i64>>)
    requires
        used_up.len() == old(list).len(),
    ensures
        final(list).deep_view() == Seq::new(
            old(list).deep_view().len(),
            |i: int| use_stamped(old(list).deep_view()[i], used_up@[i]),
        ),
{
    let ghost all = list.deep_view();
    let mut i: usize = 0;
    while i < list.len()
        invariant
            i <= list.len(),
            list.len() == all.len(),
            used_up.len() == list.len(),
            all == old(list).deep_view(),
            forall|k: int|
                0 <= k < i ==> (#[trigger] list@[k])@ == use_stamped(all[k], used_up@[k]),
            forall|k: int| i <= k < list.len() ==> (#[trigger] list@[k])@ == all[k],
        decreases list.len() - i,
    {
        let mut change: Option<IctStructure> = None;
        match (&list[i], used_up[i]) {
            (IctStructure::Fvg(gap), Some(ts)) => {
                let end: i64 = match gap.consumed_exit_ts {
                    Some(end) => if end <= ts {
                        end
                    } else {
                        ts
                    },
                    None => ts,
                };
                let mut new = gap.clone();
                new.consumed_exit_ts = Some(end);
                change = Some(IctStructure::Fvg(new));
            },
            _ => {},
        }
        match change {
            Some(new) => {
                assert(new@ == use_stamped(all[i as int], used_up@[i as int]));
                list.set(i, new);
            },
            None => {},
        }
        i += 1;
    }
    assert(list.deep_view() =~= Seq::new(all.len(), |i: int| use_stamped(all[i], used_up@[i])));
}

/// Some structure has an identity.
pub open spec fn has_id(list: Seq<IctStructureModel>, id: Seq<char>) -> bool {
    exists|i: int| 0 <= i < list.len() && id_of(#[trigger] list[i]) == id
}

fn list_has_id(list: &Vec<IctStructure>, id: &str) -> (r: bool)
    ensures
        r == has_id(list.deep_view(), id@),
{
    let mut i: usize = 0;
    while i < list.len()
        invariant
            i <= list.len(),
            forall|k: int| 0 <= k < i ==> id_of(#[trigger] list.deep_view()[k]) != id@,
        decreases list.len() - i,
    {
        assert(list.deep_view()[i as int] == list@[i as int]@);
        if text_eq(list[i].id(), id) {
            return true;
        }
        i += 1;
    }
    false
}

/// A list with the rows added whose identity it does not have yet.
pub open spec fn with_new(list: Seq<IctStructureModel>, rows: Seq<IctStructureModel>) -> Seq<
    IctStructureModel,
>
    decreases rows.len(),
{
    if rows.len() == 0 {
        list
    } else {
        let rest = with_new(list, rows.drop_last());
        if has_id(rest, id_of(rows.last())) {
            rest
        } else {
            rest.push(rows.last())
        }
    }
}

/// Adds stored session ranges that the detectors do not have. A live row wins,
/// since it may hold a newer high or low.
pub fn merge_persisted_session_structures(
    list: &mut Vec<IctStructure>,
    persisted: &Vec<IctStructure>,
)
    ensures
        final(list).deep_view() == with_new(old(list).deep_view(), persisted.deep_view()),
{
    let mut i: usize = 0;
    while i < persisted.len()
        invariant
            i <= persisted.len(),
            list.deep_view() == with_new(
                old(list).deep_view(),
                persisted.deep_view().take(i as int),
            ),
        decreases persisted.len() - i,
    {
        let ghost before = list.deep_view();
        proof {
            let now = persisted.deep_view().take(i + 1);
            assert(now.drop_last() =~= persisted.deep_view().take(i as int));
            assert(now.last() == persisted@[i as int]@);
        }
        if !list_has_id(list, persisted[i].id()) {
            list.push(persisted[i].clone());
            assert(list.deep_view() =~= before.push(persisted@[i as int]@));
        }
        i += 1;
    }
    assert(persisted.deep_view().take(i as int) =~= persisted.deep_view());
}

/// The structures that are no divergence.
pub open spec fn without_smts(list: Seq<IctStructureModel>) -> Seq<IctStructureModel>
    decreases list.len(),
{
    if list.len() == 0 {
        Seq::empty()
    } else if list.last() is SmtDivergence {
        without_smts(list.drop_last())
    } else {
        without_smts(list.drop_last()).push(list.last())
    }
}

/// What is drawn while the detectors are busy: the last answer without its
/// divergences, which are read anew, or the stored structures where there is
/// no answer yet.
pub fn busy_structures(cached: Option<&Vec<IctStructure>>, stored: &Vec<IctStructure>) -> (r: Vec<
    IctStructure,
>)
    ensures
        r.deep_view() == match cached {
            Some(list) => if list.len() > 0 {
                without_smts(list.deep_view())
            } else {
                stored.deep_view()
            },
            None => stored.deep_view(),
        },
{
    match cached {
        Some(list) => {
            if list.len() > 0 {
                let mut out: Vec<IctStructure> = Vec::new();
                let mut i: usize = 0;
                assert(out.deep_view() =~= Seq::<IctStructureModel>::empty());
                while i < list.len()
                    invariant
                        i <= list.len(),
                        out.deep_view() == without_smts(list.deep_view().take(i as int)),
                    decreases list.len() - i,
                {
                    let ghost before = out.deep_view();
                    proof {
                        let now = list.deep_view().take(i + 1);
                        assert(now.drop_last() =~= list.deep_view().take(i as int));
                        assert(now.last() == list@[i as int]@);
                    }
                    let divergence = matches!(&list[i], IctStructure::SmtDivergence(_));
                    if !divergence {
                        out.push(list[i].clone());
                        assert(out.deep_view() =~= before.push(list@[i as int]@));
                    }
                    i += 1;
                }
                assert(list.deep_view().take(i as int) =~= list.deep_view());
                return out;
            }
        },
        None => {},
    }
    let out = stored.clone();
    assert(out.deep_view() =~= stored.deep_view());
    out
}

/// The structures of a pane before the gaps that are used up are stamped:
/// detected or stored ones, missing session ranges, and the ends of gaps that
/// divergences left.
pub open spec fn prepared(
    base: Seq<IctStructureModel>,
    sessions: Seq<IctStructureModel>,
    smts: Seq<SmtModel>,
) -> Seq<IctStructureModel> {
    let all = with_new(base, sessions);
    Seq::new(all.len(), |i: int| end_stamped(all[i], smts))
}

/// Prepares the structures of a pane.
pub fn prepare_structures(
    base: Vec<IctStructure>,
    sessions: &Vec<IctStructure>,
    smts: &Vec<SmtDivergence>,
) -> (r: Vec<IctStructure>)
    ensures
        r.deep_view() == prepared(base.deep_view(), sessions.deep_view(), smts.deep_view()),
{
    let mut out = base;
    merge_persisted_session_structures(&mut out, sessions);
    filter_consumed_fvgs(&mut out, smts);
    out
}

/// Adds the divergences of the selected groups to the structures of a pane.
pub fn list_structures(
    base: Vec<IctStructure>,
    smts: &Vec<SmtDivergence>,
    symbol: &str,
    tf: Timeframe,
) -> (r: Vec<IctStructure>)
    ensures
        r.deep_view() == base.deep_view() + drawn(smts.deep_view(), symbol@, tf),
{
    let mut out = base;
    push_drawn(&mut out, smts, symbol, tf);
    out
}

/// A live structure is never replaced by a stored one.
pub proof fn law_live_structures_win(list: Seq<IctStructureModel>, rows: Seq<IctStructureModel>)
    ensures
        list.len() <= with_new(list, rows).len(),
        with_new(list, rows).take(list.len() as int) == list,
        forall|k: int|
            0 <= k < rows.len() ==> has_id(with_new(list, rows), id_of(#[trigger] rows[k])),
    decreases rows.len(),
{
    if rows.len() == 0 {
        assert(list.take(list.len() as int) =~= list);
    } else {
        let front = rows.drop_last();
        law_live_structures_win(list, front);
        let rest = with_new(list, front);
        let now = with_new(list, rows);
        assert(now.take(list.len() as int) =~= list) by {
            assert(rest.take(list.len() as int) =~= list);
            assert forall|i: int| 0 <= i < list.len() implies now[i] == list[i] by {
                assert(rest.take(list.len() as int)[i] == rest[i]);
            }
        }
        assert forall|k: int| 0 <= k < rows.len() implies has_id(
            now,
            id_of(#[trigger] rows[k]),
        ) by {
            if k < front.len() {
                assert(front[k] == rows[k]);
                let i = choose|i: int|
                    0 <= i < rest.len() && id_of(#[trigger] rest[i]) == id_of(front[k]);
                assert(now[i] == rest[i]);
            } else if !has_id(rest, id_of(rows.last())) {
                assert(id_of(now[now.len() - 1]) == id_of(rows[k]));
            }
        }
    }
}

/// Stamping a gap never moves its end to a later time, and changes nothing
/// else of it.
pub proof fn law_ends_only_move_back(gap: FvgModel, ts: i64)
    ensures
        ({
            let s = use_stamped(IctStructureModel::Fvg(gap), Some(ts));
            &&& s matches IctStructureModel::Fvg(g) && g.consumed_exit_ts matches Some(end) && end
                <= ts && (gap.consumed_exit_ts matches Some(held) ==> end <= held) && g == (FvgModel {
                consumed_exit_ts: Some(end),
                ..gap
            })
        }),
{
}

} // verus!
