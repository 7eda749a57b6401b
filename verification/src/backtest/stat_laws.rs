//! What statistics say of the rows that they are taken of.
use vstd::prelude::*;
use crate::backtest::model::{Outcome, SimulationModel};
use crate::backtest::stats::{
    average_of, collected, count_of, countable, gains, heft, losses, median_of, quantile_of,
    ran_count, rising, rounded, stats_of, total, Measure,
};
use crate::sorting::{law_sorting, sorted_by};

verus! {

/// Gains less losses are the total, and gains and losses together are all that
/// moved.
pub proof fn law_gains_and_losses_make_the_total(v: Seq<i128>)
    ensures
        gains(v) - losses(v) == total(v),
        gains(v) + losses(v) == heft(v),
        gains(v) >= 0,
        losses(v) >= 0,
    decreases v.len(),
{
    if v.len() > 0 {
        law_gains_and_losses_make_the_total(v.drop_last());
    }
}

/// Sums of a list are the sums of its parts, and of one number they are that
/// number: to the gains where it is positive, to the losses where it is not.
pub proof fn law_sums_add_up(a: Seq<i128>, b: Seq<i128>, x: i128)
    ensures
        total(a + b) == total(a) + total(b),
        gains(a + b) == gains(a) + gains(b),
        losses(a + b) == losses(a) + losses(b),
        heft(a + b) == heft(a) + heft(b),
        total(seq![x]) == x,
        x >= 0 ==> gains(seq![x]) == x && losses(seq![x]) == 0,
        x <= 0 ==> losses(seq![x]) == -x && gains(seq![x]) == 0,
        total(Seq::<i128>::empty()) == 0,
    decreases b.len(),
{
    assert(seq![x].drop_last() =~= Seq::<i128>::empty());
    reveal_with_fuel(total, 2);
    reveal_with_fuel(gains, 2);
    reveal_with_fuel(losses, 2);
    if b.len() == 0 {
        assert(a + b =~= a);
    } else {
        assert((a + b).drop_last() =~= a + b.drop_last());
        assert((a + b).last() == b.last());
        law_sums_add_up(a, b.drop_last(), x);
    }
}

/// The position of a row was opened and ran its course.
pub open spec fn ended(row: SimulationModel) -> bool {
    row.outcome is Win || row.outcome is Loss || row.outcome is Expired
}

/// How many a row is of something.
pub open spec fn one_if(b: bool) -> int {
    if b {
        1
    } else {
        0
    }
}

/// Each row counts once: every row as one, a realised result as resolved, a win
/// as a win, the moves of a position that ran its course, and a floating result
/// as expired.
pub proof fn law_every_row_counts_once(rows: Seq<SimulationModel>, row: SimulationModel)
    requires
        rows.len() < usize::MAX,
    ensures
        ({
            let a = stats_of(rows);
            let b = stats_of(rows.push(row));
            &&& b.n == a.n + 1
            &&& b.resolved == a.resolved + one_if(row.realized_rr is Some)
            &&& b.wins == a.wins + one_if(row.outcome is Win)
            &&& b.excursions_n == a.excursions_n + one_if(ended(row) && row.mfe_rr is Some)
            &&& b.expired_n == a.expired_n + one_if(row.floating_rr is Some)
        }),
        stats_of(Seq::empty()).n == 0,
        stats_of(Seq::empty()).resolved == 0,
        stats_of(Seq::empty()).wins == 0,
        ran_count(rows.push(row)) == ran_count(rows) + one_if(ended(row)),
{
    assert(rows.push(row).drop_last() =~= rows);
    lemma_counts_fit(rows);
    lemma_counts_fit(rows.push(row));
}

proof fn lemma_counts_fit(rows: Seq<SimulationModel>)
    ensures
        count_of(Outcome::Win, rows) <= rows.len(),
        collected(Measure::Realized, rows).len() <= rows.len(),
        collected(Measure::Favourable, rows).len() <= rows.len(),
        collected(Measure::Adverse, rows).len() <= rows.len(),
        collected(Measure::Floating, rows).len() <= rows.len(),
        collected(Measure::Payoff, rows).len() <= rows.len(),
    decreases rows.len(),
{
    if rows.len() > 0 {
        lemma_counts_fit(rows.drop_last());
    }
}

/// The rows that have an outcome, counted; a row has one outcome.
pub proof fn law_outcomes_are_counted(o: Outcome, rows: Seq<SimulationModel>, row: SimulationModel)
    ensures
        count_of(o, rows.push(row)) == count_of(o, rows) + one_if(row.outcome == o),
        count_of(o, Seq::empty()) == 0,
{
    assert(rows.push(row).drop_last() =~= rows);
}

/// Averages, the median and the profit factor of rows, when one more row has
/// realised `x`: the average takes `x` in, the profit factor takes it in above
/// where it is a gain and below where it is a loss, and without any loss there
/// is none.
pub proof fn law_a_result_enters_its_averages(
    rows: Seq<SimulationModel>,
    row: SimulationModel,
    x: i128,
)
    requires
        row.realized_rr == Some(x),
        rows.len() < 0x1_0000_0000_0000,
        rows.len() < usize::MAX,
        countable(rows.push(row), 0x100_0000_0000_0000_0000_0000_0000_0000),
    ensures
        ({
            let a = stats_of(rows);
            let b = stats_of(rows.push(row));
            &&& b.mean is Some
            &&& b.mean->0.den == (a.resolved + 1) * 1_000_000_000_000_000_000
            &&& b.mean->0.num == x + (if a.resolved == 0 {
                0
            } else {
                a.mean->0.num as int
            })
            &&& a.resolved == 0 ==> a.mean is None && a.profit_factor is None && a.median is None
            &&& b.median is Some && b.median->0.den == 2_000_000_000_000_000_000
            &&& a.profit_factor is None ==> (b.profit_factor is Some) == (x < 0)
            &&& a.profit_factor is Some ==> b.profit_factor is Some
            &&& a.profit_factor is None && x < 0 ==> b.profit_factor->0.den == -x
            &&& a.profit_factor is Some && x < 0 ==> b.profit_factor->0.den
                == a.profit_factor->0.den - x && b.profit_factor->0.num == a.profit_factor->0.num
            &&& a.profit_factor is Some && x >= 0 ==> b.profit_factor->0.num
                == a.profit_factor->0.num + x && b.profit_factor->0.den == a.profit_factor->0.den
        }),
{
    let v = collected(Measure::Realized, rows);
    let u = collected(Measure::Realized, rows.push(row));
    assert(rows.push(row).drop_last() =~= rows);
    assert(u == v.push(x));
    assert(v.push(x).drop_last() =~= v);
    assert(heft(u) <= 0x100_0000_0000_0000_0000_0000_0000_0000);
    law_gains_and_losses_make_the_total(v);
    law_gains_and_losses_make_the_total(u);
    lemma_counts_fit(rows);
    assert(0 <= v.len() * 1_000_000_000_000_000_000 <= 0x1_0000_0000_0000
        * 1_000_000_000_000_000_000) by (nonlinear_arith)
        requires
            0 <= v.len() <= 0x1_0000_0000_0000,
    ;
    assert(0 <= u.len() * 1_000_000_000_000_000_000 <= 0x1_0000_0000_0000
        * 1_000_000_000_000_000_000) by (nonlinear_arith)
        requires
            0 <= u.len() <= 0x1_0000_0000_0000,
    ;
    if v.len() == 0 {
        assert(v =~= Seq::<i128>::empty());
    }
}

/// The numbers of rows, when one more row comes: the result that was realised,
/// the one that floats, the moves of a position that ran its course, and what it
/// came to either way.
pub proof fn law_rows_give_their_numbers(rows: Seq<SimulationModel>, row: SimulationModel)
    ensures
        collected(Measure::Realized, rows.push(row)) == taken(
            collected(Measure::Realized, rows),
            row.realized_rr,
        ),
        collected(Measure::Floating, rows.push(row)) == taken(
            collected(Measure::Floating, rows),
            row.floating_rr,
        ),
        ended(row) ==> collected(Measure::Favourable, rows.push(row)) == taken(
            collected(Measure::Favourable, rows),
            row.mfe_rr,
        ),
        ended(row) ==> collected(Measure::Adverse, rows.push(row)) == taken(
            collected(Measure::Adverse, rows),
            row.mae_rr,
        ),
        ended(row) && row.realized_rr is Some ==> collected(Measure::Payoff, rows.push(row))
            == taken(collected(Measure::Payoff, rows), row.realized_rr),
        ended(row) && row.realized_rr is None ==> collected(Measure::Payoff, rows.push(row))
            == taken(collected(Measure::Payoff, rows), row.floating_rr),
        !ended(row) ==> collected(Measure::Favourable, rows.push(row)) == collected(
            Measure::Favourable,
            rows,
        ) && collected(Measure::Adverse, rows.push(row)) == collected(Measure::Adverse, rows)
            && collected(Measure::Payoff, rows.push(row)) == collected(Measure::Payoff, rows),
        stats_of(rows).mfe == average_of(collected(Measure::Favourable, rows)),
        stats_of(rows).mae == average_of(collected(Measure::Adverse, rows)),
        stats_of(rows).floating == average_of(collected(Measure::Floating, rows)),
        stats_of(rows).median == median_of(collected(Measure::Realized, rows)),
{
    assert(rows.push(row).drop_last() =~= rows);
}

/// A list with one more number, where there is one.
pub open spec fn taken(v: Seq<i128>, x: Option<i128>) -> Seq<i128> {
    if x is Some {
        v.push(x->0)
    } else {
        v
    }
}

/// The average of a list times its length is its total, in quintillionths.
pub proof fn law_averages_spread_the_total(v: Seq<i128>)
    requires
        0 < v.len() <= 0x1_0000_0000_0000,
        heft(v) <= 0x100_0000_0000_0000_0000_0000_0000_0000,
    ensures
        average_of(v) matches Some(f) && f.num == total(v) && f.den == v.len()
            * 1_000_000_000_000_000_000,
        average_of(Seq::empty()) is None,
{
    law_gains_and_losses_make_the_total(v);
    assert(0 <= v.len() * 1_000_000_000_000_000_000 <= 0x1_0000_0000_0000
        * 1_000_000_000_000_000_000) by (nonlinear_arith)
        requires
            0 <= v.len() <= 0x1_0000_0000_0000,
    ;
}

/// The list in rising order.
pub open spec fn rises(s: Seq<i128>) -> bool {
    forall|i: int, j: int| 0 <= i < j < s.len() ==> s[i] <= s[j]
}

proof fn lemma_in_rising_order(v: Seq<i128>)
    ensures
        rises(sorted_by(v, rising())),
        sorted_by(v, rising()).to_multiset() == v.to_multiset(),
        sorted_by(v, rising()).len() == v.len(),
{
    law_sorting(v, rising());
    let s = sorted_by(v, rising());
    assert forall|i: int, j: int| 0 <= i < j < s.len() implies s[i] <= s[j] by {
        assert(!rising()(s[j], s[i]));
    }
}

proof fn lemma_element_weighs(v: Seq<i128>, k: int)
    requires
        0 <= k < v.len(),
    ensures
        -heft(v) <= v[k] <= heft(v),
    decreases v.len(),
{
    law_gains_and_losses_make_the_total(v.drop_last());
    if k < v.len() - 1 {
        lemma_element_weighs(v.drop_last(), k);
    }
}

proof fn lemma_sorted_weighs(v: Seq<i128>, k: int)
    requires
        0 <= k < v.len(),
    ensures
        -heft(v) <= sorted_by(v, rising())[k] <= heft(v),
{
    broadcast use vstd::seq_lib::group_to_multiset_ensures;

    lemma_in_rising_order(v);
    let s = sorted_by(v, rising());
    assert(s.to_multiset().contains(s[k]));
    assert(v.contains(s[k]));
    let i = choose|i: int| 0 <= i < v.len() && v[i] == s[k];
    lemma_element_weighs(v, i);
}

/// The median is the mean of the two numbers in the middle of the list in rising
/// order, which is one and the same where their number is odd.
pub proof fn law_the_median_is_in_the_middle(v: Seq<i128>)
    requires
        v.len() > 0,
        heft(v) <= 0x100_0000_0000_0000_0000_0000_0000_0000,
    ensures
        exists|s: Seq<i128>| #[trigger]
            rises(s) && s.to_multiset() == v.to_multiset() && s.len() == v.len() && {
                let f = median_of(v)->0;
                &&& median_of(v) is Some
                &&& f.den == 2_000_000_000_000_000_000
                &&& v.len() % 2 == 1 ==> f.num == 2 * s[v.len() as int / 2]
                &&& v.len() % 2 == 0 ==> f.num == s[v.len() as int / 2 - 1] + s[v.len() as int / 2]
            },
{
    let s = sorted_by(v, rising());
    let n = v.len() as int;
    lemma_in_rising_order(v);
    lemma_sorted_weighs(v, (n - 1) / 2);
    lemma_sorted_weighs(v, n / 2);
    assert(rises(s));
}

/// A quantile lies on the line through the list in rising order: at its rank
/// among the numbers, counted from the smallest at none to the largest at all.
pub proof fn law_quantiles_lie_at_their_rank(v: Seq<i128>, percent: int, at: int, rest: int)
    requires
        v.len() > 0,
        0 <= percent <= 100,
        heft(v) <= 0x100_0000_0000_0000_0000_0000_0000_0000,
        0 <= rest < 100,
        100 * at + rest == (v.len() - 1) * percent,
    ensures
        exists|s: Seq<i128>| #[trigger]
            rises(s) && s.to_multiset() == v.to_multiset() && s.len() == v.len() && {
                let f = quantile_of(v, percent)->0;
                &&& quantile_of(v, percent) is Some
                &&& f.den == 100_000_000_000_000_000_000
                &&& 0 <= at < s.len()
                &&& rest == 0 ==> f.num == 100 * s[at]
                &&& rest > 0 ==> at + 1 < s.len() && f.num == 100 * s[at] + rest * (s[at + 1]
                    - s[at])
            },
{
    let s = sorted_by(v, rising());
    let n = v.len() as int;
    lemma_in_rising_order(v);
    assert(0 <= (n - 1) * percent <= (n - 1) * 100) by (nonlinear_arith)
        requires
            n >= 1,
            0 <= percent <= 100,
    ;
    assert((n - 1) * percent / 100 == at && (n - 1) * percent % 100 == rest);
    lemma_sorted_weighs(v, at);
    let a = s[at] as int;
    let h = heft(v);
    if rest > 0 {
        lemma_sorted_weighs(v, at + 1);
        let b = s[at + 1] as int;
        assert(a * (100 - rest) + b * rest == 100 * a + rest * (b - a)) by (nonlinear_arith);
        assert(-100 * h <= a * (100 - rest) + b * rest <= 100 * h) by (nonlinear_arith)
            requires
                0 <= rest < 100,
                -h <= a <= h,
                -h <= b <= h,
        ;
    } else {
        assert(a * (100 - rest) + a * rest == 100 * a) by (nonlinear_arith);
    }
    assert(rises(s));
}

/// Rounding goes to the nearest whole number, and from the middle to the even
/// one.
pub proof fn law_rounding_goes_to_the_nearest(x: int, den: int)
    requires
        den > 0,
    ensures
        -den <= 2 * (rounded(x, den) * den - x) <= den,
        2 * (rounded(x, den) * den - x) == den || 2 * (rounded(x, den) * den - x) == -den
            ==> rounded(x, den) % 2 == 0,
{
    vstd::arithmetic::div_mod::lemma_fundamental_div_mod(x, den);
    vstd::arithmetic::div_mod::lemma_mod_bound(x, den);
    let low = x / den;
    let rest = x % den;
    assert(low * den == den * low) by (nonlinear_arith);
    assert((low + 1) * den == den * low + den) by (nonlinear_arith);
}

} // verus!
