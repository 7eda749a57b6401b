//! Statistics of simulated positions.
use vstd::prelude::*;
use crate::backtest::model::{Outcome, Simulation, SimulationModel, R_SCALE};
use crate::sorting::{sorted_by, stable_sort, strict_weak};
use crate::text::{digits, owned, two_digits};

verus! {

/// How many simulations can be averaged: the denominator of an average stays
/// inside `i128`.
pub const MAX_ROWS: u64 = 0x1_0000_0000_0000;

/// How far the magnitudes of multiples may add up: a hundred times as much
/// stays inside `i128`.
pub const SUM_LIMIT: i128 = 0x100_0000_0000_0000_0000_0000_0000_0000;

/// An exact fraction with a positive denominator.
#[derive(Clone, Copy, Debug, PartialEq, Eq, Structural)]
pub struct Fraction {
    pub num: i128,
    pub den: i128,
}

/// Counts and averages of a set of simulations. Averages of multiples of the
/// risk are in whole risks.
#[derive(Clone, Copy, Debug, PartialEq, Eq, Structural)]
pub struct Stats {
    pub n: usize,
    pub resolved: usize,
    pub wins: usize,
    pub mean: Option<Fraction>,
    pub median: Option<Fraction>,
    pub profit_factor: Option<Fraction>,
    pub mfe: Option<Fraction>,
    pub mae: Option<Fraction>,
    pub floating: Option<Fraction>,
    pub excursions_n: usize,
    pub expired_n: usize,
}

/// A number that a simulation may have.
#[derive(Clone, Copy, PartialEq, Eq, Structural)]
pub enum Measure {
    /// The realised multiple.
    Realized,
    /// The floating multiple at the end of the holding window.
    Floating,
    /// The largest favourable move of a position that ran its course.
    Favourable,
    /// The largest adverse move of a position that ran its course.
    Adverse,
    /// The realised or floating multiple of a position that ran its course.
    Payoff,
}

/// The position was opened and ran its course.
pub open spec fn ran(o: Outcome) -> bool {
    o is Win || o is Loss || o is Expired
}

/// The multiple of a simulation, where it has it.
pub open spec fn measured(m: Measure, s: SimulationModel) -> Option<i128> {
    match m {
        Measure::Realized => s.realized_rr,
        Measure::Floating => s.floating_rr,
        Measure::Favourable => if ran(s.outcome) {
            s.mfe_rr
        } else {
            None
        },
        Measure::Adverse => if ran(s.outcome) {
            s.mae_rr
        } else {
            None
        },
        Measure::Payoff => if ran(s.outcome) {
            match s.realized_rr {
                Some(x) => Some(x),
                None => s.floating_rr,
            }
        } else {
            None
        },
    }
}

/// The numbers of the simulations that have them, in order.
pub open spec fn collected(m: Measure, rows: Seq<SimulationModel>) -> Seq<i128>
    decreases rows.len(),
{
    if rows.len() == 0 {
        Seq::empty()
    } else {
        let rest = collected(m, rows.drop_last());
        match measured(m, rows.last()) {
            Some(x) => rest.push(x),
            None => rest,
        }
    }
}

/// How many simulations had an outcome.
pub open spec fn count_of(o: Outcome, rows: Seq<SimulationModel>) -> nat
    decreases rows.len(),
{
    if rows.len() == 0 {
        0
    } else {
        count_of(o, rows.drop_last()) + if rows.last().outcome == o {
            1nat
        } else {
            0
        }
    }
}

/// How many simulations ran their course.
pub open spec fn ran_count(rows: Seq<SimulationModel>) -> nat
    decreases rows.len(),
{
    if rows.len() == 0 {
        0
    } else {
        ran_count(rows.drop_last()) + if ran(rows.last().outcome) {
            1nat
        } else {
            0
        }
    }
}

/// The sum of a list.
pub open spec fn total(v: Seq<i128>) -> int
    decreases v.len(),
{
    if v.len() == 0 {
        0
    } else {
        total(v.drop_last()) + v.last()
    }
}

/// The sum of the positive numbers of a list.
pub open spec fn gains(v: Seq<i128>) -> int
    decreases v.len(),
{
    if v.len() == 0 {
        0
    } else {
        gains(v.drop_last()) + if v.last() > 0 {
            v.last() as int
        } else {
            0
        }
    }
}

/// The sum of the negative numbers of a list, as a positive number.
pub open spec fn losses(v: Seq<i128>) -> int
    decreases v.len(),
{
    if v.len() == 0 {
        0
    } else {
        losses(v.drop_last()) + if v.last() < 0 {
            -v.last()
        } else {
            0
        }
    }
}

/// The sum of the magnitudes of a list.
pub open spec fn heft(v: Seq<i128>) -> int
    decreases v.len(),
{
    if v.len() == 0 {
        0
    } else {
        heft(v.drop_last()) + magnitude(v.last() as int)
    }
}

/// A number without its sign.
pub open spec fn magnitude(x: int) -> int {
    if x < 0 {
        -x
    } else {
        x
    }
}

/// No measure of the simulations adds up to more than a limit.
pub open spec fn countable(rows: Seq<SimulationModel>, limit: int) -> bool {
    forall|m: Measure| heft(#[trigger] collected(m, rows)) <= limit
}

/// The average of a list of multiples.
pub open spec fn average_of(v: Seq<i128>) -> Option<Fraction> {
    if v.len() == 0 {
        None
    } else {
        Some(Fraction { num: total(v) as i128, den: (v.len() * R_SCALE) as i128 })
    }
}

/// Numbers in rising order.
pub open spec fn rising() -> spec_fn(i128, i128) -> bool {
    |a: i128, b: i128| a < b
}

/// The middle of a list: the mean of the two middle numbers of the sorted
/// list.
pub open spec fn median_of(v: Seq<i128>) -> Option<Fraction> {
    if v.len() == 0 {
        None
    } else {
        let s = sorted_by(v, rising());
        Some(
            Fraction {
                num: (s[(v.len() - 1) / 2] + s[v.len() as int / 2]) as i128,
                den: (2 * R_SCALE) as i128,
            },
        )
    }
}

/// A quantile of a list, in hundredths, by linear interpolation between the
/// neighbours of its rank.
pub open spec fn quantile_of(v: Seq<i128>, percent: int) -> Option<Fraction> {
    if v.len() == 0 {
        None
    } else {
        let s = sorted_by(v, rising());
        let rank = (v.len() - 1) * percent;
        let low = rank / 100;
        let rest = rank % 100;
        let high = if rest > 0 {
            low + 1
        } else {
            low
        };
        Some(
            Fraction {
                num: (s[low] * (100 - rest) + s[high] * rest) as i128,
                den: (100 * R_SCALE) as i128,
            },
        )
    }
}

/// The statistics of a set of simulations.
pub open spec fn stats_of(rows: Seq<SimulationModel>) -> Stats {
    let rr = collected(Measure::Realized, rows);
    let mfe = collected(Measure::Favourable, rows);
    let mae = collected(Measure::Adverse, rows);
    let floating = collected(Measure::Floating, rows);
    Stats {
        n: rows.len() as usize,
        resolved: rr.len() as usize,
        wins: count_of(Outcome::Win, rows) as usize,
        mean: average_of(rr),
        median: median_of(rr),
        profit_factor: if losses(rr) > 0 {
            Some(Fraction { num: gains(rr) as i128, den: losses(rr) as i128 })
        } else {
            None
        },
        mfe: average_of(mfe),
        mae: average_of(mae),
        floating: average_of(floating),
        excursions_n: mfe.len() as usize,
        expired_n: floating.len() as usize,
    }
}

fn measure(m: Measure, s: &Simulation) -> (r: Option<i128>)
    ensures
        r == measured(m, s@),
{
    let ran = matches!(s.outcome, Outcome::Win | Outcome::Loss | Outcome::Expired);
    match m {
        Measure::Realized => s.realized_rr,
        Measure::Floating => s.floating_rr,
        Measure::Favourable => if ran {
            s.mfe_rr
        } else {
            None
        },
        Measure::Adverse => if ran {
            s.mae_rr
        } else {
            None
        },
        Measure::Payoff => if ran {
            match s.realized_rr {
                Some(x) => Some(x),
                None => s.floating_rr,
            }
        } else {
            None
        },
    }
}

/// The numbers of the simulations that have them, in order.
pub fn collect(m: Measure, rows: &Vec<Simulation>) -> (r: Vec<i128>)
    ensures
        r@ == collected(m, rows.deep_view()),
        r.len() <= rows.len(),
{
    let mut out: Vec<i128> = Vec::new();
    let mut i: usize = 0;
    assert(out@ =~= Seq::<i128>::empty());
    while i < rows.len()
        invariant
            i <= rows.len(),
            out.len() <= i,
            out@ == collected(m, rows.deep_view().take(i as int)),
        decreases rows.len() - i,
    {
        proof {
            let now = rows.deep_view().take(i + 1);
            assert(now.drop_last() =~= rows.deep_view().take(i as int));
            assert(now.last() == rows@[i as int]@);
        }
        match measure(m, &rows[i]) {
            Some(x) => out.push(x),
            None => {},
        }
        i += 1;
    }
    assert(rows.deep_view().take(i as int) =~= rows.deep_view());
    out
}

/// How many simulations had an outcome.
pub fn count(o: Outcome, rows: &Vec<Simulation>) -> (r: usize)
    ensures
        r == count_of(o, rows.deep_view()),
        r <= rows.len(),
{
    let mut n: usize = 0;
    let mut i: usize = 0;
    while i < rows.len()
        invariant
            i <= rows.len(),
            n <= i,
            n == count_of(o, rows.deep_view().take(i as int)),
        decreases rows.len() - i,
    {
        proof {
            let now = rows.deep_view().take(i + 1);
            assert(now.drop_last() =~= rows.deep_view().take(i as int));
            assert(now.last() == rows@[i as int]@);
        }
        if rows[i].outcome == o {
            n += 1;
        }
        i += 1;
    }
    assert(rows.deep_view().take(i as int) =~= rows.deep_view());
    n
}

/// How many simulations ran their course.
pub fn count_ran(rows: &Vec<Simulation>) -> (r: usize)
    ensures
        r == ran_count(rows.deep_view()),
        r <= rows.len(),
{
    let mut n: usize = 0;
    let mut i: usize = 0;
    while i < rows.len()
        invariant
            i <= rows.len(),
            n <= i,
            n == ran_count(rows.deep_view().take(i as int)),
        decreases rows.len() - i,
    {
        proof {
            let now = rows.deep_view().take(i + 1);
            assert(now.drop_last() =~= rows.deep_view().take(i as int));
            assert(now.last() == rows@[i as int]@);
        }
        if matches!(rows[i].outcome, Outcome::Win | Outcome::Loss | Outcome::Expired) {
            n += 1;
        }
        i += 1;
    }
    assert(rows.deep_view().take(i as int) =~= rows.deep_view());
    n
}

proof fn lemma_total_bound(v: Seq<i128>)
    ensures
        0 <= heft(v),
        -heft(v) <= total(v) <= heft(v),
        0 <= gains(v) <= heft(v),
        0 <= losses(v) <= heft(v),
    decreases v.len(),
{
    if v.len() > 0 {
        lemma_total_bound(v.drop_last());
    }
}

/// The first numbers of a list weigh no more than all of them.
pub proof fn lemma_heft_of_some(v: Seq<i128>, n: int)
    requires
        0 <= n <= v.len(),
    ensures
        0 <= heft(v.take(n)) <= heft(v),
    decreases v.len(),
{
    if n == v.len() {
        assert(v.take(n) =~= v);
        lemma_total_bound(v);
    } else {
        lemma_heft_of_some(v.drop_last(), n);
        assert(v.drop_last().take(n) =~= v.take(n));
    }
}

/// A number of a list weighs no more than the list.
proof fn lemma_heft_of_one(v: Seq<i128>, k: int)
    requires
        0 <= k < v.len(),
    ensures
        -heft(v) <= v[k] <= heft(v),
{
    lemma_heft_of_some(v, k + 1);
    lemma_total_bound(v.take(k));
    assert(v.take(k + 1).drop_last() =~= v.take(k));
    assert(v.take(k + 1).last() == v[k]);
}

/// Whether the magnitudes of a list add up to a limit at most.
pub fn is_light(v: &Vec<i128>, limit: i128) -> (r: bool)
    requires
        0 <= limit,
    ensures
        r == (heft(v@) <= limit),
{
    let mut left: i128 = limit;
    let mut i: usize = 0;
    while i < v.len()
        invariant
            i <= v.len(),
            0 <= left <= limit,
            heft(v@.take(i as int)) == limit - left,
        decreases v.len() - i,
    {
        let x: i128 = v[i];
        proof {
            assert(v@.take(i + 1).drop_last() =~= v@.take(i as int));
            assert(v@.take(i + 1).last() == x);
            lemma_heft_of_some(v@, i + 1);
        }
        if x > left || x < -left {
            return false;
        }
        left = if x < 0 {
            left + x
        } else {
            left - x
        };
        i += 1;
    }
    assert(v@.take(i as int) =~= v@);
    true
}

/// Whether every measure of the simulations adds up to a limit at most.
pub fn are_countable(rows: &Vec<Simulation>, limit: i128) -> (r: bool)
    requires
        0 <= limit,
    ensures
        r == countable(rows.deep_view(), limit as int),
{
    let realized = collect(Measure::Realized, rows);
    let floating = collect(Measure::Floating, rows);
    let favourable = collect(Measure::Favourable, rows);
    let adverse = collect(Measure::Adverse, rows);
    let payoff = collect(Measure::Payoff, rows);
    let r = is_light(&realized, limit) && is_light(&floating, limit) && is_light(
        &favourable,
        limit,
    ) && is_light(&adverse, limit) && is_light(&payoff, limit);
    assert(r ==> countable(rows.deep_view(), limit as int)) by {
        assert forall|m: Measure| r implies heft(#[trigger] collected(m, rows.deep_view()))
            <= limit by {
            match m {
                Measure::Realized => {},
                Measure::Floating => {},
                Measure::Favourable => {},
                Measure::Adverse => {},
                Measure::Payoff => {},
            }
        }
    }
    r
}

/// Sums of a list: of all, of the positive and of the negative numbers.
fn sums(v: &Vec<i128>) -> (r: (i128, i128, i128))
    requires
        heft(v@) <= SUM_LIMIT,
    ensures
        r.0 == total(v@),
        r.1 == gains(v@),
        r.2 == losses(v@),
{
    let mut all: i128 = 0;
    let mut up: i128 = 0;
    let mut down: i128 = 0;
    let mut i: usize = 0;
    while i < v.len()
        invariant
            i <= v.len(),
            heft(v@) <= SUM_LIMIT,
            all == total(v@.take(i as int)),
            up == gains(v@.take(i as int)),
            down == losses(v@.take(i as int)),
        decreases v.len() - i,
    {
        proof {
            let now = v@.take(i + 1);
            assert(now.drop_last() =~= v@.take(i as int));
            assert(now.last() == v@[i as int]);
            lemma_total_bound(now);
            lemma_heft_of_some(v@, i + 1);
            lemma_heft_of_one(v@, i as int);
        }
        let x: i128 = v[i];
        all = all + x;
        if x > 0 {
            up = up + x;
        }
        if x < 0 {
            down = down - x;
        }
        i += 1;
    }
    assert(v@.take(i as int) =~= v@);
    (all, up, down)
}

/// The average of a list of multiples.
pub fn average(v: &Vec<i128>) -> (r: Option<Fraction>)
    requires
        v.len() <= MAX_ROWS,
        heft(v@) <= SUM_LIMIT,
    ensures
        r == average_of(v@),
        printable(r),
{
    if v.len() == 0 {
        return None;
    }
    proof {
        lemma_total_bound(v@);
    }
    let s = sums(v);
    let n: i128 = v.len() as i128;
    assert(0 < n * 1_000_000_000_000_000_000 <= 0x1_0000_0000_0000 * 1_000_000_000_000_000_000)
        by (nonlinear_arith)
        requires
            0 < n <= MAX_ROWS,
    ;
    Some(Fraction { num: s.0, den: n * R_SCALE })
}

/// The fraction is small enough to be written.
pub open spec fn printable(f: Option<Fraction>) -> bool {
    f matches Some(x) ==> 0 < x.den <= SUM_LIMIT && i128::MIN < x.num
}

proof fn lemma_rising()
    ensures
        strict_weak(rising()),
{
}

fn sort_numbers(v: &Vec<i128>) -> (r: Vec<i128>)
    ensures
        r@ == sorted_by(v@, rising()),
        r.len() == v.len(),
{
    let copy = v.clone();
    assert(copy@ =~= v@);
    assert(copy.deep_view() =~= v@);
    let comes_before = |a: &i128, b: &i128| -> (r: bool)
        ensures
            r == (*a < *b),
        { *a < *b };
    let out = stable_sort(copy, comes_before, Ghost(rising()));
    assert(out.deep_view() =~= out@);
    proof {
        lemma_rising();
        crate::sorting::law_sorting(v@, rising());
    }
    out
}

proof fn lemma_sorted_heft(v: Seq<i128>, k: int)
    requires
        0 <= k < v.len(),
        heft(v) <= SUM_LIMIT,
    ensures
        -SUM_LIMIT <= sorted_by(v, rising())[k] <= SUM_LIMIT,
{
    let limit = SUM_LIMIT;
    assert forall|i: int| 0 <= i < v.len() implies -limit <= #[trigger] v[i] <= limit by {
        lemma_heft_of_one(v, i);
    }
    lemma_sorted_range(v, (-limit) as i128, limit, k);
}

/// The middle of a list.
pub fn median(v: &Vec<i128>) -> (r: Option<Fraction>)
    requires
        heft(v@) <= SUM_LIMIT,
    ensures
        r == median_of(v@),
        printable(r),
{
    if v.len() == 0 {
        return None;
    }
    let s = sort_numbers(v);
    proof {
        lemma_sorted_heft(v@, (v.len() - 1) / 2);
        lemma_sorted_heft(v@, v.len() as int / 2);
    }
    let a: i128 = s[(v.len() - 1) / 2];
    let b: i128 = s[v.len() / 2];
    Some(Fraction { num: a + b, den: 2 * R_SCALE })
}

/// A quantile of a list, in hundredths.
pub fn quantile(v: &Vec<i128>, percent: u8) -> (r: Option<Fraction>)
    requires
        percent <= 100,
        heft(v@) <= SUM_LIMIT,
    ensures
        r == quantile_of(v@, percent as int),
        printable(r),
{
    if v.len() == 0 {
        return None;
    }
    let s = sort_numbers(v);
    proof {
        let n = v.len() as int;
        assert(0 <= (n - 1) * (percent as int) <= (n - 1) * 100) by (nonlinear_arith)
            requires
                0 <= percent <= 100,
                n >= 1,
        ;
    }
    let rank: u128 = ((v.len() - 1) as u128) * (percent as u128);
    let low: usize = (rank / 100) as usize;
    let rest: i128 = (rank % 100) as i128;
    let high: usize = if rest > 0 {
        low + 1
    } else {
        low
    };
    let a: i128 = s[low];
    let b: i128 = s[high];
    proof {
        lemma_sorted_heft(v@, low as int);
        lemma_sorted_heft(v@, high as int);
        lemma_between(a as int, b as int, rest as int, SUM_LIMIT as int);
    }
    Some(Fraction { num: a * (100 - rest) + b * rest, den: 100 * R_SCALE })
}

proof fn lemma_between(a: int, b: int, rest: int, limit: int)
    requires
        0 <= rest < 100,
        -limit <= a <= limit,
        -limit <= b <= limit,
    ensures
        -100 * limit <= a * (100 - rest) <= 100 * limit,
        -100 * limit <= b * rest <= 100 * limit,
        -100 * limit <= a * (100 - rest) + b * rest <= 100 * limit,
{
    assert(-limit * (100 - rest) <= a * (100 - rest) <= limit * (100 - rest)) by (nonlinear_arith)
        requires
            0 <= rest < 100,
            -limit <= a <= limit,
    ;
    assert(-limit * rest <= b * rest <= limit * rest) by (nonlinear_arith)
        requires
            0 <= rest < 100,
            -limit <= b <= limit,
    ;
    assert(limit * (100 - rest) + limit * rest == 100 * limit) by (nonlinear_arith);
    assert(-limit * (100 - rest) == -(limit * (100 - rest))) by (nonlinear_arith);
    assert(-limit * rest == -(limit * rest)) by (nonlinear_arith);
    assert(0 <= limit * rest && 0 <= limit * (100 - rest)) by (nonlinear_arith)
        requires
            0 <= rest < 100,
            0 <= limit,
    ;
}

/// Every fraction of the statistics can be written.
pub open spec fn printable_stats(s: Stats) -> bool {
    &&& printable(s.mean)
    &&& printable(s.median)
    &&& printable(s.profit_factor)
    &&& printable(s.mfe)
    &&& printable(s.mae)
    &&& printable(s.floating)
}

/// The statistics of a set of simulations.
pub fn stats(rows: &Vec<Simulation>) -> (r: Stats)
    requires
        rows.len() <= MAX_ROWS,
        countable(rows.deep_view(), SUM_LIMIT as int),
    ensures
        r == stats_of(rows.deep_view()),
        printable_stats(r),
        r.wins <= rows.len(),
        r.resolved <= rows.len(),
{
    let rr = collect(Measure::Realized, rows);
    let mfe = collect(Measure::Favourable, rows);
    let mae = collect(Measure::Adverse, rows);
    let floating = collect(Measure::Floating, rows);
    let s = sums(&rr);
    proof {
        lemma_total_bound(rr@);
    }
    let factor: Option<Fraction> = if s.2 > 0 {
        Some(Fraction { num: s.1, den: s.2 })
    } else {
        None
    };
    Stats {
        n: rows.len(),
        resolved: rr.len(),
        wins: count(Outcome::Win, rows),
        mean: average(&rr),
        median: median(&rr),
        profit_factor: factor,
        mfe: average(&mfe),
        mae: average(&mae),
        floating: average(&floating),
        excursions_n: mfe.len(),
        expired_n: floating.len(),
    }
}

/// A quotient rounded to the nearest whole number, a tie to the even one.
pub open spec fn rounded(x: int, den: int) -> int {
    let low = x / den;
    let rest = x % den;
    if 2 * rest > den || (2 * rest == den && low % 2 == 1) {
        low + 1
    } else {
        low
    }
}

/// A fraction with four decimals, rounded to the nearest and in a tie to the
/// even digit.
pub open spec fn four_decimals(f: Fraction) -> Seq<char> {
    let n = rounded(magnitude(f.num as int) * 10000, f.den as int);
    (if f.num < 0 {
        "-"@
    } else {
        Seq::empty()
    }) + digits((n / 10000) as nat) + "."@ + two_digits((n % 10000 / 100) as nat) + two_digits(
        (n % 100) as nat,
    )
}

/// A fraction as a report writes it.
pub open spec fn number_of(f: Option<Fraction>) -> Seq<char> {
    match f {
        Some(x) => four_decimals(x),
        None => "N/A"@,
    }
}

fn push_wide(out: &mut String, n: u128)
    ensures
        final(out)@ == old(out)@ + digits(n as nat),
    decreases n,
{
    if n < 10 {
        crate::text::push_decimal(out, n as i64);
    } else {
        push_wide(out, n / 10);
        let ghost mid = out@;
        crate::text::push_decimal(out, (n % 10) as i64);
        assert(digits((n % 10) as nat) =~= seq![(('0' as u32) + n % 10) as char]);
        assert(out@ =~= old(out)@ + digits(n as nat));
    }
}

fn push_two(out: &mut String, n: u128)
    requires
        n < 100,
    ensures
        final(out)@ == old(out)@ + two_digits(n as nat),
{
    if n < 10 {
        out.push('0');
    }
    push_wide(out, n);
    assert(out@ =~= old(out)@ + two_digits(n as nat));
}

proof fn lemma_next_digit(x: int, den: int, a: int, r: int)
    requires
        den > 0,
        x == den * a + r,
    ensures
        10 * x == den * (10 * a + 10 * r / den) + 10 * r % den,
{
    vstd::arithmetic::div_mod::lemma_fundamental_div_mod(10 * r, den);
    assert(10 * x == den * (10 * a + 10 * r / den) + 10 * r % den) by (nonlinear_arith)
        requires
            x == den * a + r,
            10 * r == den * (10 * r / den) + 10 * r % den,
    ;
}

/// The next decimal of a quotient, and what is left of its remainder.
fn next_digit(r: i128, den: i128) -> (d: (i128, i128))
    requires
        0 <= r < den <= SUM_LIMIT,
    ensures
        d.0 == 10 * r / (den as int),
        d.1 == 10 * r % (den as int),
        0 <= d.0 < 10,
        0 <= d.1 < den,
{
    let x: i128 = 10 * r;
    proof {
        vstd::arithmetic::div_mod::lemma_fundamental_div_mod(x as int, den as int);
        let q = x as int / den as int;
        let left = x as int % den as int;
        assert(0 <= q < 10) by (nonlinear_arith)
            requires
                x == den * q + left,
                0 <= left < den,
                0 <= x < 10 * den,
        ;
    }
    (x / den, x % den)
}

proof fn lemma_four_digits(m: int, den: int, a: int, b: int, c: int, d: int, r: Seq<int>)
    requires
        den > 0,
        m >= 0,
        r.len() == 5,
        r[0] == m % den,
        a == 10 * r[0] / den && r[1] == 10 * r[0] % den,
        b == 10 * r[1] / den && r[2] == 10 * r[1] % den,
        c == 10 * r[2] / den && r[3] == 10 * r[2] % den,
        d == 10 * r[3] / den && r[4] == 10 * r[3] % den,
    ensures
        m * 10000 / den == m / den * 10000 + a * 1000 + b * 100 + c * 10 + d,
        m * 10000 % den == r[4],
{
    let w = m / den;
    vstd::arithmetic::div_mod::lemma_fundamental_div_mod(m, den);
    lemma_next_digit(m, den, w, r[0]);
    lemma_next_digit(10 * m, den, 10 * w + a, r[1]);
    lemma_next_digit(100 * m, den, 100 * w + 10 * a + b, r[2]);
    lemma_next_digit(1000 * m, den, 1000 * w + 100 * a + 10 * b + c, r[3]);
    let q = w * 10000 + a * 1000 + b * 100 + c * 10 + d;
    assert(10 * (1000 * w + 100 * a + 10 * b + c) + d == q);
    assert(m * 10000 == q * den + r[4]) by (nonlinear_arith)
        requires
            10 * (1000 * m) == den * q + r[4],
    ;
    vstd::arithmetic::div_mod::lemma_mod_bound(10 * r[3], den);
    vstd::arithmetic::div_mod::lemma_fundamental_div_mod_converse(m * 10000, den, q, r[4]);
}

/// A quotient rounded to four decimals: its whole part and the decimals.
fn four_places(m: i128, den: i128) -> (r: (u128, i128))
    requires
        0 <= m,
        0 < den <= SUM_LIMIT,
    ensures
        r.0 * 10000 + r.1 == rounded(m * 10000, den as int),
        0 <= r.1 < 10000,
{
    let whole: i128 = m / den;
    let rest: i128 = m % den;
    let a = next_digit(rest, den);
    let b = next_digit(a.1, den);
    let c = next_digit(b.1, den);
    let d = next_digit(c.1, den);
    let decimals: i128 = a.0 * 1000 + b.0 * 100 + c.0 * 10 + d.0;
    let up: i128 = if 2 * d.1 > den || (2 * d.1 == den && decimals % 2 == 1) {
        1
    } else {
        0
    };
    proof {
        lemma_four_digits(
            m as int,
            den as int,
            a.0 as int,
            b.0 as int,
            c.0 as int,
            d.0 as int,
            seq![rest as int, a.1 as int, b.1 as int, c.1 as int, d.1 as int],
        );
        vstd::arithmetic::div_mod::lemma_div_pos_is_pos(m as int, den as int);
        assert((whole * 10000 + decimals) % 2 == decimals % 2);
    }
    let n: i128 = decimals + up;
    if n == 10000 {
        (whole as u128 + 1, 0)
    } else {
        (whole as u128, n)
    }
}

/// Writes a fraction with four decimals, or that there is none.
pub fn number(f: Option<Fraction>) -> (r: String)
    requires
        printable(f),
    ensures
        r@ == number_of(f),
{
    let x = match f {
        Some(x) => x,
        None => return owned("N/A"),
    };
    let mut out = String::new();
    let m: i128 = if x.num < 0 {
        out.append("-");
        -x.num
    } else {
        x.num
    };
    let n = four_places(m, x.den);
    push_wide(&mut out, n.0);
    out.append(".");
    push_two(&mut out, (n.1 / 100) as u128);
    push_two(&mut out, (n.1 % 100) as u128);
    proof {
        let all = rounded(m * 10000, x.den as int);
        assert(all / 10000 == n.0);
        assert(all % 10000 == n.1);
        assert(all % 100 == n.1 % 100);
    }
    assert(out@ =~= number_of(f));
    out
}

proof fn lemma_collected_shares(rows: Seq<SimulationModel>)
    requires
        forall|k: int|
            0 <= k < rows.len() ==> (((#[trigger] rows[k]).realized_rr is Some) == (
            rows[k].outcome is Win || rows[k].outcome is Loss)),
    ensures
        collected(Measure::Realized, rows).len() == count_of(Outcome::Win, rows) + count_of(
            Outcome::Loss,
            rows,
        ),
    decreases rows.len(),
{
    if rows.len() > 0 {
        assert forall|k: int| 0 <= k < rows.drop_last().len() implies (((
        #[trigger] rows.drop_last()[k]).realized_rr is Some) == (rows.drop_last()[k].outcome is Win
            || rows.drop_last()[k].outcome is Loss)) by {
            assert(rows[k] == rows.drop_last()[k]);
        }
        lemma_collected_shares(rows.drop_last());
        assert(rows[rows.len() - 1] == rows.last());
    }
}

/// Only wins and losses enter the win rate and the average result: whatever
/// else was simulated leaves them alone.
pub proof fn law_only_resolved_rows_count(rows: Seq<SimulationModel>)
    requires
        forall|k: int|
            0 <= k < rows.len() ==> crate::backtest::laws::coherent(#[trigger] rows[k]),
    ensures
        collected(Measure::Realized, rows).len() == count_of(Outcome::Win, rows) + count_of(
            Outcome::Loss,
            rows,
        ),
{
    assert forall|k: int| 0 <= k < rows.len() implies (((#[trigger] rows[k]).realized_rr is Some)
        == (rows[k].outcome is Win || rows[k].outcome is Loss)) by {
        assert(crate::backtest::laws::coherent(rows[k]));
    }
    lemma_collected_shares(rows);
}

/// A row that is neither won nor lost changes neither the number of resolved
/// rows nor their average, median and profit factor.
pub proof fn law_unresolved_row_changes_no_return(rows: Seq<SimulationModel>, row: SimulationModel)
    requires
        row.realized_rr is None,
        row.outcome != Outcome::Win,
    ensures
        ({
            let a = stats_of(rows);
            let b = stats_of(rows.push(row));
            &&& a.resolved == b.resolved
            &&& a.wins == b.wins
            &&& a.mean == b.mean
            &&& a.median == b.median
            &&& a.profit_factor == b.profit_factor
        }),
{
    assert(rows.push(row).drop_last() =~= rows);
}

proof fn lemma_sorted_range(v: Seq<i128>, lo: i128, hi: i128, k: int)
    requires
        forall|i: int| 0 <= i < v.len() ==> lo <= #[trigger] v[i] <= hi,
        0 <= k < v.len(),
    ensures
        sorted_by(v, rising()).len() == v.len(),
        lo <= sorted_by(v, rising())[k] <= hi,
{
    lemma_rising();
    crate::sorting::law_sorting(v, rising());
    let s = sorted_by(v, rising());
    broadcast use vstd::seq_lib::group_to_multiset_ensures;

    assert(s.to_multiset().contains(s[k]));
    assert(v.to_multiset().contains(s[k]));
    assert(v.contains(s[k]));
}

/// A quantile lies between the smallest and the largest number.
pub proof fn law_quantile_stays_in_range(v: Seq<i128>, percent: int, lo: i128, hi: i128)
    requires
        v.len() > 0,
        0 <= percent <= 100,
        forall|i: int| 0 <= i < v.len() ==> lo <= #[trigger] v[i] <= hi,
        i128::MIN <= lo * 100,
        hi * 100 <= i128::MAX,
    ensures
        quantile_of(v, percent) matches Some(q) && lo * 100 <= q.num <= hi * 100,
{
    let s = sorted_by(v, rising());
    let n = v.len() as int;
    let rank = (n - 1) * percent;
    let low = rank / 100;
    let rest = rank % 100;
    let high = if rest > 0 {
        low + 1
    } else {
        low
    };
    assert(0 <= rank <= (n - 1) * 100) by (nonlinear_arith)
        requires
            rank == (n - 1) * percent,
            0 <= percent <= 100,
            n >= 1,
    ;
    lemma_sorted_range(v, lo, hi, low);
    lemma_sorted_range(v, lo, hi, high);
    let a = s[low] as int;
    let b = s[high] as int;
    assert(lo * 100 <= a * (100 - rest) + b * rest <= hi * 100) by (nonlinear_arith)
        requires
            lo <= a <= hi,
            lo <= b <= hi,
            0 <= rest < 100,
    ;
}

} // verus!
