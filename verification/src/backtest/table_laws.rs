//! What is promised of reports and tables.
use vstd::prelude::*;
use crate::backtest::model::{
    EvaluationModel, FixedRResultModel, SimulationModel, SymbolCutoffModel, TradeModel,
    UserResultModel,
};
use crate::backtest::output::{
    cell_of, decimals_of, doubled, fields_of, first_exit, first_user, line_of, plain_lines,
    projected_r, projected_user, shortest, ten_to, user_fields, user_lines, TradeTextsModel,
};
use crate::backtest::report::{
    band_words, bucket_cells, bucket_rows, bucketed, chosen, cutoff_lines, distribution_cells,
    distribution_rows, earliest, every_row, filed, filed_all, harmless, labels_of, latest, row_of,
    share_of, trades_with_issue, PLAIN, SMALL, BucketModel,
};
use crate::backtest::stats::{number_of, stats_of, Fraction};
use crate::text::{
    all_digits, decimal, digits, digits_value, lemma_digits, lemma_push_contains, text_before,
};

verus! {

/// Text in a table keeps its length, breaks neither a row nor a cell, and is
/// otherwise as it was.
pub proof fn law_text_breaks_no_table(s: Seq<char>, k: int)
    requires
        0 <= k < s.len(),
    ensures
        harmless(s).len() == s.len(),
        harmless(s)[k] != '|' && harmless(s)[k] != '\n' && harmless(s)[k] != '\r',
        s[k] != '|' && s[k] != '\n' && s[k] != '\r' ==> harmless(s)[k] == s[k],
        s[k] == '|' ==> harmless(s)[k] == '/',
        s[k] == '\n' || s[k] == '\r' ==> harmless(s)[k] == ' ',
{
}

/// A quoted text read back: of two quotation marks in a row one stands.
pub open spec fn halved(s: Seq<char>) -> Seq<char>
    decreases s.len(),
{
    if s.len() == 0 {
        Seq::empty()
    } else if s.len() >= 2 && s.last() == '"' {
        halved(s.take(s.len() - 2)).push('"')
    } else {
        halved(s.drop_last()).push(s.last())
    }
}

/// A cell stands in quotation marks and reads back as the text that was written.
pub proof fn law_cells_read_back(s: Seq<char>)
    ensures
        cell_of(s).len() >= 2,
        cell_of(s)[0] == '"',
        cell_of(s).last() == '"',
        halved(cell_of(s).subrange(1, cell_of(s).len() - 1)) == s,
{
    reveal_strlit("\"");
    lemma_halved(s);
    assert(cell_of(s).subrange(1, cell_of(s).len() - 1) =~= doubled(s));
}

proof fn lemma_halved(s: Seq<char>)
    ensures
        halved(doubled(s)) == s,
    decreases s.len(),
{
    if s.len() > 0 {
        let front = s.drop_last();
        lemma_halved(front);
        let d = doubled(s);
        if s.last() == '"' {
            assert(d.take(d.len() - 2) =~= doubled(front));
        } else {
            assert(d.drop_last() =~= doubled(front));
        }
        assert(front.push(s.last()) =~= s);
    }
}

/// A report spans its alerts: the first time is one of an alert and none is
/// earlier, the last is one of an alert and none is later.
pub proof fn law_a_report_spans_its_alerts(trades: Seq<TradeModel>)
    requires
        trades.len() > 0,
    ensures
        exists|k: int| 0 <= k < trades.len() && (#[trigger] trades[k]).as_of_ts == earliest(trades),
        exists|k: int| 0 <= k < trades.len() && (#[trigger] trades[k]).as_of_ts == latest(trades),
        forall|k: int|
            0 <= k < trades.len() ==> earliest(trades) <= (#[trigger] trades[k]).as_of_ts <= latest(
                trades,
            ),
    decreases trades.len(),
{
    if trades.len() == 1 {
        assert(trades[0].as_of_ts == earliest(trades));
    } else {
        let rest = trades.drop_last();
        let n = trades.len() - 1;
        law_a_report_spans_its_alerts(rest);
        let a = choose|k: int|
            0 <= k < rest.len() && (#[trigger] rest[k]).as_of_ts == earliest(rest);
        let b = choose|k: int| 0 <= k < rest.len() && (#[trigger] rest[k]).as_of_ts == latest(rest);
        assert(trades[a] == rest[a] && trades[b] == rest[b]);
        assert(trades[n] == trades.last());
        assert forall|k: int| 0 <= k < trades.len() implies earliest(trades) <= (
        #[trigger] trades[k]).as_of_ts <= latest(trades) by {
            if k < n {
                assert(rest[k] == trades[k]);
            }
        }
    }
}

/// Two confidences share a band where the same of the limits fifty, sixty-five and
/// eighty lie above them.
pub proof fn law_bands_are_split_at_their_limits(a: u8, b: u8)
    ensures
        band_words(Some(a)) == band_words(Some(b)) <==> ((a < 50) == (b < 50) && (a < 65) == (b < 65)
            && (a < 80) == (b < 80)),
        band_words(None) != band_words(Some(a)),
{
    reveal_strlit("00-49");
    reveal_strlit("50-64");
    reveal_strlit("65-79");
    reveal_strlit("80-100");
    reveal_strlit("unknown");
    assert("00-49"@[0] != "50-64"@[0] && "00-49"@[0] != "65-79"@[0] && "00-49"@[0] != "80-100"@[0]);
    assert("50-64"@[0] != "65-79"@[0] && "50-64"@[0] != "80-100"@[0]);
    assert("65-79"@[0] != "80-100"@[0]);
    assert("unknown"@[0] == 'u');
    assert("00-49"@[0] == '0' && "50-64"@[0] == '5' && "65-79"@[0] == '6' && "80-100"@[0] == '8');
}

/// A row stands under a label.
pub open spec fn stands_under(groups: Seq<BucketModel>, label: Seq<char>, row: usize) -> bool {
    exists|i: int|
        0 <= i < groups.len() && (#[trigger] groups[i]).label == label && groups[i].rows.contains(
            row,
        )
}

proof fn lemma_cons(b: BucketModel, groups: Seq<BucketModel>, label: Seq<char>, row: usize)
    ensures
        stands_under(seq![b] + groups, label, row) <==> (b.label == label && b.rows.contains(row))
            || stands_under(groups, label, row),
{
    let all = seq![b] + groups;
    assert(all[0] == b);
    if stands_under(groups, label, row) {
        let i = choose|i: int|
            0 <= i < groups.len() && (#[trigger] groups[i]).label == label
                && groups[i].rows.contains(row);
        assert(all[i + 1] == groups[i]);
    }
    if stands_under(all, label, row) {
        let i = choose|i: int|
            0 <= i < all.len() && (#[trigger] all[i]).label == label && all[i].rows.contains(row);
        if i > 0 {
            assert(groups[i - 1] == all[i]);
        }
    }
}

/// Filing a row puts it under its label, and moves nothing else.
pub proof fn law_a_filed_row_stands_under_its_label(
    groups: Seq<BucketModel>,
    key: Seq<char>,
    row: usize,
    label: Seq<char>,
    other: usize,
)
    ensures
        stands_under(filed(groups, key, row), label, other) <==> (label == key && other == row)
            || stands_under(groups, label, other),
    decreases groups.len(),
{
    if groups.len() == 0 || text_before(key, groups[0].label) {
        let b = BucketModel { label: key, rows: seq![row] };
        lemma_cons(b, groups, label, other);
        assert(b.rows[0] == row);
    } else if groups[0].label == key {
        let b = BucketModel { label: key, rows: groups[0].rows.push(row) };
        lemma_push_contains(groups[0].rows, row, other);
        lemma_cons(b, groups.drop_first(), label, other);
        lemma_cons(groups[0], groups.drop_first(), label, other);
        assert(seq![groups[0]] + groups.drop_first() =~= groups);
    } else {
        law_a_filed_row_stands_under_its_label(groups.drop_first(), key, row, label, other);
        lemma_cons(groups[0], filed(groups.drop_first(), key, row), label, other);
        lemma_cons(groups[0], groups.drop_first(), label, other);
        assert(seq![groups[0]] + groups.drop_first() =~= groups);
    }
}

proof fn lemma_filed_all(
    groups: Seq<BucketModel>,
    labels: Seq<Seq<char>>,
    row: usize,
    label: Seq<char>,
    other: usize,
)
    ensures
        stands_under(filed_all(groups, labels, row), label, other) <==> (labels.contains(label)
            && other == row) || stands_under(groups, label, other),
    decreases labels.len(),
{
    if labels.len() > 0 {
        let front = labels.drop_last();
        lemma_filed_all(groups, front, row, label, other);
        law_a_filed_row_stands_under_its_label(
            filed_all(groups, front, row),
            labels.last(),
            row,
            label,
            other,
        );
        lemma_push_contains(front, labels.last(), label);
        assert(front.push(labels.last()) =~= labels);
    }
}

/// A report files every alert under each of its labels and under no other, and all
/// of them together.
pub proof fn law_alerts_are_filed_under_their_labels(
    trades: Seq<TradeModel>,
    detailed: bool,
    label: Seq<char>,
    row: usize,
)
    requires
        trades.len() <= usize::MAX,
    ensures
        stands_under(bucketed(trades, trades.len(), detailed), label, row) <==> row < trades.len()
            && (label == "全部"@ || labels_of(trades[row as int], detailed).contains(label)),
{
    lemma_bucketed(trades, trades.len(), detailed, label, row);
}

proof fn lemma_bucketed(
    trades: Seq<TradeModel>,
    n: nat,
    detailed: bool,
    label: Seq<char>,
    row: usize,
)
    requires
        n <= trades.len() <= usize::MAX,
    ensures
        stands_under(bucketed(trades, n, detailed), label, row) <==> row < trades.len() && (label
            == "全部"@ || (row < n && labels_of(trades[row as int], detailed).contains(label))),
    decreases n,
{
    if n == 0 {
        let b = BucketModel { label: "全部"@, rows: every_row(trades.len()) };
        lemma_cons(b, Seq::empty(), label, row);
        assert(seq![b] + Seq::<BucketModel>::empty() =~= seq![b]);
        if row < trades.len() {
            assert(b.rows[row as int] == row);
        }
        if b.rows.contains(row) {
            let k = choose|k: int| 0 <= k < b.rows.len() && b.rows[k] == row;
            assert(b.rows[k] == k as usize);
        }
    } else {
        let m = (n - 1) as nat;
        lemma_bucketed(trades, m, detailed, label, row);
        lemma_filed_all(
            bucketed(trades, m, detailed),
            labels_of(trades[n - 1], detailed),
            m as usize,
            label,
            row,
        );
    }
}

/// The labels of an alert name its direction, instrument, session and confidence;
/// in detail also its quality and slot, and all of them together.
pub proof fn law_labels_name_every_dimension(t: TradeModel)
    ensures
        labels_of(t, false).len() == 4,
        labels_of(t, true).len() == 7,
        labels_of(t, true).take(4) == labels_of(t, false),
        labels_of(t, false).contains("方向"@ + "="@ + t.direction),
        labels_of(t, false).contains("品种"@ + "="@ + t.symbol),
        labels_of(t, false).contains("session"@ + "="@ + t.session),
        labels_of(t, false).contains("置信度"@ + "="@ + band_words(t.confidence)),
        labels_of(t, true).contains("质量"@ + "="@ + t.quality),
        labels_of(t, true).contains("每周时段"@ + "="@ + t.weekly_slot),
{
    let short = labels_of(t, false);
    let long = labels_of(t, true);
    assert(long.take(4) =~= short);
    assert(short[0] == "方向"@ + "="@ + t.direction);
    assert(short[1] == "品种"@ + "="@ + t.symbol);
    assert(short[2] == "session"@ + "="@ + t.session);
    assert(short[3] == "置信度"@ + "="@ + band_words(t.confidence));
    assert(long[4] == "质量"@ + "="@ + t.quality);
    assert(long[5] == "每周时段"@ + "="@ + t.weekly_slot);
}

/// The alerts with an issue are counted once each.
pub proof fn law_issues_are_counted(trades: Seq<TradeModel>, issue: Seq<char>)
    ensures
        trades_with_issue(trades, issue) == trades.filter(
            |t: TradeModel| t.data_issues.contains(issue),
        ).len(),
    decreases trades.len(),
{
    let p = |t: TradeModel| t.data_issues.contains(issue);
    reveal(Seq::filter);
    if trades.len() > 0 {
        law_issues_are_counted(trades.drop_last(), issue);
    }
}

/// A share is the part over the whole.
pub proof fn law_shares_are_of_the_whole(part: usize, whole: usize)
    ensures
        whole == 0 <==> share_of(part, whole) is None,
        whole > 0 ==> (share_of(part, whole) matches Some(f) && f.num * whole == f.den * part
            && f.den > 0),
{
    if whole > 0 {
        assert(part * whole == whole * part) by (nonlinear_arith);
    }
}

/// The first result with a whole multiple is found.
pub proof fn law_exits_are_found(list: Seq<FixedRResultModel>, r: u8, i: int)
    requires
        0 <= i < list.len(),
        list[i].multiple == r,
        forall|j: int| 0 <= j < i ==> (#[trigger] list[j]).multiple != r,
    ensures
        first_exit(list, r) == Some(list[i].simulation),
    decreases i,
{
    if i > 0 {
        assert(list[0].multiple != r);
        let rest = list.drop_first();
        assert forall|j: int| 0 <= j < i - 1 implies (#[trigger] rest[j]).multiple != r by {
            assert(rest[j] == list[j + 1]);
        }
        law_exits_are_found(rest, r, i - 1);
    }
}

/// The first place of the grid with a buffer and a multiple is found.
pub proof fn law_places_are_found(list: Seq<UserResultModel>, buffer: u8, multiple: u32, i: int)
    requires
        0 <= i < list.len(),
        list[i].buffer_points == buffer,
        list[i].multiple == multiple,
        forall|j: int|
            0 <= j < i ==> !((#[trigger] list[j]).buffer_points == buffer && list[j].multiple
                == multiple),
    ensures
        first_user(list, buffer, multiple) == Some(list[i]),
    decreases i,
{
    if i > 0 {
        assert(!(list[0].buffer_points == buffer && list[0].multiple == multiple));
        let rest = list.drop_first();
        assert forall|j: int| 0 <= j < i - 1 implies !((#[trigger] rest[j]).buffer_points == buffer
            && rest[j].multiple == multiple) by {
            assert(rest[j] == list[j + 1]);
        }
        law_places_are_found(rest, buffer, multiple, i - 1);
    }
}

/// A run seen through one exit has that exit's result for every alert.
pub proof fn law_projections_show_their_exit(
    e: EvaluationModel,
    r: u8,
    buffer: u8,
    multiple: u32,
    k: int,
    i: int,
)
    requires
        0 <= k < e.trades.len(),
    ensures
        ({
            let x = projected_r(e, r).trades[k];
            let y = projected_user(e, buffer, multiple).trades[k];
            let t = e.trades[k];
            &&& projected_r(e, r).trades.len() == e.trades.len()
            &&& x.alert_id == t.alert_id && y.alert_id == t.alert_id
            &&& x.as_of_ts == t.as_of_ts && y.as_of_ts == t.as_of_ts
            &&& 0 <= i < t.fixed_r.len() && t.fixed_r[i].multiple == r && (forall|j: int|
                0 <= j < i ==> (#[trigger] t.fixed_r[j]).multiple != r) ==> x.simulation
                == t.fixed_r[i].simulation
            &&& 0 <= i < t.user_v1.len() && t.user_v1[i].buffer_points == buffer
                && t.user_v1[i].multiple == multiple && (forall|j: int|
                0 <= j < i ==> !((#[trigger] t.user_v1[j]).buffer_points == buffer
                    && t.user_v1[j].multiple == multiple)) ==> y.simulation
                == t.user_v1[i].simulation
        }),
{
    let t = e.trades[k];
    if 0 <= i < t.fixed_r.len() && t.fixed_r[i].multiple == r && (forall|j: int|
        0 <= j < i ==> (#[trigger] t.fixed_r[j]).multiple != r) {
        law_exits_are_found(t.fixed_r, r, i);
    }
    if 0 <= i < t.user_v1.len() && t.user_v1[i].buffer_points == buffer && t.user_v1[i].multiple
        == multiple && (forall|j: int|
        0 <= j < i ==> !((#[trigger] t.user_v1[j]).buffer_points == buffer && t.user_v1[j].multiple
            == multiple)) {
        law_places_are_found(t.user_v1, buffer, multiple, i);
    }
}

proof fn lemma_power(a: nat, b: nat)
    ensures
        ten_to(a + b) == ten_to(a) * ten_to(b),
        ten_to(a) > 0,
    decreases a,
{
    if a > 0 {
        lemma_power((a - 1) as nat, b);
        let x = ten_to((a - 1) as nat);
        let y = ten_to(b);
        assert((a - 1) as nat + b == (a + b - 1) as nat);
        assert(10 * (x * y) == (10 * x) * y) by (nonlinear_arith);
        assert(ten_to(a) == 10 * x);
        assert(ten_to(a + b) == 10 * ten_to((a + b - 1) as nat));
    } else {
        assert(ten_to(b) == 1 * ten_to(b));
    }
}

proof fn lemma_value_of_cons(c: char, t: Seq<char>)
    requires
        '0' <= c && c <= '9',
    ensures
        digits_value(seq![c] + t) == (c as nat - '0' as nat) * ten_to(t.len()) + digits_value(t),
    decreases t.len(),
{
    let s = seq![c] + t;
    if t.len() == 0 {
        assert(s.drop_last() =~= Seq::<char>::empty());
        assert(s.last() == c);
        reveal_with_fuel(digits_value, 2);
        let d = c as nat - '0' as nat;
        assert(d * 1 == d) by (nonlinear_arith);
        assert(ten_to(t.len()) == 1);
    } else {
        let front = t.drop_last();
        lemma_value_of_cons(c, front);
        assert(s.drop_last() =~= seq![c] + front);
        assert(s.last() == t.last());
        let d = c as nat - '0' as nat;
        let p = ten_to(front.len()) as int;
        let v = digits_value(front) as int;
        assert((d * p + v) * 10 == d * (10 * p) + v * 10) by (nonlinear_arith);
        assert(ten_to(t.len()) == 10 * p);
    }
}

/// The decimals of a number are digits that give its fractional part, and the last
/// of them is not zero.
pub proof fn law_decimals_give_the_fraction(rest: nat, places: nat)
    requires
        rest < ten_to(places),
    ensures
        ({
            let s = decimals_of(rest, places);
            &&& s.len() <= places
            &&& all_digits(s)
            &&& digits_value(s) * ten_to((places - s.len()) as nat) == rest
            &&& s.len() > 0 <==> rest > 0
            &&& s.len() > 0 ==> s.last() != '0'
        }),
    decreases places,
{
    let s = decimals_of(rest, places);
    if rest == 0 || places == 0 {
        assert(digits_value(s) * ten_to((places - s.len()) as nat) == 0) by (nonlinear_arith)
            requires
                digits_value(s) == 0,
        ;
    } else {
        let less = (places - 1) as nat;
        let unit = ten_to(less);
        lemma_power(less, 0);
        let d = rest / unit;
        let left = rest % unit;
        assert(rest == unit * d + left && left < unit && d < 10) by (nonlinear_arith)
            requires
                unit > 0,
                d == rest / unit,
                left == rest % unit,
                rest < 10 * unit,
        ;
        law_decimals_give_the_fraction(left, less);
        let t = decimals_of(left, less);
        let c = (('0' as u32) + d) as char;
        assert(s == seq![c] + t);
        assert(c as nat - '0' as nat == d);
        lemma_value_of_cons(c, t);
        let gap = (less - t.len()) as nat;
        assert((places - s.len()) as nat == gap);
        lemma_power(t.len(), gap);
        assert(t.len() + gap == less);
        let p = ten_to(t.len()) as int;
        let g = ten_to(gap) as int;
        let v = digits_value(t) as int;
        assert((d * p + v) * g == d * (p * g) + v * g) by (nonlinear_arith);
        assert(d * unit == unit * d) by (nonlinear_arith);
        assert forall|k: int| 0 <= k < s.len() implies '0' <= #[trigger] s[k] && s[k] <= '9' by {
            if k > 0 {
                assert(s[k] == t[k - 1]);
            }
        }
        if t.len() > 0 {
            assert(s.last() == t.last());
        } else {
            assert(left == 0);
            assert(d > 0) by (nonlinear_arith)
                requires
                    rest == unit * d + left,
                    left == 0,
                    rest > 0,
            ;
            assert(s.last() == c);
        }
    }
}

/// A number is written as its sign, its whole part, and its decimals where it has
/// any.
pub proof fn law_numbers_are_written_exactly(n: int, places: nat)
    ensures
        ({
            let s = shortest(n, places);
            let scale = ten_to(places);
            let m = (if n < 0 {
                -n
            } else {
                n
            }) as nat;
            let from: int = if n < 0 {
                1
            } else {
                0
            };
            let whole = digits(m / scale);
            &&& scale > 0
            &&& digits_value(whole) == m / scale
            &&& all_digits(whole)
            &&& n < 0 ==> s[0] == '-'
            &&& s.len() >= from + whole.len()
            &&& s.subrange(from, from + whole.len()) == whole
            &&& m % scale == 0 ==> s.len() == from + whole.len()
            &&& m % scale != 0 ==> s[from + whole.len()] == '.' && s.skip(from + whole.len() + 1)
                == decimals_of(m % scale, places)
        }),
{
    reveal_strlit("-");
    reveal_strlit(".");
    lemma_power(places, 0);
    let s = shortest(n, places);
    let scale = ten_to(places);
    let m = (if n < 0 {
        -n
    } else {
        n
    }) as nat;
    let from: int = if n < 0 {
        1
    } else {
        0
    };
    let whole = digits(m / scale);
    lemma_digits(m / scale);
    assert(s.subrange(from, from + whole.len()) =~= whole);
    if m % scale != 0 {
        assert(s.skip(from + whole.len() + 1) =~= decimals_of(m % scale, places));
    }
}

/// A run seen through a fixed exit counts as one with fixed exits, unless it has the
/// grid beside them.
pub proof fn law_projections_keep_their_mode(e: EvaluationModel, r: u8, buffer: u8, multiple: u32)
    ensures
        projected_r(e, r).parameters.mode is UserV1 <==> e.parameters.mode is UserV1,
        projected_r(e, r).parameters.mode is Targets ==> false,
        projected_user(e, buffer, multiple).parameters == e.parameters,
        projected_r(e, r).run_id == e.run_id,
        projected_r(e, r).symbol_cutoffs == e.symbol_cutoffs,
        projected_r(e, r).source_cutoff_ts == e.source_cutoff_ts,
{
}

/// A text stands in another.
pub open spec fn stands_in(part: Seq<char>, s: Seq<char>) -> bool {
    exists|i: int| 0 <= i && i + part.len() <= s.len() && #[trigger] s.skip(i).take(
        part.len() as int,
    ) == part
}

proof fn lemma_stands_last(a: Seq<char>, b: Seq<char>)
    ensures
        stands_in(b, a + b),
{
    assert((a + b).skip(a.len() as int).take(b.len() as int) =~= b);
}

proof fn lemma_still_stands(part: Seq<char>, a: Seq<char>, b: Seq<char>)
    requires
        stands_in(part, a),
    ensures
        stands_in(part, a + b),
{
    let i = choose|i: int|
        0 <= i && i + part.len() <= a.len() && #[trigger] a.skip(i).take(part.len() as int) == part;
    assert((a + b).skip(i).take(part.len() as int) =~= a.skip(i).take(part.len() as int));
}

/// The table of trades has a line for every alert.
pub proof fn law_every_alert_has_a_line(
    e: EvaluationModel,
    texts: Seq<TradeTextsModel>,
    issues: Seq<Seq<char>>,
    multiple: Option<u32>,
    n: nat,
    k: int,
)
    requires
        0 <= k < n,
    ensures
        stands_in(
            line_of(fields_of(e, e.trades[k], texts[k], issues[k], multiple, true)),
            plain_lines(e, texts, issues, multiple, n),
        ),
    decreases n,
{
    let m = (n - 1) as nat;
    let before = plain_lines(e, texts, issues, multiple, m);
    let own = line_of(fields_of(e, e.trades[n - 1], texts[n - 1], issues[n - 1], multiple, true));
    if k < m {
        law_every_alert_has_a_line(e, texts, issues, multiple, m, k);
        lemma_still_stands(
            line_of(fields_of(e, e.trades[k], texts[k], issues[k], multiple, true)),
            before,
            own,
        );
    } else {
        lemma_stands_last(before, own);
    }
}

/// A place of the grid has a line for every alert, with its stop and its target.
pub proof fn law_every_place_has_its_lines(
    e: EvaluationModel,
    texts: Seq<TradeTextsModel>,
    issues: Seq<Seq<char>>,
    buffer: u8,
    multiple: u32,
    n: nat,
    k: int,
)
    requires
        0 <= k < n,
    ensures
        stands_in(
            line_of(
                fields_of(e, e.trades[k], texts[k], issues[k], Some(multiple), false) + user_fields(
                    first_user(e.trades[k].user_v1, buffer, multiple)->0,
                    buffer,
                ),
            ),
            user_lines(e, texts, issues, buffer, multiple, n),
        ),
    decreases n,
{
    let m = (n - 1) as nat;
    let before = user_lines(e, texts, issues, buffer, multiple, m);
    let line = |j: int|
        line_of(
            fields_of(e, e.trades[j], texts[j], issues[j], Some(multiple), false) + user_fields(
                first_user(e.trades[j].user_v1, buffer, multiple)->0,
                buffer,
            ),
        );
    assert(user_lines(e, texts, issues, buffer, multiple, n) == before + line(n - 1));
    if k < m {
        law_every_place_has_its_lines(e, texts, issues, buffer, multiple, m, k);
        lemma_still_stands(line(k), before, line(n - 1));
    } else {
        lemma_stands_last(before, line(n - 1));
    }
}

/// The columns of an alert: who it is, what it came to, and what it earned.
pub proof fn law_columns_hold_their_values(
    e: EvaluationModel,
    t: TradeModel,
    x: TradeTextsModel,
    issues: Seq<char>,
    multiple: Option<u32>,
    control: bool,
)
    ensures
        ({
            let f = fields_of(e, t, x, issues, multiple, control);
            &&& f.len() == 33
            &&& f[2] == e.run_id
            &&& f[3] == t.alert_id
            &&& f[4] == t.candidate_id
            &&& f[5] == t.smt_id
            &&& f[6] == t.watchlist_id
            &&& f[7] == t.symbol
            &&& f[8] == decimal(t.as_of_ts as int)
            &&& f[9] == t.direction
            &&& f[11] == t.quality
            &&& f[12] == t.session
            &&& f[13] == t.weekly_slot
            &&& f[14] == decimal(t.holding_bars as int)
            &&& f[16] == t.simulation.reason
            &&& t.simulation.entry matches Some(v) ==> f[17] == shortest(v as int, 9)
            &&& t.simulation.entry_ts matches Some(v) ==> f[18] == decimal(v as int)
            &&& t.simulation.exit_ts matches Some(v) ==> f[19] == decimal(v as int)
            &&& t.simulation.realized_rr matches Some(v) ==> f[20] == shortest(v as int, 18)
            &&& t.simulation.floating_rr matches Some(v) ==> f[21] == shortest(v as int, 18)
            &&& t.simulation.mfe_rr matches Some(v) ==> f[22] == shortest(v as int, 18)
            &&& t.simulation.mae_rr matches Some(v) ==> f[23] == shortest(v as int, 18)
            &&& t.simulation.realized_rr is None ==> f[20].len() == 0
            &&& t.simulation.mfe_rr is None ==> f[22].len() == 0
            &&& f[27] == x.planned_rr
            &&& f[28] == x.guardrails_json
            &&& f[30] == issues
            &&& f[31] == decimal(t.available_future_m1 as int)
            &&& f[32] == x.anchor_gap_json
        }),
{
}

/// The statistics of a report have a row for every label.
pub proof fn law_every_label_has_its_row(trades: Seq<TradeModel>, groups: Seq<BucketModel>, k: int)
    requires
        0 <= k < groups.len(),
    ensures
        stands_in(
            row_of(bucket_cells(groups[k].label, chosen(trades, groups[k].rows))),
            bucket_rows(trades, groups),
        ),
        stands_in(
            row_of(distribution_cells(groups[k].label, chosen(trades, groups[k].rows))),
            distribution_rows(trades, groups),
        ),
    decreases groups.len(),
{
    let rest = groups.drop_last();
    let b = groups.last();
    let own = row_of(bucket_cells(b.label, chosen(trades, b.rows)));
    let other = row_of(distribution_cells(b.label, chosen(trades, b.rows)));
    if k < rest.len() {
        assert(rest[k] == groups[k]);
        law_every_label_has_its_row(trades, rest, k);
        lemma_still_stands(
            row_of(bucket_cells(groups[k].label, chosen(trades, groups[k].rows))),
            bucket_rows(trades, rest),
            own,
        );
        lemma_still_stands(
            row_of(distribution_cells(groups[k].label, chosen(trades, groups[k].rows))),
            distribution_rows(trades, rest),
            other,
        );
    } else {
        lemma_stands_last(bucket_rows(trades, rest), own);
        lemma_stands_last(distribution_rows(trades, rest), other);
    }
}

/// A row of statistics says how many alerts there are, how many were decided, the
/// share of wins among those, and a warning below ten.
pub proof fn law_small_samples_are_marked(label: Seq<char>, rows: Seq<SimulationModel>)
    ensures
        ({
            let s = stats_of(rows);
            let cells = bucket_cells(label, rows);
            &&& cells.len() == 13
            &&& cells[1] == decimal(s.n as int)
            &&& cells[2] == decimal(s.resolved as int)
            &&& s.resolved > 0 ==> cells[3] == number_of(
                Some(Fraction { num: s.wins as i128, den: s.resolved as i128 }),
            )
            &&& cells[4] == number_of(s.mean)
            &&& cells[5] == number_of(s.median)
            &&& cells[6] == number_of(s.profit_factor)
            &&& cells[8] == number_of(s.mfe)
            &&& cells[9] == number_of(s.mae)
            &&& s.n >= 10 && s.resolved >= 10 <==> cells[12] != SMALL@
            &&& distribution_cells(label, rows)[1] == decimal(rows.len() as int)
            &&& s.resolved < 10 ==> distribution_cells(label, rows)[9] == SMALL@
        }),
{
    reveal_strlit("小样本，不可下结论");
    reveal_strlit("描述性统计");
    assert(SMALL@.len() == 9 && PLAIN@.len() == 5);
}

/// Every instrument of a run has the time up to which it was known.
pub proof fn law_every_cutoff_has_its_line(
    cutoffs: Seq<SymbolCutoffModel>,
    texts: Seq<Seq<char>>,
    k: int,
)
    requires
        0 <= k < cutoffs.len(),
    ensures
        stands_in(cutoffs[k].symbol, cutoff_lines(cutoffs, texts)),
        stands_in(texts[k], cutoff_lines(cutoffs, texts)),
    decreases cutoffs.len(),
{
    let rest = cutoffs.drop_last();
    let n = cutoffs.len() - 1;
    let before = cutoff_lines(rest, texts);
    let all = cutoff_lines(cutoffs, texts);
    if k < n {
        assert(rest[k] == cutoffs[k]);
        law_every_cutoff_has_its_line(rest, texts, k);
        let own = "- "@ + cutoffs.last().symbol + "："@ + texts[n] + "\n"@;
        assert(all =~= before + own);
        lemma_still_stands(cutoffs[k].symbol, before, own);
        lemma_still_stands(texts[k], before, own);
    } else {
        let a = before + "- "@;
        lemma_stands_last(a, cutoffs[n].symbol);
        let rest_of = "："@ + texts[n] + "\n"@;
        lemma_still_stands(cutoffs[n].symbol, a + cutoffs[n].symbol, rest_of);
        assert(all =~= a + cutoffs[n].symbol + rest_of);
        let b = a + cutoffs[n].symbol + "："@;
        lemma_stands_last(b, texts[n]);
        lemma_still_stands(texts[n], b + texts[n], "\n"@);
        assert(all =~= b + texts[n] + "\n"@);
    }
}

} // verus!
