//! The report of a run: outcomes, data issues and statistics by bucket.
use vstd::prelude::*;
use crate::backtest::model::{
    Evaluation, EvaluationModel, Outcome, Simulation, SimulationModel, SymbolCutoffModel, Trade,
    TradeModel,
};
use crate::backtest::stats::{
    are_countable, average, average_of, collect, collected, count, count_of, count_ran, countable,
    heft, lemma_heft_of_some, magnitude, measured, number, number_of, printable, quantile, quantile_of, ran_count,
    stats, stats_of, Fraction, Measure, MAX_ROWS, SUM_LIMIT,
};
use crate::text::{
    chars_of, decimal, join, joined, lemma_text_order, list_has, owned, push_decimal, text_before,
    text_eq, text_lt,
};

verus! {

/// How the ends of the data are treated.
pub const CUTOFF_NOTE: &'static str = "各品种独立收盘截止（UTC）：每个品种仅使用开盘时间早于自身截止的 M1；最新一根视为可能未收盘。自身序列耗尽记 insufficient_data，序列内部缺分钟记 data_gap。\n\n";

/// What a report says with too few finished positions.
pub const TOO_FEW: &'static str = "**已完成交易样本不足 10，不能判断这些告警是否有优势。** 数据不足、无目标或缺失证据不代表策略输赢。\n\n";

/// What a report says with enough finished positions.
pub const DESCRIPTIVE: &'static str = "**以下仅描述已记录告警在指定假设下的样本表现，不据此认定稳定优势。** 尚未覆盖成本与多个市场状态；本报告没有改动策略或阈值。\n\n";

/// Head of the table of outcomes.
pub const OUTCOME_HEAD: &'static str = "## 总结局分布与数据体检\n\n| 结局 | 样本量 |\n| --- | ---: |\n";

/// How the outcomes are counted.
pub const OUTCOME_NOTE: &'static str = "\nambiguous 属于未入场 skip 口径，但上表独立展示、不重复计数。data_gap / insufficient_data / excluded 均不进入胜率、realized RR 或 profit factor。\n\n数据体检按问题分别计数，同一告警可能有多个问题，以下计数不可相加当作告警总数。\n\n";

/// Head of the table of gaps.
pub const GAP_HEAD: &'static str = "### 锚点 M1 缺失分类\n\n| 类别 | 告警数 |\n| --- | ---: |\n";

/// What the gaps mean.
pub const GAP_NOTE: &'static str = "\nCSV anchor_gap_json 保存首末覆盖、前后相邻分钟及比较周期收盘是否存在。高周期 OHLC 无法唯一还原分钟路径；本次不插值、不回填生产。外部历史源能否补齐需以其实际返回为准，不能仅凭存在高周期数据认定可恢复。\n\n";

/// Head of the table of issues.
pub const REASON_HEAD: &'static str = "| 不参与收益统计的原因 | 样本量 |\n| --- | ---: |\n";

/// Head of the table of buckets.
pub const BUCKET_HEAD: &'static str = "\n## 总体与分桶统计\n\n胜率 = win/(win+loss)；RR 均值、中位数及 profit factor 仅使用 win/loss；PF = 正 RR 总和 / 负 RR 绝对值总和，无亏损时记 N/A。expired 只报告期末浮动 RR，不假设强制平仓。MFE/MAE 单位为初始风险 R，统计完整结局 win/loss/expired，分别给出样本量。\n\n| 分桶 | N | win/loss N | 胜率 | RR均值 | RR中位数 | PF | MFE/MAE N | avg MFE | avg MAE | expired N | avg浮动RR | 提示 |\n| --- | ---: | ---: | ---: | ---: | ---: | ---: | ---: | ---: | ---: | ---: | ---: | --- |\n";

/// Assumptions and limits of the simulation.
pub const ASSUMPTIONS: &'static str = "## 模拟假设与限制\n\n- 生产只读；首轮成功结果冻结在独立 eval 库。相同参数/cohort 重跑复用冻结结果；新数据使用新 `--cohort`，不会悄悄改写旧报告。最新一根 M1 视为可能未收盘，不进入模拟。\n- 告警行是决策单元；跨品种/同 SMT 告警可能相关，不能当独立随机样本。历史补录告警也纳入，本报告评估市场锚点的理论交易，不等于当时用户实际收到通知后的可执行收益。\n- 使用告警 created_at 市场时间；同一 Context Packer 的显式 as-of 路径裁剪未来 K/C3/结构。护栏复算自现存历史证据，证据后来被覆盖或修订的偏差无法凭空消除。\n- 入场窗口 W 默认 288 根 M1。H 默认 5×比较周期分钟数，从成交后计；沿用 TTL 长度，不使用后来出现的 C3/expiry_at 推断过去的持有期。\n- 锚点价格取恰在锚点收盘的 M1 close；在区间内立即成交。后续触区间用不利边界，多头 high / 空头 low。跳空未覆盖入场区不臆造成交；触止损仍按规则 -1R，不建模滑点。\n- 同根入场与止损：ambiguous，未入场。同根目标与止损：loss。盘中入场根不授予目标命中；从下一根完整 M1 开始持有计数，避免假设该根高低点发生在入场后。\n- time_to_entry 从告警算起；time_to_target/stop 从成交算起，单位毫秒，触价时间记录该 M1 收盘边界，精度为一分钟。\n- MFE/MAE 为保守可确认的路径幅度：盘中入场根忽略，终止根只纳入退出价，不将退出后的极值算进持仓；不是 tick 精度的精确极值。\n- 缺失分钟立即标 data_gap；包括无法区分的休市间隔，不跨缺口猜测结局。数据尾部未覆盖至结局为 insufficient_data，不伪装为 expired/no_fill。\n- Session 使用纽约本地时间（自动 DST）：Asia 20–24；London 02–05、10–12；NY 07–10；其余 Off-hours，沿用项目 session 窗口。每周时段为纽约星期×4小时。\n- 不含点差、佣金、滑点、资金管理；约三个月夏季市场窗口存在选择/生存偏差。小样本与相关样本不能支持精细归因或外推。\n";

/// Head of the table of distributions.
pub const DISTRIBUTION_HEAD: &'static str = "| 分桶 | 告警 N | 完整持仓 N | 先触目标率 | win/loss胜率 | 结算期望 R | 含到期期望 R | MFE P25/P50/P75/P90 | MAE P25/P50/P75/P90 | 提示 |\n| --- | ---: | ---: | ---: | ---: | ---: | ---: | --- | --- | --- |\n";

/// Hint at a small sample.
pub const SMALL: &'static str = "小样本，不可下结论";

/// Hint at a sample that is large enough to describe.
pub const PLAIN: &'static str = "描述性统计";

/// Rows under one label, in order.
#[derive(Debug)]
pub struct Bucket {
    pub label: String,
    pub rows: Vec<usize>,
}

/// Mathematical content of a [`Bucket`].
pub struct BucketModel {
    pub label: Seq<char>,
    pub rows: Seq<usize>,
}

impl View for Bucket {
    type V = BucketModel;

    open spec fn view(&self) -> BucketModel {
        BucketModel {
            label: self.label@,
            rows: self.rows@,
        }
    }
}

impl DeepView for Bucket {
    type V = BucketModel;

    open spec fn deep_view(&self) -> BucketModel {
        self@
    }
}

impl Clone for Bucket {
    fn clone(&self) -> (r: Self)
        ensures
            r@ == self@,
    {
        let r = Bucket {
            label: self.label.clone(),
            rows: self.rows.clone(),
        };
        assert(r.rows@ =~= self.rows@);
        r
    }
}

/// Times of a run as text.
#[derive(Debug)]
pub struct ReportTimes {
    /// Latest end of the data of any instrument.
    pub cutoff: String,
    /// Ends of the data, one per instrument.
    pub cutoffs: Vec<String>,
    /// First alert.
    pub first: String,
    /// Last alert.
    pub last: String,
}

/// Mathematical content of a [`ReportTimes`].
pub struct ReportTimesModel {
    pub cutoff: Seq<char>,
    pub cutoffs: Seq<Seq<char>>,
    pub first: Seq<char>,
    pub last: Seq<char>,
}

impl View for ReportTimes {
    type V = ReportTimesModel;

    open spec fn view(&self) -> ReportTimesModel {
        ReportTimesModel {
            cutoff: self.cutoff@,
            cutoffs: self.cutoffs.deep_view(),
            first: self.first@,
            last: self.last@,
        }
    }
}

impl DeepView for ReportTimes {
    type V = ReportTimesModel;

    open spec fn deep_view(&self) -> ReportTimesModel {
        self@
    }
}

impl Clone for ReportTimes {
    fn clone(&self) -> (r: Self)
        ensures
            r@ == self@,
    {
        let r = ReportTimes {
            cutoff: self.cutoff.clone(),
            cutoffs: self.cutoffs.clone(),
            first: self.first.clone(),
            last: self.last.clone(),
        };
        assert(r.cutoffs.deep_view() =~= self.cutoffs.deep_view());
        r
    }
}

/// Date and time of an instant in UTC as RFC 3339 writes it; absent outside
/// the calendar of `chrono`.
pub uninterp spec fn rfc3339_of(ts: i64) -> Option<Seq<char>>;

/// Reads an instant with `chrono::DateTime::from_timestamp_millis` and writes
/// it with `to_rfc3339`. Claimed of it: the text is a function of the instant.
#[verifier::external_body]
fn rfc3339(ts: i64) -> (r: Option<String>)
    ensures
        r.deep_view() == rfc3339_of(ts),
{
    chrono::DateTime::from_timestamp_millis(ts).map(|t| t.to_rfc3339())
}

/// An instant as a report writes it, given its RFC 3339 text.
pub open spec fn time_words(ts: i64, text: Option<Seq<char>>) -> Seq<char> {
    match text {
        Some(t) => t,
        None => decimal(ts as int),
    }
}

fn timestamp(ts: i64) -> (r: String)
    ensures
        r@ == time_words(ts, rfc3339_of(ts)),
{
    match rfc3339(ts) {
        Some(t) => t,
        None => crate::text::decimal_text(ts),
    }
}

/// The earliest alert of a prefix; 0 without any.
pub open spec fn earliest(trades: Seq<TradeModel>) -> int
    decreases trades.len(),
{
    if trades.len() == 0 {
        0
    } else if trades.len() == 1 {
        trades[0].as_of_ts as int
    } else {
        let rest = earliest(trades.drop_last());
        if trades.last().as_of_ts < rest {
            trades.last().as_of_ts as int
        } else {
            rest
        }
    }
}

/// The latest alert of a prefix; 0 without any.
pub open spec fn latest(trades: Seq<TradeModel>) -> int
    decreases trades.len(),
{
    if trades.len() == 0 {
        0
    } else if trades.len() == 1 {
        trades[0].as_of_ts as int
    } else {
        let rest = latest(trades.drop_last());
        if trades.last().as_of_ts > rest {
            trades.last().as_of_ts as int
        } else {
            rest
        }
    }
}

/// The times of a run as text.
pub open spec fn times_of(e: EvaluationModel) -> ReportTimesModel {
    ReportTimesModel {
        cutoff: time_words(e.source_cutoff_ts, rfc3339_of(e.source_cutoff_ts)),
        cutoffs: Seq::new(
            e.symbol_cutoffs.len(),
            |k: int| time_words(e.symbol_cutoffs[k].cutoff, rfc3339_of(e.symbol_cutoffs[k].cutoff)),
        ),
        first: time_words(earliest(e.trades) as i64, rfc3339_of(earliest(e.trades) as i64)),
        last: time_words(latest(e.trades) as i64, rfc3339_of(latest(e.trades) as i64)),
    }
}

/// Writes the times of a run.
pub fn report_times(e: &Evaluation) -> (r: ReportTimes)
    ensures
        r@ == times_of(e@),
{
    let mut cutoffs: Vec<String> = Vec::new();
    let mut i: usize = 0;
    while i < e.symbol_cutoffs.len()
        invariant
            i <= e.symbol_cutoffs.len(),
            cutoffs.len() == i,
            forall|k: int|
                0 <= k < i ==> #[trigger] cutoffs@[k]@ == time_words(
                    e.symbol_cutoffs@[k].cutoff,
                    rfc3339_of(e.symbol_cutoffs@[k].cutoff),
                ),
        decreases e.symbol_cutoffs.len() - i,
    {
        cutoffs.push(timestamp(e.symbol_cutoffs[i].cutoff));
        i += 1;
    }
    assert(cutoffs.deep_view() =~= times_of(e@).cutoffs);
    let mut first: i64 = 0;
    let mut last: i64 = 0;
    let mut j: usize = 0;
    while j < e.trades.len()
        invariant
            j <= e.trades.len(),
            first == earliest(e.trades.deep_view().take(j as int)),
            last == latest(e.trades.deep_view().take(j as int)),
        decreases e.trades.len() - j,
    {
        let ts: i64 = e.trades[j].as_of_ts;
        proof {
            let now = e.trades.deep_view().take(j + 1);
            assert(now.drop_last() =~= e.trades.deep_view().take(j as int));
            assert(now.last() == e.trades@[j as int]@);
            if j == 0 {
                assert(now[0] == e.trades@[0]@);
            }
        }
        if j == 0 || ts < first {
            first = ts;
        }
        if j == 0 || ts > last {
            last = ts;
        }
        j += 1;
    }
    assert(e.trades.deep_view().take(j as int) =~= e.trades.deep_view());
    ReportTimes {
        cutoff: timestamp(e.source_cutoff_ts),
        cutoffs,
        first: timestamp(first),
        last: timestamp(last),
    }
}

/// A text that does not break a table: no bars and no line breaks.
pub open spec fn harmless(s: Seq<char>) -> Seq<char> {
    Seq::new(
        s.len(),
        |k: int|
            if s[k] == '|' {
                '/'
            } else if s[k] == '\n' || s[k] == '\r' {
                ' '
            } else {
                s[k]
            },
    )
}

/// Makes a text safe for a table.
pub fn safe(s: &str) -> (r: String)
    ensures
        r@ == harmless(s@),
{
    let chars = chars_of(s);
    let mut out = String::new();
    let mut i: usize = 0;
    while i < chars.len()
        invariant
            i <= chars.len(),
            chars@ == s@,
            out@ == harmless(s@).take(i as int),
        decreases chars.len() - i,
    {
        let c: char = chars[i];
        let d: char = if c == '|' {
            '/'
        } else if c == '\n' || c == '\r' {
            ' '
        } else {
            c
        };
        out.push(d);
        assert(harmless(s@).take(i + 1) =~= harmless(s@).take(i as int).push(d));
        i += 1;
    }
    assert(harmless(s@).take(i as int) =~= harmless(s@));
    out
}

/// A row of a table.
pub open spec fn row_of(cells: Seq<Seq<char>>) -> Seq<char> {
    "| "@ + joined(cells, " | "@) + " |\n"@
}

/// Writes a row of a table.
pub(crate) fn row(cells: &Vec<String>) -> (r: String)
    ensures
        r@ == row_of(cells.deep_view()),
{
    let mut out = owned("| ");
    out.append(join(cells, " | ").as_str());
    out.append(" |\n");
    out
}

/// Decimal text of a count.
pub(crate) fn count_text(n: usize) -> (r: String)
    ensures
        r@ == decimal(n as int),
{
    let mut out = String::new();
    push_count(&mut out, n);
    assert(out@ =~= decimal(n as int));
    out
}

/// Appends the decimal text of a count.
pub(crate) fn push_count(out: &mut String, n: usize)
    ensures
        final(out)@ == old(out)@ + decimal(n as int),
    decreases n,
{
    if (n as u64) <= 0x7fff_ffff_ffff_ffff {
        push_decimal(out, n as i64);
    } else {
        push_count(out, n / 10);
        push_decimal(out, (n % 10) as i64);
        proof {
            let d = decimal((n % 10) as int);
            assert(d =~= seq![(('0' as u32) + n % 10) as char]);
            assert(decimal(n as int) =~= decimal((n / 10) as int) + d);
        }
        assert(out@ =~= old(out)@ + decimal(n as int));
    }
}

/// The rows filed so far with one more row under a label; labels are in byte
/// order.
pub open spec fn filed(groups: Seq<BucketModel>, key: Seq<char>, row: usize) -> Seq<BucketModel>
    decreases groups.len(),
{
    if groups.len() == 0 || text_before(key, groups[0].label) {
        seq![BucketModel { label: key, rows: seq![row] }] + groups
    } else if groups[0].label == key {
        seq![BucketModel { label: key, rows: groups[0].rows.push(row) }] + groups.drop_first()
    } else {
        seq![groups[0]] + filed(groups.drop_first(), key, row)
    }
}

/// Every row of the bucket is below a bound.
pub open spec fn rows_below(b: BucketModel, m: int) -> bool {
    forall|j: int| 0 <= j < b.rows.len() ==> (#[trigger] b.rows[j]) < m
}

/// Every row of the buckets is below a bound.
pub open spec fn all_below(groups: Seq<BucketModel>, m: int) -> bool {
    forall|i: int| 0 <= i < groups.len() ==> rows_below(#[trigger] groups[i], m)
}

proof fn lemma_filed_new(groups: Seq<BucketModel>, key: Seq<char>, row: usize, p: int)
    requires
        0 <= p <= groups.len(),
        forall|k: int| 0 <= k < p ==> text_before((#[trigger] groups[k]).label, key),
        p < groups.len() ==> text_before(key, groups[p].label),
    ensures
        filed(groups, key, row) == groups.insert(p, BucketModel { label: key, rows: seq![row] }),
    decreases p,
{
    let new = BucketModel { label: key, rows: seq![row] };
    if p == 0 {
        assert(seq![new] + groups =~= groups.insert(0, new));
    } else {
        assert(text_before(groups[0].label, key));
        lemma_text_order(groups[0].label, key, groups[0].label);
        lemma_text_order(key, key, key);
        let tail = groups.drop_first();
        assert forall|k: int| 0 <= k < p - 1 implies text_before((#[trigger] tail[k]).label, key) by {
            assert(tail[k] == groups[k + 1]);
        }
        lemma_filed_new(tail, key, row, p - 1);
        assert(seq![groups[0]] + tail.insert(p - 1, new) =~= groups.insert(p, new));
    }
}

proof fn lemma_filed_known(groups: Seq<BucketModel>, key: Seq<char>, row: usize, p: int)
    requires
        0 <= p < groups.len(),
        forall|k: int| 0 <= k < p ==> text_before((#[trigger] groups[k]).label, key),
        groups[p].label == key,
    ensures
        filed(groups, key, row) == groups.update(
            p,
            BucketModel { label: key, rows: groups[p].rows.push(row) },
        ),
    decreases p,
{
    let grown = BucketModel { label: key, rows: groups[p].rows.push(row) };
    lemma_text_order(key, key, key);
    if p == 0 {
        assert(seq![grown] + groups.drop_first() =~= groups.update(0, grown));
    } else {
        assert(text_before(groups[0].label, key));
        lemma_text_order(groups[0].label, key, groups[0].label);
        let tail = groups.drop_first();
        assert forall|k: int| 0 <= k < p - 1 implies text_before((#[trigger] tail[k]).label, key) by {
            assert(tail[k] == groups[k + 1]);
        }
        lemma_filed_known(tail, key, row, p - 1);
        assert(seq![groups[0]] + tail.update(p - 1, grown) =~= groups.update(p, grown));
    }
}

fn add_to(b: &mut Bucket, row: usize)
    ensures
        final(b)@ == (BucketModel { label: old(b)@.label, rows: old(b)@.rows.push(row) }),
{
    b.rows.push(row);
}

/// Files a row under a label.
pub(crate) fn file_under(groups: &mut Vec<Bucket>, key: &str, row: usize)
    ensures
        final(groups).deep_view() == filed(old(groups).deep_view(), key@, row),
        forall|m: int|
            #[trigger] all_below(old(groups).deep_view(), m) && row < m ==> all_below(
                final(groups).deep_view(),
                m,
            ),
{
    let ghost before = groups.deep_view();
    let mut p: usize = 0;
    while p < groups.len() && text_lt(groups[p].label.as_str(), key)
        invariant
            p <= groups.len(),
            groups.deep_view() == before,
            forall|k: int| 0 <= k < p ==> text_before((#[trigger] before[k]).label, key@),
        ensures
            p <= groups.len(),
            groups.deep_view() == before,
            forall|k: int| 0 <= k < p ==> text_before((#[trigger] before[k]).label, key@),
            p < groups.len() ==> !text_before(before[p as int].label, key@),
        decreases groups.len() - p,
    {
        p += 1;
    }
    if p < groups.len() && text_eq(groups[p].label.as_str(), key) {
        add_to(&mut groups[p], row);
        proof {
            lemma_filed_known(before, key@, row, p as int);
            let grown = BucketModel { label: key@, rows: before[p as int].rows.push(row) };
            assert(groups.deep_view() =~= before.update(p as int, grown));
            assert forall|m: int| #[trigger] all_below(before, m) && row < m implies all_below(
                groups.deep_view(),
                m,
            ) by {
                assert(rows_below(before[p as int], m));
                assert forall|i: int| 0 <= i < groups.deep_view().len() implies rows_below(
                    #[trigger] groups.deep_view()[i],
                    m,
                ) by {
                    if i != p as int {
                        assert(rows_below(before[i], m));
                    }
                }
            }
        }
    } else {
        let mut rows: Vec<usize> = Vec::new();
        rows.push(row);
        let b = Bucket { label: owned(key), rows };
        let ghost new = b@;
        assert(new.rows =~= seq![row]);
        groups.insert(p, b);
        proof {
            if p < before.len() {
                lemma_text_order(before[p as int].label, key@, key@);
                assert(before[p as int].label != key@);
            }
            lemma_filed_new(before, key@, row, p as int);
            assert(groups.deep_view() =~= before.insert(p as int, new));
            assert forall|m: int| #[trigger] all_below(before, m) && row < m implies all_below(
                groups.deep_view(),
                m,
            ) by {
                assert forall|i: int| 0 <= i < groups.deep_view().len() implies rows_below(
                    #[trigger] groups.deep_view()[i],
                    m,
                ) by {
                    if i < p {
                        assert(rows_below(before[i], m));
                    } else if i > p {
                        assert(rows_below(before[i - 1], m));
                    }
                }
            }
        }
    }
}

/// One row filed under several labels.
pub open spec fn filed_all(groups: Seq<BucketModel>, labels: Seq<Seq<char>>, row: usize) -> Seq<
    BucketModel,
>
    decreases labels.len(),
{
    if labels.len() == 0 {
        groups
    } else {
        filed(filed_all(groups, labels.drop_last(), row), labels.last(), row)
    }
}

pub(crate) fn file_under_all(groups: &mut Vec<Bucket>, labels: &Vec<String>, row: usize)
    ensures
        final(groups).deep_view() == filed_all(old(groups).deep_view(), labels.deep_view(), row),
        forall|m: int|
            #[trigger] all_below(old(groups).deep_view(), m) && row < m ==> all_below(
                final(groups).deep_view(),
                m,
            ),
{
    let mut i: usize = 0;
    while i < labels.len()
        invariant
            i <= labels.len(),
            groups.deep_view() == filed_all(
                old(groups).deep_view(),
                labels.deep_view().take(i as int),
                row,
            ),
            forall|m: int|
                #[trigger] all_below(old(groups).deep_view(), m) && row < m ==> all_below(
                    groups.deep_view(),
                    m,
                ),
        decreases labels.len() - i,
    {
        proof {
            let now = labels.deep_view().take(i + 1);
            assert(now.drop_last() =~= labels.deep_view().take(i as int));
            assert(now.last() == labels@[i as int]@);
        }
        file_under(groups, labels[i].as_str(), row);
        i += 1;
    }
    assert(labels.deep_view().take(i as int) =~= labels.deep_view());
}

/// The band of a confidence.
pub open spec fn band_words(c: Option<u8>) -> Seq<char> {
    match c {
        Some(n) => if n <= 49 {
            "00-49"@
        } else if n <= 64 {
            "50-64"@
        } else if n <= 79 {
            "65-79"@
        } else {
            "80-100"@
        },
        None => "unknown"@,
    }
}

fn band(c: Option<u8>) -> (r: &'static str)
    ensures
        r@ == band_words(c),
{
    match c {
        Some(n) => if n <= 49 {
            "00-49"
        } else if n <= 64 {
            "50-64"
        } else if n <= 79 {
            "65-79"
        } else {
            "80-100"
        },
        None => "unknown",
    }
}

/// The label of one dimension.
pub open spec fn label_of(dimension: Seq<char>, key: Seq<char>) -> Seq<char> {
    dimension + "="@ + key
}

fn make_label(dimension: &str, key: &str) -> (r: String)
    ensures
        r@ == label_of(dimension@, key@),
{
    let mut out = owned(dimension);
    out.append("=");
    out.append(key);
    out
}

/// The label of every dimension at once.
pub open spec fn cross_label(t: TradeModel) -> Seq<char> {
    "交叉="@ + t.direction + "/"@ + t.symbol + "/"@ + t.session + "/"@ + band_words(t.confidence)
        + "/"@ + t.quality + "/"@ + t.weekly_slot
}

/// The labels that a trade is filed under.
pub open spec fn labels_of(t: TradeModel, detailed: bool) -> Seq<Seq<char>> {
    let short = seq![
        label_of("方向"@, t.direction),
        label_of("品种"@, t.symbol),
        label_of("session"@, t.session),
        label_of("置信度"@, band_words(t.confidence)),
    ];
    if detailed {
        short + seq![
            label_of("质量"@, t.quality),
            label_of("每周时段"@, t.weekly_slot),
            cross_label(t),
        ]
    } else {
        short
    }
}

fn make_labels(t: &Trade, detailed: bool) -> (r: Vec<String>)
    ensures
        r.deep_view() == labels_of(t@, detailed),
{
    let mut out: Vec<String> = Vec::new();
    out.push(make_label("方向", t.direction.as_str()));
    out.push(make_label("品种", t.symbol.as_str()));
    out.push(make_label("session", t.session.as_str()));
    out.push(make_label("置信度", band(t.confidence)));
    if detailed {
        out.push(make_label("质量", t.quality.as_str()));
        out.push(make_label("每周时段", t.weekly_slot.as_str()));
        let mut cross = owned("交叉=");
        cross.append(t.direction.as_str());
        cross.append("/");
        cross.append(t.symbol.as_str());
        cross.append("/");
        cross.append(t.session.as_str());
        cross.append("/");
        cross.append(band(t.confidence));
        cross.append("/");
        cross.append(t.quality.as_str());
        cross.append("/");
        cross.append(t.weekly_slot.as_str());
        out.push(cross);
    }
    assert(out.deep_view() =~= labels_of(t@, detailed));
    out
}

/// The rows 0 up to a number.
pub open spec fn every_row(n: nat) -> Seq<usize> {
    Seq::new(n, |k: int| k as usize)
}

/// The first trades filed under their labels, beside one bucket with all.
pub open spec fn bucketed(trades: Seq<TradeModel>, n: nat, detailed: bool) -> Seq<BucketModel>
    decreases n,
{
    if n == 0 {
        seq![BucketModel { label: "全部"@, rows: every_row(trades.len()) }]
    } else {
        filed_all(
            bucketed(trades, (n - 1) as nat, detailed),
            labels_of(trades[n - 1], detailed),
            (n - 1) as usize,
        )
    }
}

/// Files every trade under its labels.
pub(crate) fn make_buckets(trades: &Vec<Trade>, detailed: bool) -> (r: Vec<Bucket>)
    ensures
        r.deep_view() == bucketed(trades.deep_view(), trades.len() as nat, detailed),
        all_below(r.deep_view(), trades.len() as int),
{
    let mut rows: Vec<usize> = Vec::new();
    let mut i: usize = 0;
    while i < trades.len()
        invariant
            i <= trades.len(),
            rows@ =~= every_row(i as nat),
        decreases trades.len() - i,
    {
        rows.push(i);
        i += 1;
    }
    let mut out: Vec<Bucket> = Vec::new();
    out.push(Bucket { label: owned("全部"), rows });
    assert(out.deep_view() =~= bucketed(trades.deep_view(), 0, detailed));
    assert(rows_below(out.deep_view()[0], trades.len() as int));
    let mut n: usize = 0;
    while n < trades.len()
        invariant
            n <= trades.len(),
            out.deep_view() == bucketed(trades.deep_view(), n as nat, detailed),
            all_below(out.deep_view(), trades.len() as int),
        decreases trades.len() - n,
    {
        let labels = make_labels(&trades[n], detailed);
        assert(trades.deep_view()[n as int] == trades@[n as int]@);
        file_under_all(&mut out, &labels, n);
        n += 1;
    }
    out
}

/// The simulations of some rows.
pub open spec fn chosen(trades: Seq<TradeModel>, rows: Seq<usize>) -> Seq<SimulationModel> {
    Seq::new(rows.len(), |k: int| trades[rows[k] as int].simulation)
}

/// Every simulation, in order.
pub open spec fn simulations_of(trades: Seq<TradeModel>) -> Seq<SimulationModel> {
    Seq::new(trades.len(), |k: int| trades[k].simulation)
}

/// How far the magnitudes of a measure may add up over the trades of a report, which
/// files a trade under eight labels at most.
pub const REPORT_LIMIT: i128 = 0x20_0000_0000_0000_0000_0000_0000_0000;

/// The measures of the trades can be summed in every bucket of a report.
pub open spec fn summable(trades: Seq<TradeModel>) -> bool {
    countable(simulations_of(trades), REPORT_LIMIT as int)
}

/// Whether the measures of the trades can be summed.
pub fn are_summable(trades: &Vec<Trade>) -> (r: bool)
    ensures
        r == summable(trades.deep_view()),
{
    let rows = simulations(trades);
    are_countable(&rows, REPORT_LIMIT)
}

/// The measures of every bucket can be summed.
pub open spec fn all_countable(trades: Seq<TradeModel>, groups: Seq<BucketModel>) -> bool {
    forall|i: int|
        0 <= i < groups.len() ==> countable(
            chosen(trades, (#[trigger] groups[i]).rows),
            SUM_LIMIT as int,
        )
}

pub proof fn lemma_countable_below(rows: Seq<SimulationModel>, a: int, b: int)
    requires
        countable(rows, a),
        a <= b,
    ensures
        countable(rows, b),
{
    assert forall|m: Measure| heft(#[trigger] collected(m, rows)) <= b by {
        assert(heft(collected(m, rows)) <= a);
    }
}

fn choose_rows(trades: &Vec<Trade>, b: &Bucket) -> (r: Vec<Simulation>)
    requires
        rows_below(b@, trades.len() as int),
    ensures
        r.deep_view() == chosen(trades.deep_view(), b@.rows),
        r.len() == b.rows.len(),
{
    let mut out: Vec<Simulation> = Vec::new();
    let mut i: usize = 0;
    while i < b.rows.len()
        invariant
            i <= b.rows.len(),
            out.len() == i,
            rows_below(b@, trades.len() as int),
            forall|k: int|
                0 <= k < i ==> #[trigger] out@[k]@ == trades@[b.rows@[k] as int]@.simulation,
        decreases b.rows.len() - i,
    {
        assert(b@.rows[i as int] < trades.len());
        out.push(trades[b.rows[i]].simulation.clone());
        i += 1;
    }
    assert(out.deep_view() =~= chosen(trades.deep_view(), b@.rows));
    out
}

/// Every simulation of a list of trades.
pub fn simulations(trades: &Vec<Trade>) -> (r: Vec<Simulation>)
    ensures
        r.deep_view() == simulations_of(trades.deep_view()),
        r.len() == trades.len(),
{
    let mut out: Vec<Simulation> = Vec::new();
    let mut i: usize = 0;
    while i < trades.len()
        invariant
            i <= trades.len(),
            out.len() == i,
            forall|k: int| 0 <= k < i ==> #[trigger] out@[k]@ == trades@[k]@.simulation,
        decreases trades.len() - i,
    {
        out.push(trades[i].simulation.clone());
        i += 1;
    }
    assert(out.deep_view() =~= simulations_of(trades.deep_view()));
    out
}

/// The lines with the ends of the data, for a prefix of the instruments.
pub open spec fn cutoff_lines(cutoffs: Seq<SymbolCutoffModel>, texts: Seq<Seq<char>>) -> Seq<char>
    decreases cutoffs.len(),
{
    if cutoffs.len() == 0 {
        Seq::empty()
    } else {
        cutoff_lines(cutoffs.drop_last(), texts) + "- "@ + cutoffs.last().symbol + "："@
            + texts[cutoffs.len() - 1] + "\n"@
    }
}

/// How many trades have an issue.
pub open spec fn trades_with_issue(trades: Seq<TradeModel>, issue: Seq<char>) -> nat
    decreases trades.len(),
{
    if trades.len() == 0 {
        0
    } else {
        trades_with_issue(trades.drop_last(), issue) + if trades.last().data_issues.contains(
            issue,
        ) {
            1nat
        } else {
            0
        }
    }
}

fn count_issue(trades: &Vec<Trade>, issue: &str) -> (r: usize)
    ensures
        r == trades_with_issue(trades.deep_view(), issue@),
{
    let mut n: usize = 0;
    let mut i: usize = 0;
    while i < trades.len()
        invariant
            i <= trades.len(),
            n <= i,
            n == trades_with_issue(trades.deep_view().take(i as int), issue@),
        decreases trades.len() - i,
    {
        proof {
            let now = trades.deep_view().take(i + 1);
            assert(now.drop_last() =~= trades.deep_view().take(i as int));
            assert(now.last() == trades@[i as int]@);
        }
        if list_has(&trades[i].data_issues, issue) {
            n += 1;
        }
        i += 1;
    }
    assert(trades.deep_view().take(i as int) =~= trades.deep_view());
    n
}

/// What the report says of alerts without a target.
pub open spec fn target_note(e: EvaluationModel) -> Seq<char> {
    let n = trades_with_issue(e.trades, "missing_target"@);
    if n == 0 {
        Seq::empty()
    } else {
        "**"@ + decimal(n as int) + "/"@ + decimal(e.c2_count as int) + " 条告警没有 target1。** 本次共享护栏来源为"@ + (
        if e.parameters.guardrail_version == "m7d.decision_rules.v2"@ {
            "SMT参照及已确认、可证明未扫的L1流动性"@
        } else {
            "SMT liquidity_refs"@
        }) + "；没有目标就无法按本规则评估收益，不等于策略没有优势。\n\n"@
    }
}

fn write_target_note(e: &Evaluation) -> (r: String)
    ensures
        r@ == target_note(e@),
{
    let n: usize = count_issue(&e.trades, "missing_target");
    if n == 0 {
        return String::new();
    }
    let mut out = owned("**");
    push_count(&mut out, n);
    out.append("/");
    push_count(&mut out, e.c2_count);
    out.append(" 条告警没有 target1。** 本次共享护栏来源为");
    if text_eq(e.parameters.guardrail_version.as_str(), "m7d.decision_rules.v2") {
        out.append("SMT参照及已确认、可证明未扫的L1流动性");
    } else {
        out.append("SMT liquidity_refs");
    }
    out.append("；没有目标就无法按本规则评估收益，不等于策略没有优势。\n\n");
    out
}

/// The head of the report. `parameters` are the parameters of the run as JSON.
#[verifier::opaque]
pub open spec fn head_of(
    e: EvaluationModel,
    parameters: Seq<char>,
    times: ReportTimesModel,
) -> Seq<char> {
    "# M8 Lite 告警结局评估\n\nRun: `"@ + e.run_id + "`\n\n参数：`"@ + parameters + "`\n\n源数据各品种截止的最大值（UTC，非统一模拟截止）："@ + times.cutoff + "；C2 "@ + decimal(
        e.c2_count as int,
    ) + " 条，其他告警 "@ + decimal(e.other_alert_count as int) + " 条不属于本次评估。\n\n"@ + CUTOFF_NOTE@ + cutoff_lines(
        e.symbol_cutoffs,
        times.cutoffs,
    ) + "\n"@ + "告警窗口："@ + times.first + " 至 "@ + times.last + "。\n\n"@ + (if stats_of(
        simulations_of(e.trades),
    ).resolved < 10 {
        TOO_FEW@
    } else {
        DESCRIPTIVE@
    }) + target_note(e)
}

fn write_cutoffs(e: &Evaluation, times: &ReportTimes) -> (r: String)
    requires
        times.cutoffs.len() == e.symbol_cutoffs.len(),
    ensures
        r@ == cutoff_lines(e@.symbol_cutoffs, times@.cutoffs),
{
    let mut out = String::new();
    let mut i: usize = 0;
    assert(out@ =~= Seq::<char>::empty());
    while i < e.symbol_cutoffs.len()
        invariant
            i <= e.symbol_cutoffs.len(),
            times.cutoffs.len() == e.symbol_cutoffs.len(),
            out@ == cutoff_lines(e.symbol_cutoffs.deep_view().take(i as int), times@.cutoffs),
        decreases e.symbol_cutoffs.len() - i,
    {
        proof {
            let now = e.symbol_cutoffs.deep_view().take(i + 1);
            assert(now.drop_last() =~= e.symbol_cutoffs.deep_view().take(i as int));
            assert(now.last() == e.symbol_cutoffs@[i as int]@);
            assert(times@.cutoffs[i as int] == times.cutoffs@[i as int]@);
        }
        out.append("- ");
        out.append(e.symbol_cutoffs[i].symbol.as_str());
        out.append("：");
        out.append(times.cutoffs[i].as_str());
        out.append("\n");
        i += 1;
    }
    assert(e.symbol_cutoffs.deep_view().take(i as int) =~= e.symbol_cutoffs.deep_view());
    out
}

fn write_head(e: &Evaluation, parameters: &str, times: &ReportTimes) -> (r: String)
    requires
        e.trades.len() <= MAX_ROWS,
        summable(e@.trades),
        times.cutoffs.len() == e.symbol_cutoffs.len(),
    ensures
        r@ == head_of(e@, parameters@, times@),
{
    reveal(head_of);
    let all = simulations(&e.trades);
    assert(countable(all.deep_view(), SUM_LIMIT as int)) by {
        lemma_countable_below(all.deep_view(), REPORT_LIMIT as int, SUM_LIMIT as int);
    }
    let summary = stats(&all);
    let mut out = owned("# M8 Lite 告警结局评估\n\nRun: `");
    out.append(e.run_id.as_str());
    out.append("`\n\n参数：`");
    out.append(parameters);
    out.append("`\n\n源数据各品种截止的最大值（UTC，非统一模拟截止）：");
    out.append(times.cutoff.as_str());
    out.append("；C2 ");
    push_count(&mut out, e.c2_count);
    out.append(" 条，其他告警 ");
    push_count(&mut out, e.other_alert_count);
    out.append(" 条不属于本次评估。\n\n");
    out.append(CUTOFF_NOTE);
    out.append(write_cutoffs(e, times).as_str());
    out.append("\n");
    out.append("告警窗口：");
    out.append(times.first.as_str());
    out.append(" 至 ");
    out.append(times.last.as_str());
    out.append("。\n\n");
    if summary.resolved < 10 {
        out.append(TOO_FEW);
    } else {
        out.append(DESCRIPTIVE);
    }
    out.append(write_target_note(e).as_str());
    out
}

/// The outcomes in the order in which a report lists them.
pub open spec fn listed_outcomes() -> Seq<Outcome> {
    seq![
        Outcome::Win,
        Outcome::Loss,
        Outcome::Skip,
        Outcome::Ambiguous,
        Outcome::NoFill,
        Outcome::Expired,
        Outcome::DataGap,
        Outcome::InsufficientData,
        Outcome::Excluded,
    ]
}

/// The rows of the table of outcomes, for a prefix of the outcomes.
pub open spec fn outcome_rows(outcomes: Seq<Outcome>, rows: Seq<SimulationModel>) -> Seq<char>
    decreases outcomes.len(),
{
    if outcomes.len() == 0 {
        Seq::empty()
    } else {
        outcome_rows(outcomes.drop_last(), rows) + row_of(
            seq![
                crate::backtest::model::outcome_words(outcomes.last()),
                decimal(count_of(outcomes.last(), rows) as int),
            ],
        )
    }
}

fn write_outcomes(rows: &Vec<Simulation>) -> (r: String)
    ensures
        r@ == outcome_rows(listed_outcomes(), rows.deep_view()),
{
    let list: Vec<Outcome> = vec![
        Outcome::Win,
        Outcome::Loss,
        Outcome::Skip,
        Outcome::Ambiguous,
        Outcome::NoFill,
        Outcome::Expired,
        Outcome::DataGap,
        Outcome::InsufficientData,
        Outcome::Excluded,
    ];
    assert(list@ =~= listed_outcomes());
    let mut out = String::new();
    let mut i: usize = 0;
    assert(out@ =~= Seq::<char>::empty());
    while i < list.len()
        invariant
            i <= list.len(),
            out@ == outcome_rows(list@.take(i as int), rows.deep_view()),
        decreases list.len() - i,
    {
        proof {
            let now = list@.take(i + 1);
            assert(now.drop_last() =~= list@.take(i as int));
        }
        let mut cells: Vec<String> = Vec::new();
        cells.push(owned(list[i].tag()));
        cells.push(count_text(count(list[i], rows)));
        assert(cells.deep_view() =~= seq![
            crate::backtest::model::outcome_words(list@[i as int]),
            decimal(count_of(list@[i as int], rows.deep_view()) as int),
        ]);
        out.append(row(&cells).as_str());
        i += 1;
    }
    assert(list@.take(i as int) =~= list@);
    out
}

/// The issues of the first trades, counted by filing each under its text.
pub open spec fn issue_buckets(trades: Seq<TradeModel>, n: nat) -> Seq<BucketModel>
    decreases n,
{
    if n == 0 {
        Seq::empty()
    } else {
        filed_all(issue_buckets(trades, (n - 1) as nat), trades[n - 1].data_issues, (n - 1) as usize)
    }
}

/// The kinds of gaps of the first trades, counted likewise.
pub open spec fn gap_buckets(trades: Seq<TradeModel>, n: nat) -> Seq<BucketModel>
    decreases n,
{
    if n == 0 {
        Seq::empty()
    } else {
        let rest = gap_buckets(trades, (n - 1) as nat);
        match trades[n - 1].anchor_gap {
            Some(gap) => filed(rest, gap.category, (n - 1) as usize),
            None => rest,
        }
    }
}

pub(crate) fn make_issue_buckets(trades: &Vec<Trade>) -> (r: Vec<Bucket>)
    ensures
        r.deep_view() == issue_buckets(trades.deep_view(), trades.len() as nat),
{
    let mut out: Vec<Bucket> = Vec::new();
    let mut n: usize = 0;
    assert(out.deep_view() =~= Seq::<BucketModel>::empty());
    while n < trades.len()
        invariant
            n <= trades.len(),
            out.deep_view() == issue_buckets(trades.deep_view(), n as nat),
        decreases trades.len() - n,
    {
        assert(trades.deep_view()[n as int] == trades@[n as int]@);
        file_under_all(&mut out, &trades[n].data_issues, n);
        n += 1;
    }
    out
}

fn make_gap_buckets(trades: &Vec<Trade>) -> (r: Vec<Bucket>)
    ensures
        r.deep_view() == gap_buckets(trades.deep_view(), trades.len() as nat),
{
    let mut out: Vec<Bucket> = Vec::new();
    let mut n: usize = 0;
    assert(out.deep_view() =~= Seq::<BucketModel>::empty());
    while n < trades.len()
        invariant
            n <= trades.len(),
            out.deep_view() == gap_buckets(trades.deep_view(), n as nat),
        decreases trades.len() - n,
    {
        assert(trades.deep_view()[n as int] == trades@[n as int]@);
        match &trades[n].anchor_gap {
            Some(gap) => file_under(&mut out, gap.category.as_str(), n),
            None => {},
        }
        n += 1;
    }
    out
}

/// One row per bucket with the number of rows in it.
pub open spec fn count_rows(groups: Seq<BucketModel>, made_safe: bool) -> Seq<char>
    decreases groups.len(),
{
    if groups.len() == 0 {
        Seq::empty()
    } else {
        let b = groups.last();
        count_rows(groups.drop_last(), made_safe) + row_of(
            seq![
                if made_safe {
                    harmless(b.label)
                } else {
                    b.label
                },
                decimal(b.rows.len() as int),
            ],
        )
    }
}

fn write_counts(groups: &Vec<Bucket>, made_safe: bool) -> (r: String)
    ensures
        r@ == count_rows(groups.deep_view(), made_safe),
{
    let mut out = String::new();
    let mut i: usize = 0;
    assert(out@ =~= Seq::<char>::empty());
    while i < groups.len()
        invariant
            i <= groups.len(),
            out@ == count_rows(groups.deep_view().take(i as int), made_safe),
        decreases groups.len() - i,
    {
        let ghost b = groups@[i as int]@;
        proof {
            let now = groups.deep_view().take(i + 1);
            assert(now.drop_last() =~= groups.deep_view().take(i as int));
            assert(now.last() == b);
        }
        let label = if made_safe {
            safe(groups[i].label.as_str())
        } else {
            groups[i].label.clone()
        };
        let mut cells: Vec<String> = Vec::new();
        cells.push(label);
        cells.push(count_text(groups[i].rows.len()));
        assert(cells.deep_view() =~= seq![
            if made_safe {
                harmless(b.label)
            } else {
                b.label
            },
            decimal(b.rows.len() as int),
        ]);
        out.append(row(&cells).as_str());
        i += 1;
    }
    assert(groups.deep_view().take(i as int) =~= groups.deep_view());
    out
}

/// The section on outcomes, gaps and issues.
#[verifier::opaque]
pub open spec fn checks_of(e: EvaluationModel) -> Seq<char> {
    let gaps = gap_buckets(e.trades, e.trades.len());
    OUTCOME_HEAD@ + outcome_rows(listed_outcomes(), simulations_of(e.trades)) + OUTCOME_NOTE@ + (
    if gaps.len() > 0 {
        GAP_HEAD@ + count_rows(gaps, false) + GAP_NOTE@
    } else {
        Seq::empty()
    }) + REASON_HEAD@ + count_rows(issue_buckets(e.trades, e.trades.len()), true)
}

fn write_checks(e: &Evaluation) -> (r: String)
    ensures
        r@ == checks_of(e@),
{
    reveal(checks_of);
    let all = simulations(&e.trades);
    let mut out = owned(OUTCOME_HEAD);
    out.append(write_outcomes(&all).as_str());
    out.append(OUTCOME_NOTE);
    let gaps = make_gap_buckets(&e.trades);
    let mut section = String::new();
    if gaps.len() > 0 {
        assert(gaps.deep_view().len() > 0);
        section = owned(GAP_HEAD);
        section.append(write_counts(&gaps, false).as_str());
        section.append(GAP_NOTE);
    } else {
        assert(gaps.deep_view().len() == 0);
        assert(section@ =~= Seq::<char>::empty());
    }
    out.append(section.as_str());
    out.append(REASON_HEAD);
    let issues = make_issue_buckets(&e.trades);
    out.append(write_counts(&issues, true).as_str());
    out
}

/// A share as a fraction; absent without a whole.
pub open spec fn share_of(part: usize, whole: usize) -> Option<Fraction> {
    if whole > 0 {
        Some(Fraction { num: part as i128, den: whole as i128 })
    } else {
        None
    }
}

pub(crate) fn share(part: usize, whole: usize) -> (r: Option<Fraction>)
    ensures
        r == share_of(part, whole),
        printable(r),
{
    if whole > 0 {
        Some(Fraction { num: part as i128, den: whole as i128 })
    } else {
        None
    }
}

/// The cells of a bucket in the table of statistics.
pub open spec fn bucket_cells(label: Seq<char>, rows: Seq<SimulationModel>) -> Seq<Seq<char>> {
    let s = stats_of(rows);
    seq![
        harmless(label),
        decimal(s.n as int),
        decimal(s.resolved as int),
        number_of(share_of(s.wins, s.resolved)),
        number_of(s.mean),
        number_of(s.median),
        number_of(s.profit_factor),
        decimal(s.excursions_n as int),
        number_of(s.mfe),
        number_of(s.mae),
        decimal(s.expired_n as int),
        number_of(s.floating),
        if s.n < 10 || s.resolved < 10 {
            SMALL@
        } else {
            PLAIN@
        },
    ]
}

fn write_bucket(label: &str, rows: &Vec<Simulation>) -> (r: String)
    requires
        rows.len() <= MAX_ROWS,
        countable(rows.deep_view(), SUM_LIMIT as int),
    ensures
        r@ == row_of(bucket_cells(label@, rows.deep_view())),
{
    let s = stats(rows);
    let mut cells: Vec<String> = Vec::new();
    cells.push(safe(label));
    cells.push(count_text(s.n));
    cells.push(count_text(s.resolved));
    cells.push(number(share(s.wins, s.resolved)));
    cells.push(number(s.mean));
    cells.push(number(s.median));
    cells.push(number(s.profit_factor));
    cells.push(count_text(s.excursions_n));
    cells.push(number(s.mfe));
    cells.push(number(s.mae));
    cells.push(count_text(s.expired_n));
    cells.push(number(s.floating));
    cells.push(
        owned(
            if s.n < 10 || s.resolved < 10 {
                SMALL
            } else {
                PLAIN
            },
        ),
    );
    assert(cells.deep_view() =~= bucket_cells(label@, rows.deep_view()));
    row(&cells)
}

/// The rows of the table of statistics, for a prefix of the buckets.
pub open spec fn bucket_rows(trades: Seq<TradeModel>, groups: Seq<BucketModel>) -> Seq<char>
    decreases groups.len(),
{
    if groups.len() == 0 {
        Seq::empty()
    } else {
        let b = groups.last();
        bucket_rows(trades, groups.drop_last()) + row_of(
            bucket_cells(b.label, chosen(trades, b.rows)),
        )
    }
}

fn write_buckets(trades: &Vec<Trade>, groups: &Vec<Bucket>) -> (r: String)
    requires
        trades.len() <= MAX_ROWS,
        all_below(groups.deep_view(), trades.len() as int),
        forall|i: int| 0 <= i < groups.len() ==> (#[trigger] groups.deep_view()[i]).rows.len()
            <= MAX_ROWS,
        all_countable(trades.deep_view(), groups.deep_view()),
    ensures
        r@ == bucket_rows(trades.deep_view(), groups.deep_view()),
{
    let mut out = String::new();
    let mut i: usize = 0;
    assert(out@ =~= Seq::<char>::empty());
    while i < groups.len()
        invariant
            i <= groups.len(),
            trades.len() <= MAX_ROWS,
            all_below(groups.deep_view(), trades.len() as int),
            forall|i: int| 0 <= i < groups.len() ==> (#[trigger] groups.deep_view()[i]).rows.len()
                <= MAX_ROWS,
            all_countable(trades.deep_view(), groups.deep_view()),
            out@ == bucket_rows(trades.deep_view(), groups.deep_view().take(i as int)),
        decreases groups.len() - i,
    {
        let ghost b = groups.deep_view()[i as int];
        proof {
            let now = groups.deep_view().take(i + 1);
            assert(now.drop_last() =~= groups.deep_view().take(i as int));
            assert(now.last() == b);
            assert(rows_below(b, trades.len() as int));
            assert(countable(chosen(trades.deep_view(), b.rows), SUM_LIMIT as int));
        }
        let rows = choose_rows(trades, &groups[i]);
        out.append(write_bucket(groups[i].label.as_str(), &rows).as_str());
        i += 1;
    }
    assert(groups.deep_view().take(i as int) =~= groups.deep_view());
    out
}

proof fn lemma_filed_sizes(groups: Seq<BucketModel>, key: Seq<char>, row: usize, m: int)
    requires
        forall|i: int| 0 <= i < groups.len() ==> (#[trigger] groups[i]).rows.len() <= m,
        0 <= m,
    ensures
        forall|i: int|
            0 <= i < filed(groups, key, row).len() ==> (#[trigger] filed(
                groups,
                key,
                row,
            )[i]).rows.len() <= m + 1,
    decreases groups.len(),
{
    let all = filed(groups, key, row);
    if groups.len() == 0 || text_before(key, groups[0].label) {
        assert forall|i: int| 0 <= i < all.len() implies (#[trigger] all[i]).rows.len() <= m + 1 by {
            if i > 0 {
                assert(all[i] == groups[i - 1]);
            }
        }
    } else if groups[0].label == key {
        assert forall|i: int| 0 <= i < all.len() implies (#[trigger] all[i]).rows.len() <= m + 1 by {
            if i > 0 {
                assert(all[i] == groups[i]);
            } else {
                assert(groups[0].rows.len() <= m);
            }
        }
    } else {
        let tail = groups.drop_first();
        assert forall|i: int| 0 <= i < tail.len() implies (#[trigger] tail[i]).rows.len() <= m by {
            assert(tail[i] == groups[i + 1]);
        }
        lemma_filed_sizes(tail, key, row, m);
        assert forall|i: int| 0 <= i < all.len() implies (#[trigger] all[i]).rows.len() <= m + 1 by {
            if i == 0 {
                assert(all[0] == groups[0]);
            } else {
                assert(all[i] == filed(tail, key, row)[i - 1]);
            }
        }
    }
}

proof fn lemma_filed_all_sizes(groups: Seq<BucketModel>, labels: Seq<Seq<char>>, row: usize, m: int)
    requires
        forall|i: int| 0 <= i < groups.len() ==> (#[trigger] groups[i]).rows.len() <= m,
        0 <= m,
    ensures
        forall|i: int|
            0 <= i < filed_all(groups, labels, row).len() ==> (#[trigger] filed_all(
                groups,
                labels,
                row,
            )[i]).rows.len() <= m + labels.len(),
    decreases labels.len(),
{
    if labels.len() > 0 {
        lemma_filed_all_sizes(groups, labels.drop_last(), row, m);
        lemma_filed_sizes(
            filed_all(groups, labels.drop_last(), row),
            labels.last(),
            row,
            m + labels.len() - 1,
        );
    }
}

proof fn lemma_bucket_sizes(trades: Seq<TradeModel>, n: nat, detailed: bool)
    requires
        n <= trades.len(),
    ensures
        forall|i: int|
            0 <= i < bucketed(trades, n, detailed).len() ==> (#[trigger] bucketed(
                trades,
                n,
                detailed,
            )[i]).rows.len() <= trades.len() + 7 * n,
    decreases n,
{
    if n > 0 {
        lemma_bucket_sizes(trades, (n - 1) as nat, detailed);
        lemma_filed_all_sizes(
            bucketed(trades, (n - 1) as nat, detailed),
            labels_of(trades[n - 1], detailed),
            (n - 1) as usize,
            trades.len() + 7 * (n - 1),
        );
    }
}

/// What one simulation adds to the sum of a measure.
spec fn share_in(m: Measure, s: SimulationModel) -> int {
    match measured(m, s) {
        Some(x) => magnitude(x as int),
        None => 0,
    }
}

/// The sum of a measure over some rows.
spec fn load(m: Measure, trades: Seq<TradeModel>, rows: Seq<usize>) -> int {
    heft(collected(m, chosen(trades, rows)))
}

proof fn lemma_heft_grows(m: Measure, rows: Seq<SimulationModel>, s: SimulationModel)
    ensures
        heft(collected(m, rows.push(s))) == heft(collected(m, rows)) + share_in(m, s),
{
    let v = collected(m, rows);
    assert(rows.push(s).drop_last() =~= rows);
    match measured(m, s) {
        Some(x) => assert(v.push(x).drop_last() =~= v),
        None => {},
    }
}

proof fn lemma_load_grows(m: Measure, trades: Seq<TradeModel>, rows: Seq<usize>, row: usize)
    ensures
        load(m, trades, rows.push(row)) == load(m, trades, rows) + share_in(
            m,
            trades[row as int].simulation,
        ),
{
    let s = trades[row as int].simulation;
    assert(chosen(trades, rows.push(row)) =~= chosen(trades, rows).push(s));
    lemma_heft_grows(m, chosen(trades, rows), s);
}

proof fn lemma_filed_loads(
    m: Measure,
    trades: Seq<TradeModel>,
    groups: Seq<BucketModel>,
    key: Seq<char>,
    row: usize,
    t: int,
)
    requires
        forall|i: int| 0 <= i < groups.len() ==> load(m, trades, (#[trigger] groups[i]).rows) <= t,
        0 <= t,
    ensures
        forall|i: int|
            0 <= i < filed(groups, key, row).len() ==> load(
                m,
                trades,
                (#[trigger] filed(groups, key, row)[i]).rows,
            ) <= t + share_in(m, trades[row as int].simulation),
    decreases groups.len(),
{
    let all = filed(groups, key, row);
    let more = t + share_in(m, trades[row as int].simulation);
    if groups.len() == 0 || text_before(key, groups[0].label) {
        assert(seq![row] =~= Seq::<usize>::empty().push(row));
        lemma_load_grows(m, trades, Seq::empty(), row);
        assert(chosen(trades, Seq::empty()) =~= Seq::<SimulationModel>::empty());
        assert forall|i: int| 0 <= i < all.len() implies load(m, trades, (#[trigger] all[i]).rows)
            <= more by {
            if i > 0 {
                assert(all[i] == groups[i - 1]);
            }
        }
    } else if groups[0].label == key {
        lemma_load_grows(m, trades, groups[0].rows, row);
        assert forall|i: int| 0 <= i < all.len() implies load(m, trades, (#[trigger] all[i]).rows)
            <= more by {
            if i > 0 {
                assert(all[i] == groups[i]);
            } else {
                assert(load(m, trades, groups[0].rows) <= t);
            }
        }
    } else {
        let tail = groups.drop_first();
        assert forall|i: int| 0 <= i < tail.len() implies load(m, trades, (#[trigger] tail[i]).rows)
            <= t by {
            assert(tail[i] == groups[i + 1]);
        }
        lemma_filed_loads(m, trades, tail, key, row, t);
        assert forall|i: int| 0 <= i < all.len() implies load(m, trades, (#[trigger] all[i]).rows)
            <= more by {
            if i == 0 {
                assert(all[0] == groups[0]);
            } else {
                assert(all[i] == filed(tail, key, row)[i - 1]);
            }
        }
    }
}

proof fn lemma_filed_all_loads(
    m: Measure,
    trades: Seq<TradeModel>,
    groups: Seq<BucketModel>,
    labels: Seq<Seq<char>>,
    row: usize,
    t: int,
)
    requires
        forall|i: int| 0 <= i < groups.len() ==> load(m, trades, (#[trigger] groups[i]).rows) <= t,
        0 <= t,
        labels.len() <= 7,
    ensures
        forall|i: int|
            0 <= i < filed_all(groups, labels, row).len() ==> load(
                m,
                trades,
                (#[trigger] filed_all(groups, labels, row)[i]).rows,
            ) <= t + labels.len() * share_in(m, trades[row as int].simulation),
    decreases labels.len(),
{
    if labels.len() > 0 {
        let one = share_in(m, trades[row as int].simulation);
        let k = labels.len() - 1;
        lemma_filed_all_loads(m, trades, groups, labels.drop_last(), row, t);
        assert(0 <= k * one) by (nonlinear_arith)
            requires
                0 <= k,
                0 <= one,
        ;
        lemma_filed_loads(
            m,
            trades,
            filed_all(groups, labels.drop_last(), row),
            labels.last(),
            row,
            t + k * one,
        );
        assert(k * one + one == (k + 1) * one) by (nonlinear_arith);
    }
}

proof fn lemma_bucket_loads(m: Measure, trades: Seq<TradeModel>, n: nat, detailed: bool)
    requires
        n <= trades.len() <= usize::MAX,
    ensures
        0 <= heft(collected(m, simulations_of(trades.take(n as int)))) <= heft(
            collected(m, simulations_of(trades)),
        ),
        forall|i: int|
            0 <= i < bucketed(trades, n, detailed).len() ==> load(
                m,
                trades,
                (#[trigger] bucketed(trades, n, detailed)[i]).rows,
            ) <= heft(collected(m, simulations_of(trades))) + 7 * heft(
                collected(m, simulations_of(trades.take(n as int))),
            ),
    decreases n,
{
    let all = simulations_of(trades);
    let some = simulations_of(trades.take(n as int));
    lemma_prefix_is_lighter(m, all, n as int);
    assert(some =~= all.take(n as int));
    if n == 0 {
        assert(chosen(trades, every_row(trades.len())) =~= all);
    } else {
        let before = simulations_of(trades.take(n - 1));
        let s = trades[n - 1].simulation;
        lemma_bucket_loads(m, trades, (n - 1) as nat, detailed);
        assert(some =~= before.push(s));
        lemma_heft_grows(m, before, s);
        let one = share_in(m, s);
        let labels = labels_of(trades[n - 1], detailed);
        lemma_filed_all_loads(
            m,
            trades,
            bucketed(trades, (n - 1) as nat, detailed),
            labels,
            (n - 1) as usize,
            heft(collected(m, all)) + 7 * heft(collected(m, before)),
        );
        assert(labels.len() * one <= 7 * one) by (nonlinear_arith)
            requires
                labels.len() <= 7,
                0 <= one,
        ;
    }
}

proof fn lemma_prefix_is_lighter(m: Measure, rows: Seq<SimulationModel>, n: int)
    requires
        0 <= n <= rows.len(),
    ensures
        0 <= heft(collected(m, rows.take(n))) <= heft(collected(m, rows)),
    decreases rows.len(),
{
    if n == rows.len() {
        assert(rows.take(n) =~= rows);
        lemma_heft_of_some(collected(m, rows), 0);
    } else {
        lemma_prefix_is_lighter(m, rows.drop_last(), n);
        assert(rows.drop_last().take(n) =~= rows.take(n));
        lemma_heft_grows(m, rows.drop_last(), rows.last());
        assert(rows.drop_last().push(rows.last()) =~= rows);
    }
}

proof fn lemma_buckets_countable(trades: Seq<TradeModel>, detailed: bool)
    requires
        summable(trades),
        trades.len() <= usize::MAX,
    ensures
        all_countable(trades, bucketed(trades, trades.len(), detailed)),
{
    let groups = bucketed(trades, trades.len(), detailed);
    assert forall|i: int| 0 <= i < groups.len() implies countable(
        chosen(trades, (#[trigger] groups[i]).rows),
        SUM_LIMIT as int,
    ) by {
        let rows = chosen(trades, groups[i].rows);
        assert forall|m: Measure| heft(#[trigger] collected(m, rows)) <= SUM_LIMIT by {
            lemma_bucket_loads(m, trades, trades.len(), detailed);
            assert(trades.take(trades.len() as int) =~= trades);
            assert(heft(collected(m, simulations_of(trades))) <= REPORT_LIMIT);
            assert(load(m, trades, groups[i].rows) <= 8 * REPORT_LIMIT);
        }
    }
}

/// The report without its closing assumptions.
#[verifier::opaque]
pub open spec fn body_of(
    e: EvaluationModel,
    parameters: Seq<char>,
    times: ReportTimesModel,
) -> Seq<char> {
    head_of(e, parameters, times) + checks_of(e) + BUCKET_HEAD@ + bucket_rows(
        e.trades,
        bucketed(e.trades, e.trades.len(), true),
    ) + "\n"@
}

/// Number of trades that a report can hold.
pub const MAX_REPORTED: u64 = 0x1000_0000_0000;

/// Writes the report without its closing assumptions. `parameters` are the
/// parameters of the run as JSON.
pub fn standard_body(e: &Evaluation, parameters: &str, times: &ReportTimes) -> (r: String)
    requires
        e.trades.len() <= MAX_REPORTED,
        summable(e@.trades),
        times.cutoffs.len() == e.symbol_cutoffs.len(),
    ensures
        r@ == body_of(e@, parameters@, times@),
{
    reveal(body_of);
    let groups = make_buckets(&e.trades, true);
    proof {
        lemma_bucket_sizes(e.trades.deep_view(), e.trades.len() as nat, true);
        lemma_buckets_countable(e.trades.deep_view(), true);
    }
    let mut out = write_head(e, parameters, times);
    out.append(write_checks(e).as_str());
    out.append(BUCKET_HEAD);
    out.append(write_buckets(&e.trades, &groups).as_str());
    out.append("\n");
    out
}

/// The report of one set of simulations.
pub open spec fn standard_of(
    e: EvaluationModel,
    parameters: Seq<char>,
    times: ReportTimesModel,
) -> Seq<char> {
    body_of(e, parameters, times) + ASSUMPTIONS@
}

/// Writes the report of one set of simulations.
pub fn standard_markdown(e: &Evaluation, parameters: &str, times: &ReportTimes) -> (r: String)
    requires
        e.trades.len() <= MAX_REPORTED,
        summable(e@.trades),
        times.cutoffs.len() == e.symbol_cutoffs.len(),
    ensures
        r@ == standard_of(e@, parameters@, times@),
{
    let mut out = standard_body(e, parameters, times);
    out.append(ASSUMPTIONS);
    out
}

/// Four quantiles of a list.
pub open spec fn quartiles_of(v: Seq<i128>) -> Seq<char> {
    joined(
        seq![
            number_of(quantile_of(v, 25)),
            number_of(quantile_of(v, 50)),
            number_of(quantile_of(v, 75)),
            number_of(quantile_of(v, 90)),
        ],
        " / "@,
    )
}

pub(crate) fn quartiles(v: &Vec<i128>) -> (r: String)
    requires
        heft(v@) <= SUM_LIMIT,
    ensures
        r@ == quartiles_of(v@),
{
    let mut cells: Vec<String> = Vec::new();
    cells.push(number(quantile(v, 25)));
    cells.push(number(quantile(v, 50)));
    cells.push(number(quantile(v, 75)));
    cells.push(number(quantile(v, 90)));
    assert(cells.deep_view() =~= seq![
        number_of(quantile_of(v@, 25)),
        number_of(quantile_of(v@, 50)),
        number_of(quantile_of(v@, 75)),
        number_of(quantile_of(v@, 90)),
    ]);
    join(&cells, " / ")
}

/// The cells of a bucket in the table of distributions.
pub open spec fn distribution_cells(label: Seq<char>, rows: Seq<SimulationModel>) -> Seq<Seq<char>> {
    let s = stats_of(rows);
    let ran = ran_count(rows) as usize;
    seq![
        harmless(label),
        decimal(rows.len() as int),
        decimal(ran as int),
        number_of(share_of(s.wins, ran)),
        number_of(share_of(s.wins, s.resolved)),
        number_of(s.mean),
        number_of(average_of(collected(Measure::Payoff, rows))),
        quartiles_of(collected(Measure::Favourable, rows)),
        quartiles_of(collected(Measure::Adverse, rows)),
        if ran < 10 || s.resolved < 10 {
            SMALL@
        } else {
            PLAIN@
        },
    ]
}

fn write_distribution(label: &str, rows: &Vec<Simulation>) -> (r: String)
    requires
        rows.len() <= MAX_ROWS,
        countable(rows.deep_view(), SUM_LIMIT as int),
    ensures
        r@ == row_of(distribution_cells(label@, rows.deep_view())),
{
    let s = stats(rows);
    let ran: usize = count_ran(rows);
    let payoff = collect(Measure::Payoff, rows);
    let mfe = collect(Measure::Favourable, rows);
    let mae = collect(Measure::Adverse, rows);
    let mut cells: Vec<String> = Vec::new();
    cells.push(safe(label));
    cells.push(count_text(rows.len()));
    cells.push(count_text(ran));
    cells.push(number(share(s.wins, ran)));
    cells.push(number(share(s.wins, s.resolved)));
    cells.push(number(s.mean));
    cells.push(number(average(&payoff)));
    cells.push(quartiles(&mfe));
    cells.push(quartiles(&mae));
    cells.push(
        owned(
            if ran < 10 || s.resolved < 10 {
                SMALL
            } else {
                PLAIN
            },
        ),
    );
    assert(cells.deep_view() =~= distribution_cells(label@, rows.deep_view()));
    row(&cells)
}

/// The rows of the table of distributions, for a prefix of the buckets.
pub open spec fn distribution_rows(trades: Seq<TradeModel>, groups: Seq<BucketModel>) -> Seq<char>
    decreases groups.len(),
{
    if groups.len() == 0 {
        Seq::empty()
    } else {
        let b = groups.last();
        distribution_rows(trades, groups.drop_last()) + row_of(
            distribution_cells(b.label, chosen(trades, b.rows)),
        )
    }
}

/// The table of distributions.
#[verifier::opaque]
pub open spec fn distribution_of(trades: Seq<TradeModel>) -> Seq<char> {
    DISTRIBUTION_HEAD@ + distribution_rows(trades, bucketed(trades, trades.len(), false))
}

/// Writes the table of distributions.
pub fn r_distribution(trades: &Vec<Trade>) -> (r: String)
    requires
        trades.len() <= MAX_REPORTED,
        summable(trades.deep_view()),
    ensures
        r@ == distribution_of(trades.deep_view()),
{
    reveal(distribution_of);
    let groups = make_buckets(trades, false);
    proof {
        lemma_bucket_sizes(trades.deep_view(), trades.len() as nat, false);
        lemma_buckets_countable(trades.deep_view(), false);
    }
    let mut table = String::new();
    let mut i: usize = 0;
    assert(table@ =~= Seq::<char>::empty());
    while i < groups.len()
        invariant
            i <= groups.len(),
            trades.len() <= MAX_REPORTED,
            all_below(groups.deep_view(), trades.len() as int),
            forall|i: int| 0 <= i < groups.len() ==> (#[trigger] groups.deep_view()[i]).rows.len()
                <= 8 * MAX_REPORTED,
            all_countable(trades.deep_view(), groups.deep_view()),
            table@ == distribution_rows(trades.deep_view(), groups.deep_view().take(i as int)),
        decreases groups.len() - i,
    {
        let ghost b = groups.deep_view()[i as int];
        proof {
            let now = groups.deep_view().take(i + 1);
            assert(now.drop_last() =~= groups.deep_view().take(i as int));
            assert(now.last() == b);
            assert(rows_below(b, trades.len() as int));
            assert(countable(chosen(trades.deep_view(), b.rows), SUM_LIMIT as int));
        }
        let rows = choose_rows(trades, &groups[i]);
        table.append(write_distribution(groups[i].label.as_str(), &rows).as_str());
        i += 1;
    }
    assert(groups.deep_view().take(i as int) =~= groups.deep_view());
    let mut out = owned(DISTRIBUTION_HEAD);
    out.append(table.as_str());
    out
}

} // verus!
