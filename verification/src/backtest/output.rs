//! The files that a run leaves behind: the report in every mode, and the
//! table of trades.
use vstd::prelude::*;
use crate::backtest::model::{
    outcome_words, Evaluation, EvaluationModel, ExitMode, FixedRResult, FixedRResultModel, Outcome,
    ParametersModel, Simulation, SimulationModel, Trade, TradeFactsModel, TradeModel, UserResult,
    UserResultModel,
};
use crate::backtest::report::{
    are_summable, body_of, lemma_countable_below, count_text, distribution_of, quartiles, quartiles_of, r_distribution, report_times,
    row, row_of, share, share_of, simulations, simulations_of, standard_body, standard_markdown,
    standard_of, summable, times_of, ReportTimes, ReportTimesModel, MAX_REPORTED, PLAIN,
    REPORT_LIMIT, SMALL,
};
use crate::backtest::source::{
    evaluated, excluded, filled_in, unresolved, user_buffer, user_multiple, with_issue,
};
use crate::backtest::stats::{
    collect, collected, count, count_of, countable, heft, is_light, number, number_of, quantile,
    quantile_of, stats, stats_of, Measure, MAX_ROWS, SUM_LIMIT,
};
use crate::text::{
    chars_of, decimal, decimal_text, digits, join, joined, list_has, owned, push_decimal,
};

verus! {

/// Head of the report on fixed exits.
pub const FIXED_HEAD: &'static str = "# 固定 R 出场评估：C2 入场时机的方向性优势\n\n本模式不使用生产目标，不代表生产策略 RR。+1R/+2R/+3R 是同一告警、同一成交的三个独立假设，不是三次独立交易或分批止盈；不可合并样本量。真实目标就绪后以真目标模式为准。\n\n1R = 实际成交价与失效位距离。先触目标率 = win/(win+loss+expired)，分母为完整持仓样本；win/loss 胜率另列。结算期望 = win/loss 的平均 realized RR；含到期期望 = (win/loss 的 RR + expired 的期末浮动 RR)/完整持仓 N（不是已实现收益）。缺口、尾部不足和未成交不进入这些分母。MFE/MAE 分位数采用线性插值，均为退出前保守可确认路径值。\n\n置信度/质量沿用参数中所列共享护栏版本；固定 R 不因虚拟目标而提升生产置信度。\n\n";

/// What the report on the risk of the second candle compares.
pub const USER_NOTE: &'static str = "user-v1 无条件按锚点已收盘 M1 close 立即成交，锚点根不计持有；下一根 M1 起计 H（默认 5×比较周期）。止损为交易品种当时已确认 C2 的影线极值 ± buffer，点值复用生产 truncate_price 的 price_decimals。按 kickoff 退化条款，未加缓冲的 C2 极值已不在入场不利侧则全组排除 degenerate_stop，不靠 buffer 挽救。目标为实际入场 ± r×初始风险。目标/止损同根双触按 loss；到期浮动单列。缺口不猜测，按符号排除最新可能未收盘 M1。\n\n12 组共享同一告警，不是独立交易；原结构止损 1/2/3R 对照使用同一只读事务快照、相同锚点价格立即入场，只保留原生产失效位。两组均不再检查实体边界或等待回调；均要求当时交易品种 C2 已确认。模拟不计通知及下单延迟。独立 fixed-r/targets 命令仍保留历史口径，不等于本报告的 fixed_r_anchor 对照。置信度沿用生产护栏，不因用户目标提分。target1_in_user_R 为带方向的 (生产 target1−用户入场)/用户风险，无目标或无有效风险留空；负数表示目标已在入场后方，不取绝对值美化距离。\n\n胜率只用 Win/Loss，期望仅已结算 RR；expired 浮动分布为 P25/P50/P75/P90（线性插值）。不含点差、滑点、费用与通知延迟；历史证据修订、样本相关及单一市场窗口限制外推。只读生产，模拟字段仅在 eval 库；同 cohort 冻结，新数据须新 cohort。\n\n| 模式 | buffer 点 | R | N | W | L | expired | gap | insufficient | excluded/其他 | 结算 N | 胜率 | 结算均值 RR | expired均值 | expired P25/P50/P75/P90 | 提示 |\n| --- | ---: | ---: | ---: | ---: | ---: | ---: | ---: | ---: | ---: | ---: | ---: | ---: | ---: | --- | --- |\n";

/// Head of the table of first targets.
pub const TARGET_HEAD: &'static str = "\n## 流动性 target1 在用户风险尺度下的位置\n\n每个 buffer 每条告警只计一次，不把四个 R 组重复计数；有效 target1 N<10 时分位数不可下结论。\n\n| buffer 点 | 有效 target1 N | P25 | P50 | P75 | P90 |\n| --- | ---: | ---: | ---: | ---: | ---: |\n";

/// Hint at a small sample of positions that ran out of time.
pub const FEW_EXPIRED: &'static str = "结算为描述统计；到期样本<10，不可下结论";

/// Column names of the table of trades.
pub const CSV_HEAD: &'static str = "exit_mode,r_multiple,run_id,alert_id,candidate_id,smt_id,watchlist_id,symbol,as_of_ts,direction,confidence,quality,session,weekly_slot,holding_bars,outcome,reason,entry,entry_ts,exit_ts,realized_rr,floating_rr,mfe_rr,mae_rr,time_to_entry_ms,time_to_target_ms,time_to_stop_ms,production_theoretical_rr,price_guardrails_json,evidence_hash,data_issues_json,available_future_m1,anchor_gap_json";

/// Further columns with the risk of the second candle.
pub const CSV_USER_COLUMNS: &'static str = ",buffer_points,user_stop,user_target,target1_in_user_R";

/// What the table of trades says in JSON, and the planned ratio of reward to
/// risk.
#[derive(Debug)]
pub struct TradeTexts {
    pub guardrails_json: String,
    pub anchor_gap_json: String,
    /// Empty where there is none.
    pub planned_rr: String,
}

/// Mathematical content of a [`TradeTexts`].
pub struct TradeTextsModel {
    pub guardrails_json: Seq<char>,
    pub anchor_gap_json: Seq<char>,
    pub planned_rr: Seq<char>,
}

impl View for TradeTexts {
    type V = TradeTextsModel;

    open spec fn view(&self) -> TradeTextsModel {
        TradeTextsModel {
            guardrails_json: self.guardrails_json@,
            anchor_gap_json: self.anchor_gap_json@,
            planned_rr: self.planned_rr@,
        }
    }
}

impl DeepView for TradeTexts {
    type V = TradeTextsModel;

    open spec fn deep_view(&self) -> TradeTextsModel {
        self@
    }
}

impl Clone for TradeTexts {
    fn clone(&self) -> (r: Self)
        ensures
            r@ == self@,
    {
        let r = TradeTexts {
            guardrails_json: self.guardrails_json.clone(),
            anchor_gap_json: self.anchor_gap_json.clone(),
            planned_rr: self.planned_rr.clone(),
        };
        r
    }
}

/// The result for a whole multiple.
pub open spec fn first_exit(list: Seq<FixedRResultModel>, r: u8) -> Option<SimulationModel>
    decreases list.len(),
{
    if list.len() == 0 {
        None
    } else if list[0].multiple == r {
        Some(list[0].simulation)
    } else {
        first_exit(list.drop_first(), r)
    }
}

/// The result for a buffer and a multiple.
pub open spec fn first_user(list: Seq<UserResultModel>, buffer: u8, multiple: u32) -> Option<
    UserResultModel,
>
    decreases list.len(),
{
    if list.len() == 0 {
        None
    } else if list[0].buffer_points == buffer && list[0].multiple == multiple {
        Some(list[0])
    } else {
        first_user(list.drop_first(), buffer, multiple)
    }
}

/// Every trade has a result for a whole multiple.
pub open spec fn has_exit(trades: Seq<TradeModel>, r: u8) -> bool {
    forall|k: int| 0 <= k < trades.len() ==> first_exit((#[trigger] trades[k]).fixed_r, r) is Some
}

/// Every trade has a result for a buffer and a multiple.
pub open spec fn has_user(trades: Seq<TradeModel>, buffer: u8, multiple: u32) -> bool {
    forall|k: int|
        0 <= k < trades.len() ==> first_user((#[trigger] trades[k]).user_v1, buffer, multiple)
            is Some
}

/// The run as if a whole multiple had been its only exit.
pub open spec fn projected_r(e: EvaluationModel, r: u8) -> EvaluationModel {
    EvaluationModel {
        parameters: ParametersModel {
            mode: if e.parameters.mode is UserV1 {
                ExitMode::UserV1
            } else {
                ExitMode::FixedR
            },
            ..e.parameters
        },
        trades: Seq::new(
            e.trades.len(),
            |k: int|
                TradeModel {
                    simulation: first_exit(e.trades[k].fixed_r, r)->0,
                    ..e.trades[k]
                },
        ),
        ..e
    }
}

/// The trade as if one buffer and multiple had been simulated alone.
pub open spec fn user_trade(t: TradeModel, buffer: u8, multiple: u32) -> TradeModel {
    let s = first_user(t.user_v1, buffer, multiple)->0.simulation;
    TradeModel {
        simulation: s,
        data_issues: with_issue(
            t.data_issues,
            unresolved(s.outcome) && !t.data_issues.contains(s.reason),
            s.reason,
        ),
        ..t
    }
}

/// The run as if one buffer and multiple had been simulated alone.
pub open spec fn projected_user(e: EvaluationModel, buffer: u8, multiple: u32) -> EvaluationModel {
    EvaluationModel {
        trades: Seq::new(e.trades.len(), |k: int| user_trade(e.trades[k], buffer, multiple)),
        ..e
    }
}

fn find_exit(list: &Vec<FixedRResult>, r: u8) -> (s: Option<Simulation>)
    ensures
        s.deep_view() == first_exit(list.deep_view(), r),
{
    let mut i: usize = 0;
    assert(list.deep_view().skip(0) =~= list.deep_view());
    while i < list.len()
        invariant
            i <= list.len(),
            first_exit(list.deep_view(), r) == first_exit(list.deep_view().skip(i as int), r),
        decreases list.len() - i,
    {
        let ghost rest = list.deep_view().skip(i as int);
        assert(rest[0] == list@[i as int]@);
        if list[i].multiple == r {
            return Some(list[i].simulation.clone());
        }
        assert(rest.drop_first() =~= list.deep_view().skip(i + 1));
        i += 1;
    }
    None
}

fn find_user(list: &Vec<UserResult>, buffer: u8, multiple: u32) -> (s: Option<UserResult>)
    ensures
        s.deep_view() == first_user(list.deep_view(), buffer, multiple),
{
    let mut i: usize = 0;
    assert(list.deep_view().skip(0) =~= list.deep_view());
    while i < list.len()
        invariant
            i <= list.len(),
            first_user(list.deep_view(), buffer, multiple) == first_user(
                list.deep_view().skip(i as int),
                buffer,
                multiple,
            ),
        decreases list.len() - i,
    {
        let ghost rest = list.deep_view().skip(i as int);
        assert(rest[0] == list@[i as int]@);
        if list[i].buffer_points == buffer && list[i].multiple == multiple {
            return Some(list[i].clone());
        }
        assert(rest.drop_first() =~= list.deep_view().skip(i + 1));
        i += 1;
    }
    None
}

/// Projects a run onto a whole multiple.
pub fn project_r(e: &Evaluation, r: u8) -> (p: Evaluation)
    requires
        has_exit(e@.trades, r),
    ensures
        p@ == projected_r(e@, r),
{
    let mut p = e.clone();
    if !matches!(p.parameters.mode, ExitMode::UserV1) {
        p.parameters.mode = ExitMode::FixedR;
    }
    let mut trades: Vec<Trade> = Vec::new();
    let mut i: usize = 0;
    let ghost goal = projected_r(e@, r).trades;
    assert(trades.deep_view() =~= goal.take(0));
    while i < e.trades.len()
        invariant
            i <= e.trades.len(),
            has_exit(e@.trades, r),
            goal == projected_r(e@, r).trades,
            trades.deep_view() == goal.take(i as int),
        decreases e.trades.len() - i,
    {
        let ghost before = trades.deep_view();
        assert(first_exit(e@.trades[i as int].fixed_r, r) is Some);
        let mut t = e.trades[i].clone();
        match find_exit(&e.trades[i].fixed_r, r) {
            Some(s) => {
                t.simulation = s;
            },
            None => {},
        }
        let ghost m = t@;
        trades.push(t);
        assert(trades.deep_view() =~= before.push(m));
        assert(goal.take(i + 1) =~= goal.take(i as int).push(goal[i as int]));
        i += 1;
    }
    assert(goal.take(i as int) =~= goal);
    p.trades = trades;
    p
}

/// Projects a run onto one buffer and multiple.
pub fn project_user(e: &Evaluation, buffer: u8, multiple: u32) -> (p: Evaluation)
    requires
        has_user(e@.trades, buffer, multiple),
    ensures
        p@ == projected_user(e@, buffer, multiple),
{
    let mut p = e.clone();
    let mut trades: Vec<Trade> = Vec::new();
    let mut i: usize = 0;
    let ghost goal = projected_user(e@, buffer, multiple).trades;
    assert(trades.deep_view() =~= goal.take(0));
    while i < e.trades.len()
        invariant
            i <= e.trades.len(),
            has_user(e@.trades, buffer, multiple),
            goal == projected_user(e@, buffer, multiple).trades,
            trades.deep_view() == goal.take(i as int),
        decreases e.trades.len() - i,
    {
        let ghost before = trades.deep_view();
        assert(first_user(e@.trades[i as int].user_v1, buffer, multiple) is Some);
        let mut t = e.trades[i].clone();
        match find_user(&e.trades[i].user_v1, buffer, multiple) {
            Some(u) => {
                let s = u.simulation;
                let open = matches!(
                    s.outcome,
                    Outcome::Excluded | Outcome::DataGap | Outcome::InsufficientData
                );
                if open && !list_has(&t.data_issues, s.reason.as_str()) {
                    let ghost had = t.data_issues.deep_view();
                    t.data_issues.push(s.reason.clone());
                    assert(t.data_issues.deep_view() =~= had.push(s@.reason));
                }
                t.simulation = s;
            },
            None => {},
        }
        let ghost m = t@;
        assert(m == goal[i as int]);
        trades.push(t);
        assert(trades.deep_view() =~= before.push(m));
        assert(goal.take(i + 1) =~= goal.take(i as int).push(goal[i as int]));
        i += 1;
    }
    assert(goal.take(i as int) =~= goal);
    p.trades = trades;
    p
}

/// A power of ten.
pub open spec fn ten_to(places: nat) -> nat
    decreases places,
{
    if places == 0 {
        1
    } else {
        10 * ten_to((places - 1) as nat)
    }
}

/// The decimals of a remainder, without trailing zeros.
pub open spec fn decimals_of(rest: nat, places: nat) -> Seq<char>
    decreases places,
{
    if rest == 0 || places == 0 {
        Seq::empty()
    } else {
        let unit = ten_to((places - 1) as nat);
        seq![(('0' as u32) + rest / unit) as char] + decimals_of(rest % unit, (places - 1) as nat)
    }
}

/// A fixed-point number in its shortest decimal form.
pub open spec fn shortest(n: int, places: nat) -> Seq<char> {
    let m = (if n < 0 {
        -n
    } else {
        n
    }) as nat;
    let scale = ten_to(places);
    (if n < 0 {
        "-"@
    } else {
        Seq::empty()
    }) + digits(m / scale) + (if m % scale == 0 {
        Seq::empty()
    } else {
        "."@ + decimals_of(m % scale, places)
    })
}

fn ten_power(places: u32) -> (r: u128)
    requires
        places <= 18,
    ensures
        r == ten_to(places as nat),
        0 < r <= 1_000_000_000_000_000_000,
{
    proof {
        reveal_with_fuel(ten_to, 19);
    }
    let mut r: u128 = 1;
    let mut i: u32 = 0;
    while i < places
        invariant
            i <= places <= 18,
            r == ten_to(i as nat),
            0 < r,
            ten_to(18) == 1_000_000_000_000_000_000,
            forall|k: nat| k <= 18 ==> #[trigger] ten_to(k) <= 1_000_000_000_000_000_000,
        decreases places - i,
    {
        assert(ten_to((i + 1) as nat) == 10 * ten_to(i as nat));
        assert(ten_to((i + 1) as nat) <= 1_000_000_000_000_000_000);
        r = 10 * r;
        i += 1;
    }
    assert(ten_to(places as nat) <= 1_000_000_000_000_000_000);
    r
}

fn push_decimals(out: &mut String, rest: u128, places: u32)
    requires
        rest < ten_to(places as nat),
        places <= 18,
    ensures
        final(out)@ == old(out)@ + decimals_of(rest as nat, places as nat),
    decreases places,
{
    if rest == 0 || places == 0 {
        assert(out@ =~= old(out)@ + decimals_of(rest as nat, places as nat));
        return ;
    }
    let unit: u128 = ten_power(places - 1);
    let d: u128 = rest / unit;
    assert(d < 10) by (nonlinear_arith)
        requires
            d == rest / unit,
            rest < 10 * unit,
            unit > 0,
    ;
    push_decimal(out, d as i64);
    assert(decimal(d as int) =~= seq![(('0' as u32) + d) as char]);
    push_decimals(out, rest % unit, places - 1);
    assert(out@ =~= old(out)@ + decimals_of(rest as nat, places as nat));
}

fn push_digits_wide(out: &mut String, n: u128)
    ensures
        final(out)@ == old(out)@ + digits(n as nat),
    decreases n,
{
    if n < 10 {
        push_decimal(out, n as i64);
    } else {
        push_digits_wide(out, n / 10);
        push_decimal(out, (n % 10) as i64);
        assert(digits((n % 10) as nat) =~= seq![(('0' as u32) + n % 10) as char]);
        assert(out@ =~= old(out)@ + digits(n as nat));
    }
}

/// Writes a fixed-point number in its shortest decimal form.
pub fn shortest_text(n: i128, places: u32) -> (r: String)
    requires
        places <= 18,
    ensures
        r@ == shortest(n as int, places as nat),
{
    let mut out = String::new();
    let m: u128 = if n < 0 {
        out.append("-");
        (-(n + 1)) as u128 + 1
    } else {
        n as u128
    };
    let scale: u128 = ten_power(places);
    push_digits_wide(&mut out, m / scale);
    if m % scale != 0 {
        out.append(".");
        push_decimals(&mut out, m % scale, places);
    }
    assert(out@ =~= shortest(n as int, places as nat));
    out
}

proof fn lemma_counts(rows: Seq<SimulationModel>)
    ensures
        count_of(Outcome::Win, rows) + count_of(Outcome::Loss, rows) + count_of(
            Outcome::Expired,
            rows,
        ) + count_of(Outcome::DataGap, rows) + count_of(Outcome::InsufficientData, rows)
            <= rows.len(),
    decreases rows.len(),
{
    if rows.len() > 0 {
        lemma_counts(rows.drop_last());
    }
}

/// The cells of one group in the comparison of exits.
pub open spec fn group_cells(
    mode: Seq<char>,
    buffer: Seq<char>,
    multiple: Seq<char>,
    rows: Seq<SimulationModel>,
) -> Seq<Seq<char>> {
    let s = stats_of(rows);
    let w = count_of(Outcome::Win, rows);
    let l = count_of(Outcome::Loss, rows);
    let ex = count_of(Outcome::Expired, rows);
    let gap = count_of(Outcome::DataGap, rows);
    let insufficient = count_of(Outcome::InsufficientData, rows);
    seq![
        mode,
        buffer,
        multiple,
        decimal(rows.len() as int),
        decimal(w as int),
        decimal(l as int),
        decimal(ex as int),
        decimal(gap as int),
        decimal(insufficient as int),
        decimal(rows.len() - w - l - ex - gap - insufficient),
        decimal(s.resolved as int),
        number_of(share_of(s.wins, s.resolved)),
        number_of(s.mean),
        number_of(s.floating),
        quartiles_of(collected(Measure::Floating, rows)),
        if s.resolved < 10 {
            SMALL@
        } else if 0 < ex < 10 {
            FEW_EXPIRED@
        } else {
            PLAIN@
        },
    ]
}

#[verifier::rlimit(60)]
fn write_group(mode: &str, buffer: &str, multiple: &str, rows: &Vec<Simulation>) -> (r: String)
    requires
        rows.len() <= MAX_ROWS,
        countable(rows.deep_view(), SUM_LIMIT as int),
    ensures
        r@ == row_of(group_cells(mode@, buffer@, multiple@, rows.deep_view())),
{
    let s = stats(rows);
    let w: usize = count(Outcome::Win, rows);
    let l: usize = count(Outcome::Loss, rows);
    let ex: usize = count(Outcome::Expired, rows);
    let gap: usize = count(Outcome::DataGap, rows);
    let insufficient: usize = count(Outcome::InsufficientData, rows);
    proof {
        lemma_counts(rows.deep_view());
    }
    let floating = collect(Measure::Floating, rows);
    assert(heft(collected(Measure::Floating, rows.deep_view())) <= SUM_LIMIT);
    let mut cells: Vec<String> = Vec::new();
    cells.push(owned(mode));
    cells.push(owned(buffer));
    cells.push(owned(multiple));
    cells.push(count_text(rows.len()));
    cells.push(count_text(w));
    cells.push(count_text(l));
    cells.push(count_text(ex));
    cells.push(count_text(gap));
    cells.push(count_text(insufficient));
    cells.push(count_text(rows.len() - w - l - ex - gap - insufficient));
    cells.push(count_text(s.resolved));
    cells.push(number(share(s.wins, s.resolved)));
    cells.push(number(s.mean));
    cells.push(number(s.floating));
    cells.push(quartiles(&floating));
    cells.push(
        owned(
            if s.resolved < 10 {
                SMALL
            } else if ex > 0 && ex < 10 {
                FEW_EXPIRED
            } else {
                PLAIN
            },
        ),
    );
    assert(cells.deep_view() =~= group_cells(mode@, buffer@, multiple@, rows.deep_view()));
    row(&cells)
}

/// Every result of the grid and every whole multiple is there.
pub open spec fn complete(e: EvaluationModel) -> bool {
    &&& forall|k: int|
        0 <= k < 12 ==> has_user(
            e.trades,
            #[trigger] user_buffer(k / 4),
            #[trigger] user_multiple(k % 4),
        )
    &&& has_exits(e)
}

/// Every whole multiple is there.
pub open spec fn has_exits(e: EvaluationModel) -> bool {
    has_exit(e.trades, 1) && has_exit(e.trades, 2) && has_exit(e.trades, 3)
}

/// The results of every whole multiple can be summed.
pub open spec fn summable_exits(e: EvaluationModel) -> bool {
    forall|n: u8| 1 <= n <= 3 ==> summable((#[trigger] projected_r(e, n)).trades)
}

/// The results of every place of the grid can be summed.
pub open spec fn summable_grid(e: EvaluationModel) -> bool {
    forall|k: int|
        0 <= k < 12 ==> summable(
            projected_user(
                e,
                #[trigger] user_buffer(k / 4),
                #[trigger] user_multiple(k % 4),
            ).trades,
        )
}

/// The distances of the first targets can be summed.
pub open spec fn light_targets(trades: Seq<TradeModel>) -> bool {
    forall|n: int|
        0 <= n < 3 ==> heft(target_distances(trades, #[trigger] user_buffer(n))) <= SUM_LIMIT
}

/// Whatever the report of a run adds up stays inside its integers.
pub open spec fn tallied(e: EvaluationModel) -> bool {
    match e.parameters.mode {
        ExitMode::Targets => summable(e.trades),
        ExitMode::FixedR => summable_exits(e),
        ExitMode::UserV1 => summable_exits(e) && summable_grid(e) && light_targets(e.trades),
    }
}

/// The rows of the grid in the comparison of exits, for its first places.
pub open spec fn grid_rows(e: EvaluationModel, n: nat) -> Seq<char>
    decreases n,
{
    if n == 0 {
        Seq::empty()
    } else {
        let k = n - 1;
        grid_rows(e, (n - 1) as nat) + row_of(
            group_cells(
                "user-v1"@,
                decimal(user_buffer(k / 4) as int),
                shortest(user_multiple(k % 4) as int, 3),
                simulations_of(
                    projected_user(e, user_buffer(k / 4), user_multiple(k % 4)).trades,
                ),
            ),
        )
    }
}

/// The rows of the whole multiples in the comparison of exits.
pub open spec fn control_rows(e: EvaluationModel, n: nat) -> Seq<char>
    decreases n,
{
    if n == 0 {
        Seq::empty()
    } else {
        control_rows(e, (n - 1) as nat) + row_of(
            group_cells(
                "原结构止损"@,
                "—"@,
                decimal(n as int),
                simulations_of(projected_r(e, n as u8).trades),
            ),
        )
    }
}

fn buffer_of(k: usize) -> (r: u8)
    ensures
        r == user_buffer(k as int),
{
    if k == 0 {
        0
    } else if k == 1 {
        5
    } else {
        10
    }
}

fn multiple_of_place(k: usize) -> (r: u32)
    ensures
        r == user_multiple(k as int),
{
    if k == 0 {
        1000
    } else if k == 1 {
        1500
    } else if k == 2 {
        2000
    } else {
        3000
    }
}

proof fn lemma_place(e: EvaluationModel, k: int)
    requires
        complete(e),
        0 <= k < 12,
    ensures
        has_user(e.trades, user_buffer(k / 4), user_multiple(k % 4)),
{
}

fn write_grid(e: &Evaluation) -> (r: String)
    requires
        complete(e@),
        e.trades.len() <= MAX_REPORTED,
        summable_grid(e@),
    ensures
        r@ == grid_rows(e@, 12),
{
    let mut out = String::new();
    let mut k: usize = 0;
    assert(out@ =~= Seq::<char>::empty());
    while k < 12
        invariant
            k <= 12,
            complete(e@),
            e.trades.len() <= MAX_REPORTED,
            summable_grid(e@),
            out@ == grid_rows(e@, k as nat),
        decreases 12 - k,
    {
        let buffer: u8 = buffer_of(k / 4);
        let multiple: u32 = multiple_of_place(k % 4);
        proof {
            lemma_place(e@, k as int);
        }
        let p = project_user(e, buffer, multiple);
        assert(p@.trades.len() == e@.trades.len());
        let rows = simulations(&p.trades);
        assert(countable(rows.deep_view(), SUM_LIMIT as int)) by {
            assert(summable(p@.trades));
            lemma_countable_below(rows.deep_view(), REPORT_LIMIT as int, SUM_LIMIT as int);
        }
        let text = write_group(
            "user-v1",
            decimal_text(buffer as i64).as_str(),
            shortest_text(multiple as i128, 3).as_str(),
            &rows,
        );
        out.append(text.as_str());
        k += 1;
    }
    out
}

fn write_controls(e: &Evaluation) -> (r: String)
    requires
        has_exits(e@),
        e.trades.len() <= MAX_REPORTED,
        summable_exits(e@),
    ensures
        r@ == control_rows(e@, 3),
{
    let mut out = String::new();
    let mut n: u8 = 0;
    assert(out@ =~= Seq::<char>::empty());
    while n < 3
        invariant
            n <= 3,
            has_exits(e@),
            e.trades.len() <= MAX_REPORTED,
            summable_exits(e@),
            out@ == control_rows(e@, n as nat),
        decreases 3 - n,
    {
        n += 1;
        let p = project_r(e, n);
        assert(p@.trades.len() == e@.trades.len());
        let rows = simulations(&p.trades);
        assert(countable(rows.deep_view(), SUM_LIMIT as int)) by {
            assert(summable(p@.trades));
            lemma_countable_below(rows.deep_view(), REPORT_LIMIT as int, SUM_LIMIT as int);
        }
        let text = write_group("原结构止损", "—", decimal_text(n as i64).as_str(), &rows);
        out.append(text.as_str());
    }
    out
}

/// The signed distances of the first targets.
pub open spec fn target_distances(trades: Seq<TradeModel>, buffer: u8) -> Seq<i128>
    decreases trades.len(),
{
    if trades.len() == 0 {
        Seq::empty()
    } else {
        let rest = target_distances(trades.drop_last(), buffer);
        match first_user(trades.last().user_v1, buffer, 1000) {
            Some(u) => match u.target1_in_user_r {
                Some(x) => rest.push(x),
                None => rest,
            },
            None => rest,
        }
    }
}

fn collect_targets(trades: &Vec<Trade>, buffer: u8) -> (r: Vec<i128>)
    ensures
        r@ == target_distances(trades.deep_view(), buffer),
{
    let mut out: Vec<i128> = Vec::new();
    let mut i: usize = 0;
    assert(out@ =~= Seq::<i128>::empty());
    while i < trades.len()
        invariant
            i <= trades.len(),
            out@ == target_distances(trades.deep_view().take(i as int), buffer),
        decreases trades.len() - i,
    {
        proof {
            let now = trades.deep_view().take(i + 1);
            assert(now.drop_last() =~= trades.deep_view().take(i as int));
            assert(now.last() == trades@[i as int]@);
        }
        match find_user(&trades[i].user_v1, buffer, 1000) {
            Some(u) => match u.target1_in_user_r {
                Some(x) => out.push(x),
                None => {},
            },
            None => {},
        }
        i += 1;
    }
    assert(trades.deep_view().take(i as int) =~= trades.deep_view());
    out
}

/// The cells of a buffer in the table of first targets.
pub open spec fn target_cells(buffer: u8, v: Seq<i128>) -> Seq<Seq<char>> {
    seq![
        decimal(buffer as int),
        decimal(v.len() as int),
        number_of(quantile_of(v, 25)),
        number_of(quantile_of(v, 50)),
        number_of(quantile_of(v, 75)),
        number_of(quantile_of(v, 90)),
    ]
}

/// The rows of the table of first targets, for the first buffers.
pub open spec fn target_rows(trades: Seq<TradeModel>, n: nat) -> Seq<char>
    decreases n,
{
    if n == 0 {
        Seq::empty()
    } else {
        let buffer = user_buffer(n - 1);
        target_rows(trades, (n - 1) as nat) + row_of(
            target_cells(buffer, target_distances(trades, buffer)),
        )
    }
}

fn write_targets(trades: &Vec<Trade>) -> (r: String)
    requires
        light_targets(trades.deep_view()),
    ensures
        r@ == target_rows(trades.deep_view(), 3),
{
    let mut out = String::new();
    let mut n: usize = 0;
    assert(out@ =~= Seq::<char>::empty());
    while n < 3
        invariant
            n <= 3,
            light_targets(trades.deep_view()),
            out@ == target_rows(trades.deep_view(), n as nat),
        decreases 3 - n,
    {
        let buffer: u8 = buffer_of(n);
        let v = collect_targets(trades, buffer);
        let mut cells: Vec<String> = Vec::new();
        cells.push(decimal_text(buffer as i64));
        cells.push(count_text(v.len()));
        cells.push(number(quantile(&v, 25)));
        cells.push(number(quantile(&v, 50)));
        cells.push(number(quantile(&v, 75)));
        cells.push(number(quantile(&v, 90)));
        assert(cells.deep_view() =~= target_cells(buffer, v@));
        out.append(row(&cells).as_str());
        n += 1;
    }
    out
}

/// The comparison of exits.
#[verifier::opaque]
pub open spec fn summary_of(e: EvaluationModel) -> Seq<char> {
    "# user-v1 用户策略与原结构止损：统一即时入场对照\n\nRun: `"@ + e.run_id + "`；evaluator "@ + e.parameters.version + "；cohort `"@ + e.parameters.cohort
        + "`。\n\n"@ + USER_NOTE@ + grid_rows(e, 12) + control_rows(e, 3) + TARGET_HEAD@
        + target_rows(e.trades, 3)
}

/// Writes the comparison of exits.
pub fn user_summary(e: &Evaluation) -> (r: String)
    requires
        complete(e@),
        e.trades.len() <= MAX_REPORTED,
        summable_exits(e@),
        summable_grid(e@),
        light_targets(e@.trades),
    ensures
        r@ == summary_of(e@),
{
    reveal(summary_of);
    let mut out = owned("# user-v1 用户策略与原结构止损：统一即时入场对照\n\nRun: `");
    out.append(e.run_id.as_str());
    out.append("`；evaluator ");
    out.append(e.parameters.version.as_str());
    out.append("；cohort `");
    out.append(e.parameters.cohort.as_str());
    out.append("`。\n\n");
    out.append(USER_NOTE);
    out.append(write_grid(e).as_str());
    out.append(write_controls(e).as_str());
    out.append(TARGET_HEAD);
    out.append(write_targets(&e.trades).as_str());
    out
}

/// One section of the report per place of the grid.
pub open spec fn grid_sections(
    e: EvaluationModel,
    parameters: Seq<char>,
    times: ReportTimesModel,
    n: nat,
) -> Seq<char>
    decreases n,
{
    if n == 0 {
        Seq::empty()
    } else {
        let k = n - 1;
        let p = projected_user(e, user_buffer(k / 4), user_multiple(k % 4));
        grid_sections(e, parameters, times, (n - 1) as nat) + ("\n## user-v1 buffer="@ + decimal(
            user_buffer(k / 4) as int,
        ) + " 点 / +"@ + shortest(user_multiple(k % 4) as int, 3) + "R\n\n"@ + distribution_of(
            p.trades,
        ) + body_of(p, parameters, times))
    }
}

/// One section of the report per whole multiple, as a control.
pub open spec fn control_sections(
    e: EvaluationModel,
    parameters: Seq<char>,
    times: ReportTimesModel,
    n: nat,
) -> Seq<char>
    decreases n,
{
    if n == 0 {
        Seq::empty()
    } else {
        let p = projected_r(e, n as u8);
        control_sections(e, parameters, times, (n - 1) as nat) + ("\n### 原结构止损 +"@ + decimal(n as int)
            + "R\n\n"@ + distribution_of(p.trades) + body_of(p, parameters, times))
    }
}

/// One full report per whole multiple.
pub open spec fn exit_sections(
    e: EvaluationModel,
    parameters: Seq<char>,
    times: ReportTimesModel,
    n: nat,
) -> Seq<char>
    decreases n,
{
    if n == 0 {
        Seq::empty()
    } else {
        let p = projected_r(e, n as u8);
        exit_sections(e, parameters, times, (n - 1) as nat) + ("## +"@ + decimal(n as int)
            + "R 独立出场\n\n"@ + distribution_of(p.trades) + "\n\n"@ + standard_of(p, parameters, times))
    }
}

/// The report in the mode of the run.
pub open spec fn report_of(e: EvaluationModel, parameters: Seq<char>, times: ReportTimesModel) -> Seq<
    char,
> {
    match e.parameters.mode {
        ExitMode::Targets => standard_of(e, parameters, times),
        ExitMode::FixedR => FIXED_HEAD@ + exit_sections(e, parameters, times, 3),
        ExitMode::UserV1 => summary_of(e) + grid_sections(e, parameters, times, 12) + "\n## 同快照原结构止损对照（统一锚点收盘立即入场）\n\n"@
            + control_sections(e, parameters, times, 3),
    }
}

fn write_grid_sections(e: &Evaluation, parameters: &str, times: &ReportTimes) -> (r: String)
    requires
        complete(e@),
        e.trades.len() <= MAX_REPORTED,
        summable_grid(e@),
        times.cutoffs.len() == e.symbol_cutoffs.len(),
    ensures
        r@ == grid_sections(e@, parameters@, times@, 12),
{
    let mut out = String::new();
    let mut k: usize = 0;
    assert(out@ =~= Seq::<char>::empty());
    while k < 12
        invariant
            k <= 12,
            complete(e@),
            e.trades.len() <= MAX_REPORTED,
            summable_grid(e@),
            times.cutoffs.len() == e.symbol_cutoffs.len(),
            out@ == grid_sections(e@, parameters@, times@, k as nat),
        decreases 12 - k,
    {
        let buffer: u8 = buffer_of(k / 4);
        let multiple: u32 = multiple_of_place(k % 4);
        proof {
            lemma_place(e@, k as int);
        }
        let p = project_user(e, buffer, multiple);
        assert(p@.trades.len() == e@.trades.len());
        assert(p@.symbol_cutoffs.len() == e@.symbol_cutoffs.len());
        let mut section = owned("\n## user-v1 buffer=");
        push_decimal(&mut section, buffer as i64);
        section.append(" 点 / +");
        section.append(shortest_text(multiple as i128, 3).as_str());
        section.append("R\n\n");
        section.append(r_distribution(&p.trades).as_str());
        section.append(standard_body(&p, parameters, times).as_str());
        out.append(section.as_str());
        k += 1;
    }
    out
}

fn write_control_sections(e: &Evaluation, parameters: &str, times: &ReportTimes) -> (r: String)
    requires
        has_exits(e@),
        e.trades.len() <= MAX_REPORTED,
        summable_exits(e@),
        times.cutoffs.len() == e.symbol_cutoffs.len(),
    ensures
        r@ == control_sections(e@, parameters@, times@, 3),
{
    let mut out = String::new();
    let mut n: u8 = 0;
    assert(out@ =~= Seq::<char>::empty());
    while n < 3
        invariant
            n <= 3,
            has_exits(e@),
            e.trades.len() <= MAX_REPORTED,
            summable_exits(e@),
            times.cutoffs.len() == e.symbol_cutoffs.len(),
            out@ == control_sections(e@, parameters@, times@, n as nat),
        decreases 3 - n,
    {
        n += 1;
        let p = project_r(e, n);
        assert(p@.trades.len() == e@.trades.len());
        assert(p@.symbol_cutoffs.len() == e@.symbol_cutoffs.len());
        let mut section = owned("\n### 原结构止损 +");
        push_decimal(&mut section, n as i64);
        section.append("R\n\n");
        section.append(r_distribution(&p.trades).as_str());
        section.append(standard_body(&p, parameters, times).as_str());
        out.append(section.as_str());
    }
    out
}

fn write_exit_sections(e: &Evaluation, parameters: &str, times: &ReportTimes) -> (r: String)
    requires
        has_exits(e@),
        e.trades.len() <= MAX_REPORTED,
        summable_exits(e@),
        times.cutoffs.len() == e.symbol_cutoffs.len(),
    ensures
        r@ == exit_sections(e@, parameters@, times@, 3),
{
    let mut out = String::new();
    let mut n: u8 = 0;
    assert(out@ =~= Seq::<char>::empty());
    while n < 3
        invariant
            n <= 3,
            has_exits(e@),
            e.trades.len() <= MAX_REPORTED,
            summable_exits(e@),
            times.cutoffs.len() == e.symbol_cutoffs.len(),
            out@ == exit_sections(e@, parameters@, times@, n as nat),
        decreases 3 - n,
    {
        n += 1;
        let p = project_r(e, n);
        assert(p@.trades.len() == e@.trades.len());
        assert(p@.symbol_cutoffs.len() == e@.symbol_cutoffs.len());
        let mut section = owned("## +");
        push_decimal(&mut section, n as i64);
        section.append("R 独立出场\n\n");
        section.append(r_distribution(&p.trades).as_str());
        section.append("\n\n");
        section.append(standard_markdown(&p, parameters, times).as_str());
        out.append(section.as_str());
    }
    out
}

/// The run holds every result that its mode promises.
pub open spec fn reportable(e: EvaluationModel) -> bool {
    match e.parameters.mode {
        ExitMode::Targets => true,
        ExitMode::FixedR => has_exits(e),
        ExitMode::UserV1 => complete(e),
    }
}

/// Writes the report with times that are given as text.
pub fn markdown_at(e: &Evaluation, parameters: &str, times: &ReportTimes) -> (r: String)
    requires
        reportable(e@),
        e.trades.len() <= MAX_REPORTED,
        tallied(e@),
        times.cutoffs.len() == e.symbol_cutoffs.len(),
    ensures
        r@ == report_of(e@, parameters@, times@),
{
    match e.parameters.mode {
        ExitMode::Targets => standard_markdown(e, parameters, times),
        ExitMode::FixedR => {
            let mut out = owned(FIXED_HEAD);
            out.append(write_exit_sections(e, parameters, times).as_str());
            out
        },
        ExitMode::UserV1 => {
            let mut out = user_summary(e);
            out.append(write_grid_sections(e, parameters, times).as_str());
            out.append("\n## 同快照原结构止损对照（统一锚点收盘立即入场）\n\n");
            out.append(write_control_sections(e, parameters, times).as_str());
            out
        },
    }
}

/// Writes the report of a run. `parameters` are its parameters as JSON.
pub fn markdown(e: &Evaluation, parameters: &str) -> (r: String)
    requires
        reportable(e@),
        e.trades.len() <= MAX_REPORTED,
        tallied(e@),
    ensures
        r@ == report_of(e@, parameters@, times_of(e@)),
{
    let times = report_times(e);
    assert(times@.cutoffs.len() == e@.symbol_cutoffs.len());
    markdown_at(e, parameters, &times)
}

/// A quotation mark doubled wherever it stands.
pub open spec fn doubled(s: Seq<char>) -> Seq<char>
    decreases s.len(),
{
    if s.len() == 0 {
        Seq::empty()
    } else if s.last() == '"' {
        doubled(s.drop_last()).push('"').push('"')
    } else {
        doubled(s.drop_last()).push(s.last())
    }
}

/// A cell of the table of trades.
pub open spec fn cell_of(s: Seq<char>) -> Seq<char> {
    "\""@ + doubled(s) + "\""@
}

/// Quotes a cell of the table of trades.
pub fn cell(s: &str) -> (r: String)
    ensures
        r@ == cell_of(s@),
{
    let chars = chars_of(s);
    let mut inner = String::new();
    let mut i: usize = 0;
    assert(inner@ =~= Seq::<char>::empty());
    while i < chars.len()
        invariant
            i <= chars.len(),
            chars@ == s@,
            inner@ == doubled(s@.take(i as int)),
        decreases chars.len() - i,
    {
        proof {
            let now = s@.take(i + 1);
            assert(now.drop_last() =~= s@.take(i as int));
            assert(now.last() == chars@[i as int]);
        }
        if chars[i] == '"' {
            inner.push('"');
            inner.push('"');
        } else {
            inner.push(chars[i]);
        }
        i += 1;
    }
    assert(s@.take(i as int) =~= s@);
    let mut out = owned("\"");
    out.append(inner.as_str());
    out.append("\"");
    out
}

/// A list of texts as a JSON array.
pub uninterp spec fn json_list_of(list: Seq<Seq<char>>) -> Seq<char>;

/// Writes a list of texts with `serde_json::to_string`, which cannot fail on
/// it. Claimed of it: the JSON is a function of the texts.
#[verifier::external_body]
fn json_list(list: &Vec<String>) -> (r: String)
    ensures
        r@ == json_list_of(list.deep_view()),
{
    serde_json::to_string(list).unwrap_or_default()
}

/// The name of the mode in the table of trades.
pub open spec fn mode_words(mode: ExitMode, control: bool) -> Seq<char> {
    match mode {
        ExitMode::UserV1 => if control {
            "fixed_r_anchor"@
        } else {
            "user_v1"@
        },
        ExitMode::FixedR => "fixed_r"@,
        ExitMode::Targets => "targets"@,
    }
}

/// A time or duration where there is one.
pub open spec fn time_cell(x: Option<i64>) -> Seq<char> {
    match x {
        Some(v) => decimal(v as int),
        None => Seq::empty(),
    }
}

/// A fixed-point number where there is one.
pub open spec fn fixed_cell(x: Option<i64>) -> Seq<char> {
    match x {
        Some(v) => shortest(v as int, 9),
        None => Seq::empty(),
    }
}

/// A multiple of the risk where there is one.
pub open spec fn multiple_cell(x: Option<i128>) -> Seq<char> {
    match x {
        Some(v) => shortest(v as int, 18),
        None => Seq::empty(),
    }
}

fn multiple_text(x: Option<i128>) -> (r: String)
    ensures
        r@ == multiple_cell(x),
{
    match x {
        Some(v) => shortest_text(v, 18),
        None => String::new(),
    }
}

fn time_text(x: Option<i64>) -> (r: String)
    ensures
        r@ == time_cell(x),
{
    match x {
        Some(v) => decimal_text(v),
        None => String::new(),
    }
}

fn fixed_text(x: Option<i64>) -> (r: String)
    ensures
        r@ == fixed_cell(x),
{
    match x {
        Some(v) => shortest_text(v as i128, 9),
        None => String::new(),
    }
}

/// The fields of a trade. `issues` are its issues as JSON.
pub open spec fn fields_of(
    e: EvaluationModel,
    t: TradeModel,
    x: TradeTextsModel,
    issues: Seq<char>,
    multiple: Option<u32>,
    control: bool,
) -> Seq<Seq<char>> {
    let s = t.simulation;
    seq![
        mode_words(e.parameters.mode, control),
        match multiple {
            Some(m) => shortest(m as int, 3),
            None => Seq::empty(),
        },
        e.run_id,
        t.alert_id,
        t.candidate_id,
        t.smt_id,
        t.watchlist_id,
        t.symbol,
        decimal(t.as_of_ts as int),
        t.direction,
        match t.confidence {
            Some(c) => decimal(c as int),
            None => Seq::empty(),
        },
        t.quality,
        t.session,
        t.weekly_slot,
        decimal(t.holding_bars as int),
        outcome_words(s.outcome),
        s.reason,
        fixed_cell(s.entry),
        time_cell(s.entry_ts),
        time_cell(s.exit_ts),
        multiple_cell(s.realized_rr),
        multiple_cell(s.floating_rr),
        multiple_cell(s.mfe_rr),
        multiple_cell(s.mae_rr),
        time_cell(s.time_to_entry_ms),
        time_cell(s.time_to_target_ms),
        time_cell(s.time_to_stop_ms),
        x.planned_rr,
        x.guardrails_json,
        match t.evidence_hash {
            Some(h) => h,
            None => Seq::empty(),
        },
        issues,
        decimal(t.available_future_m1 as int),
        x.anchor_gap_json,
    ]
}

/// The further fields of a place of the grid.
pub open spec fn user_fields(u: UserResultModel, buffer: u8) -> Seq<Seq<char>> {
    seq![
        decimal(buffer as int),
        fixed_cell(u.stop),
        match u.target {
            Some(p) => shortest(p as int, 12),
            None => Seq::empty(),
        },
        multiple_cell(u.target1_in_user_r),
    ]
}

/// A line of the table of trades.
pub open spec fn line_of(fields: Seq<Seq<char>>) -> Seq<char> {
    joined(Seq::new(fields.len(), |k: int| cell_of(fields[k])), ","@) + "\n"@
}

fn write_line(fields: &Vec<String>) -> (r: String)
    ensures
        r@ == line_of(fields.deep_view()),
{
    let mut cells: Vec<String> = Vec::new();
    let mut i: usize = 0;
    while i < fields.len()
        invariant
            i <= fields.len(),
            cells.len() == i,
            forall|k: int| 0 <= k < i ==> #[trigger] cells@[k]@ == cell_of(fields@[k]@),
        decreases fields.len() - i,
    {
        cells.push(cell(fields[i].as_str()));
        i += 1;
    }
    assert(cells.deep_view() =~= Seq::new(
        fields.deep_view().len(),
        |k: int| cell_of(fields.deep_view()[k]),
    ));
    let mut out = join(&cells, ",");
    out.append("\n");
    out
}

#[verifier::rlimit(60)]
fn make_fields(
    e: &Evaluation,
    t: &Trade,
    x: &TradeTexts,
    issues: String,
    multiple: Option<u32>,
    control: bool,
) -> (r: Vec<String>)
    ensures
        r.deep_view() == fields_of(e@, t@, x@, issues@, multiple, control),
{
    let s = &t.simulation;
    let mut f: Vec<String> = Vec::new();
    f.push(
        match e.parameters.mode {
            ExitMode::UserV1 => if control {
                owned("fixed_r_anchor")
            } else {
                owned("user_v1")
            },
            ExitMode::FixedR => owned("fixed_r"),
            ExitMode::Targets => owned("targets"),
        },
    );
    f.push(
        match multiple {
            Some(m) => shortest_text(m as i128, 3),
            None => String::new(),
        },
    );
    f.push(e.run_id.clone());
    f.push(t.alert_id.clone());
    f.push(t.candidate_id.clone());
    f.push(t.smt_id.clone());
    f.push(t.watchlist_id.clone());
    f.push(t.symbol.clone());
    f.push(decimal_text(t.as_of_ts));
    f.push(t.direction.clone());
    f.push(
        match t.confidence {
            Some(c) => decimal_text(c as i64),
            None => String::new(),
        },
    );
    f.push(t.quality.clone());
    f.push(t.session.clone());
    f.push(t.weekly_slot.clone());
    f.push(count_text(t.holding_bars));
    f.push(owned(s.outcome.tag()));
    f.push(s.reason.clone());
    f.push(fixed_text(s.entry));
    f.push(time_text(s.entry_ts));
    f.push(time_text(s.exit_ts));
    f.push(multiple_text(s.realized_rr));
    f.push(multiple_text(s.floating_rr));
    f.push(multiple_text(s.mfe_rr));
    f.push(multiple_text(s.mae_rr));
    f.push(time_text(s.time_to_entry_ms));
    f.push(time_text(s.time_to_target_ms));
    f.push(time_text(s.time_to_stop_ms));
    f.push(x.planned_rr.clone());
    f.push(x.guardrails_json.clone());
    f.push(
        match &t.evidence_hash {
            Some(h) => h.clone(),
            None => String::new(),
        },
    );
    f.push(issues);
    f.push(count_text(t.available_future_m1));
    f.push(x.anchor_gap_json.clone());
    assert(f.deep_view() =~= fields_of(e@, t@, x@, issues@, multiple, control));
    f
}

/// The lines of a run without a grid, for a prefix of the trades. `issues` are
/// the issues of each trade as JSON.
pub open spec fn plain_lines(
    e: EvaluationModel,
    texts: Seq<TradeTextsModel>,
    issues: Seq<Seq<char>>,
    multiple: Option<u32>,
    n: nat,
) -> Seq<char>
    decreases n,
{
    if n == 0 {
        Seq::empty()
    } else {
        plain_lines(e, texts, issues, multiple, (n - 1) as nat) + line_of(
            fields_of(e, e.trades[n - 1], texts[n - 1], issues[n - 1], multiple, true),
        )
    }
}

/// The lines of one place of the grid, for a prefix of the trades.
pub open spec fn user_lines(
    e: EvaluationModel,
    texts: Seq<TradeTextsModel>,
    issues: Seq<Seq<char>>,
    buffer: u8,
    multiple: u32,
    n: nat,
) -> Seq<char>
    decreases n,
{
    if n == 0 {
        Seq::empty()
    } else {
        let t = e.trades[n - 1];
        user_lines(e, texts, issues, buffer, multiple, (n - 1) as nat) + line_of(
            fields_of(e, t, texts[n - 1], issues[n - 1], Some(multiple), false) + user_fields(
                first_user(t.user_v1, buffer, multiple)->0,
                buffer,
            ),
        )
    }
}

/// The issues of every trade as JSON.
pub open spec fn issue_texts(trades: Seq<TradeModel>) -> Seq<Seq<char>> {
    Seq::new(trades.len(), |k: int| json_list_of(trades[k].data_issues))
}

/// Writes the issues of every trade as JSON.
pub fn write_issues(trades: &Vec<Trade>) -> (r: Vec<String>)
    ensures
        r.deep_view() == issue_texts(trades.deep_view()),
{
    let mut out: Vec<String> = Vec::new();
    let mut i: usize = 0;
    while i < trades.len()
        invariant
            i <= trades.len(),
            out.len() == i,
            forall|k: int|
                0 <= k < i ==> #[trigger] out@[k]@ == json_list_of(trades@[k]@.data_issues),
        decreases trades.len() - i,
    {
        out.push(json_list(&trades[i].data_issues));
        i += 1;
    }
    assert(out.deep_view() =~= issue_texts(trades.deep_view()));
    out
}

/// Writes the lines of a run without a grid, with issues that are given as
/// JSON.
pub fn plain_table(
    e: &Evaluation,
    texts: &Vec<TradeTexts>,
    issues: &Vec<String>,
    multiple: Option<u32>,
) -> (r: String)
    requires
        texts.len() == e.trades.len(),
        issues.len() == e.trades.len(),
    ensures
        r@ == plain_lines(
            e@,
            texts.deep_view(),
            issues.deep_view(),
            multiple,
            e.trades.len() as nat,
        ),
{
    let mut out = String::new();
    let mut n: usize = 0;
    assert(out@ =~= Seq::<char>::empty());
    while n < e.trades.len()
        invariant
            n <= e.trades.len(),
            texts.len() == e.trades.len(),
            issues.len() == e.trades.len(),
            out@ == plain_lines(e@, texts.deep_view(), issues.deep_view(), multiple, n as nat),
        decreases e.trades.len() - n,
    {
        assert(e@.trades[n as int] == e.trades@[n as int]@);
        assert(texts.deep_view()[n as int] == texts@[n as int]@);
        assert(issues.deep_view()[n as int] == issues@[n as int]@);
        let fields = make_fields(e, &e.trades[n], &texts[n], issues[n].clone(), multiple, true);
        out.append(write_line(&fields).as_str());
        n += 1;
    }
    out
}

/// Writes the lines of one place of the grid, with issues that are given as
/// JSON.
pub fn user_table(
    e: &Evaluation,
    texts: &Vec<TradeTexts>,
    issues: &Vec<String>,
    buffer: u8,
    multiple: u32,
) -> (r: String)
    requires
        texts.len() == e.trades.len(),
        issues.len() == e.trades.len(),
        has_user(e@.trades, buffer, multiple),
        forall|k: int|
            0 <= k < e@.trades.len() ==> (first_user(
                (#[trigger] e@.trades[k]).user_v1,
                buffer,
                multiple,
            )->0.target matches Some(p) ==> p > i128::MIN),
    ensures
        r@ == user_lines(
            e@,
            texts.deep_view(),
            issues.deep_view(),
            buffer,
            multiple,
            e.trades.len() as nat,
        ),
{
    let mut out = String::new();
    let mut n: usize = 0;
    assert(out@ =~= Seq::<char>::empty());
    while n < e.trades.len()
        invariant
            n <= e.trades.len(),
            texts.len() == e.trades.len(),
            issues.len() == e.trades.len(),
            has_user(e@.trades, buffer, multiple),
            forall|k: int|
                0 <= k < e@.trades.len() ==> (first_user(
                    (#[trigger] e@.trades[k]).user_v1,
                    buffer,
                    multiple,
                )->0.target matches Some(p) ==> p > i128::MIN),
            out@ == user_lines(
                e@,
                texts.deep_view(),
                issues.deep_view(),
                buffer,
                multiple,
                n as nat,
            ),
        decreases e.trades.len() - n,
    {
        assert(e@.trades[n as int] == e.trades@[n as int]@);
        assert(texts.deep_view()[n as int] == texts@[n as int]@);
        assert(issues.deep_view()[n as int] == issues@[n as int]@);
        let mut fields = make_fields(
            e,
            &e.trades[n],
            &texts[n],
            issues[n].clone(),
            Some(multiple),
            false,
        );
        let ghost plain = fields.deep_view();
        match find_user(&e.trades[n].user_v1, buffer, multiple) {
            Some(u) => {
                fields.push(decimal_text(buffer as i64));
                fields.push(fixed_text(u.stop));
                fields.push(
                    match u.target {
                        Some(p) => shortest_text(p, 12),
                        None => String::new(),
                    },
                );
                fields.push(multiple_text(u.target1_in_user_r));
                assert(fields.deep_view() =~= plain + user_fields(u@, buffer));
            },
            None => {},
        }
        out.append(write_line(&fields).as_str());
        n += 1;
    }
    out
}

/// Every line filled up with the columns of the grid, which stay empty.
pub open spec fn padded(s: Seq<char>) -> Seq<char>
    decreases s.len(),
{
    if s.len() == 0 {
        Seq::empty()
    } else if s[0] == '\n' {
        ",,,,\n"@ + padded(s.drop_first())
    } else if s[0] == '\r' && s.len() > 1 && s[1] == '\n' {
        padded(s.drop_first())
    } else {
        seq![s[0]] + padded(s.drop_first())
    }
}

/// Fills every line up with the columns of the grid.
pub fn pad_lines(text: &str) -> (r: String)
    ensures
        r@ == padded(text@),
{
    let chars = chars_of(text);
    let mut out = String::new();
    let mut i: usize = 0;
    assert(chars@.skip(0) =~= chars@);
    assert(out@ + padded(chars@.skip(0)) =~= padded(text@));
    while i < chars.len()
        invariant
            i <= chars.len(),
            chars@ == text@,
            out@ + padded(chars@.skip(i as int)) == padded(text@),
        decreases chars.len() - i,
    {
        let ghost rest = chars@.skip(i as int);
        let ghost before = out@;
        assert(rest[0] == chars@[i as int]);
        assert(rest.drop_first() =~= chars@.skip(i + 1));
        assert(i + 1 < chars.len() ==> rest[1] == chars@[i + 1]);
        let c: char = chars[i];
        if c == '\n' {
            out.append(",,,,\n");
        } else if c == '\r' && i + 1 < chars.len() && chars[i + 1] == '\n' {
        } else {
            out.push(c);
        }
        assert(out@ + padded(chars@.skip(i + 1)) =~= before + padded(rest));
        i += 1;
    }
    assert(chars@.skip(i as int) =~= Seq::<char>::empty());
    assert(out@ =~= padded(text@));
    out
}

/// The lines of every place of the grid.
pub open spec fn grid_lines(e: EvaluationModel, texts: Seq<TradeTextsModel>, n: nat) -> Seq<char>
    decreases n,
{
    if n == 0 {
        Seq::empty()
    } else {
        let k = n - 1;
        let (buffer, multiple) = (user_buffer(k / 4), user_multiple(k % 4));
        let p = projected_user(e, buffer, multiple);
        grid_lines(e, texts, (n - 1) as nat) + user_lines(
            p,
            texts,
            issue_texts(p.trades),
            buffer,
            multiple,
            p.trades.len(),
        )
    }
}

/// The lines of every whole multiple.
pub open spec fn exit_lines(
    e: EvaluationModel,
    texts: Seq<TradeTextsModel>,
    n: nat,
    fill: bool,
) -> Seq<char>
    decreases n,
{
    if n == 0 {
        Seq::empty()
    } else {
        let p = projected_r(e, n as u8);
        let lines = plain_lines(
            p,
            texts,
            issue_texts(p.trades),
            Some((n * 1000) as u32),
            p.trades.len(),
        );
        exit_lines(e, texts, (n - 1) as nat, fill) + if fill {
            padded(lines)
        } else {
            lines
        }
    }
}

/// The table of trades in the mode of the run.
pub open spec fn table_of_trades(e: EvaluationModel, texts: Seq<TradeTextsModel>) -> Seq<char> {
    match e.parameters.mode {
        ExitMode::Targets => CSV_HEAD@ + "\n"@ + plain_lines(
            e,
            texts,
            issue_texts(e.trades),
            None,
            e.trades.len(),
        ),
        ExitMode::FixedR => CSV_HEAD@ + "\n"@ + exit_lines(e, texts, 3, false),
        ExitMode::UserV1 => CSV_HEAD@ + CSV_USER_COLUMNS@ + "\n"@ + grid_lines(e, texts, 12)
            + exit_lines(e, texts, 3, true),
    }
}

/// Every target of the grid can be written as a number.
pub open spec fn writable(e: EvaluationModel) -> bool {
    forall|k: int| 0 <= k < e.trades.len() ==> writable_grid((#[trigger] e.trades[k]).user_v1)
}

/// Every target of one grid can be written as a number.
pub open spec fn writable_grid(list: Seq<UserResultModel>) -> bool {
    forall|j: int|
        0 <= j < list.len() ==> ((#[trigger] list[j]).target matches Some(p) ==> p > i128::MIN)
}

proof fn lemma_first_user_writable(list: Seq<UserResultModel>, buffer: u8, multiple: u32)
    requires
        writable_grid(list),
    ensures
        first_user(list, buffer, multiple) matches Some(u) ==> (u.target matches Some(p) ==> p
            > i128::MIN),
    decreases list.len(),
{
    if list.len() > 0 {
        let tail = list.drop_first();
        assert forall|j: int| 0 <= j < tail.len() implies ((#[trigger] tail[j]).target matches Some(
            p,
        ) ==> p > i128::MIN) by {
            assert(tail[j] == list[j + 1]);
        }
        lemma_first_user_writable(tail, buffer, multiple);
    }
}

fn write_grid_lines(e: &Evaluation, texts: &Vec<TradeTexts>) -> (r: String)
    requires
        complete(e@),
        writable(e@),
        texts.len() == e.trades.len(),
    ensures
        r@ == grid_lines(e@, texts.deep_view(), 12),
{
    let mut out = String::new();
    let mut k: usize = 0;
    assert(out@ =~= Seq::<char>::empty());
    while k < 12
        invariant
            k <= 12,
            complete(e@),
            writable(e@),
            texts.len() == e.trades.len(),
            out@ == grid_lines(e@, texts.deep_view(), k as nat),
        decreases 12 - k,
    {
        let buffer: u8 = buffer_of(k / 4);
        let multiple: u32 = multiple_of_place(k % 4);
        proof {
            lemma_place(e@, k as int);
        }
        let p = project_user(e, buffer, multiple);
        assert(p@.trades.len() == e@.trades.len());
        let issues = write_issues(&p.trades);
        assert(issues.deep_view().len() == p@.trades.len());
        proof {
            assert forall|j: int| 0 <= j < p@.trades.len() implies first_user(
                (#[trigger] p@.trades[j]).user_v1,
                buffer,
                multiple,
            ) is Some && (first_user(p@.trades[j].user_v1, buffer, multiple)->0.target matches Some(
                q,
            ) ==> q > i128::MIN) by {
                assert(p@.trades[j].user_v1 == e@.trades[j].user_v1);
                assert(first_user(e@.trades[j].user_v1, buffer, multiple) is Some);
                assert(writable_grid(e@.trades[j].user_v1));
                lemma_first_user_writable(e@.trades[j].user_v1, buffer, multiple);
            }
            assert(has_user(p@.trades, buffer, multiple)) by {
                assert forall|j: int| 0 <= j < p@.trades.len() implies first_user(
                    (#[trigger] p@.trades[j]).user_v1,
                    buffer,
                    multiple,
                ) is Some by {
                    assert(p@.trades[j].user_v1 == e@.trades[j].user_v1);
                    assert(first_user(e@.trades[j].user_v1, buffer, multiple) is Some);
                }
            }
        }
        out.append(user_table(&p, texts, &issues, buffer, multiple).as_str());
        k += 1;
    }
    out
}

fn write_exit_lines(e: &Evaluation, texts: &Vec<TradeTexts>, fill: bool) -> (r: String)
    requires
        has_exits(e@),
        texts.len() == e.trades.len(),
    ensures
        r@ == exit_lines(e@, texts.deep_view(), 3, fill),
{
    let mut out = String::new();
    let mut n: u8 = 0;
    assert(out@ =~= Seq::<char>::empty());
    while n < 3
        invariant
            n <= 3,
            has_exits(e@),
            texts.len() == e.trades.len(),
            out@ == exit_lines(e@, texts.deep_view(), n as nat, fill),
        decreases 3 - n,
    {
        n += 1;
        let p = project_r(e, n);
        assert(p@.trades.len() == e@.trades.len());
        let issues = write_issues(&p.trades);
        assert(issues.deep_view().len() == p@.trades.len());
        let lines = plain_table(&p, texts, &issues, Some((n as u32) * 1000));
        if fill {
            out.append(pad_lines(lines.as_str()).as_str());
        } else {
            out.append(lines.as_str());
        }
    }
    out
}

/// Writes the table of trades of a run.
pub fn csv(e: &Evaluation, texts: &Vec<TradeTexts>) -> (r: String)
    requires
        reportable(e@),
        writable(e@),
        texts.len() == e.trades.len(),
    ensures
        r@ == table_of_trades(e@, texts.deep_view()),
{
    let mut out = owned(CSV_HEAD);
    match e.parameters.mode {
        ExitMode::Targets => {
            out.append("\n");
            let issues = write_issues(&e.trades);
            assert(issues.deep_view().len() == e@.trades.len());
            out.append(plain_table(e, texts, &issues, None).as_str());
        },
        ExitMode::FixedR => {
            out.append("\n");
            out.append(write_exit_lines(e, texts, false).as_str());
        },
        ExitMode::UserV1 => {
            out.append(CSV_USER_COLUMNS);
            out.append("\n");
            out.append(write_grid_lines(e, texts).as_str());
            out.append(write_exit_lines(e, texts, true).as_str());
        },
    }
    out
}

fn has_all_exits(t: &Trade) -> (r: bool)
    ensures
        r == (first_exit(t@.fixed_r, 1) is Some && first_exit(t@.fixed_r, 2) is Some
            && first_exit(t@.fixed_r, 3) is Some),
{
    find_exit(&t.fixed_r, 1).is_some() && find_exit(&t.fixed_r, 2).is_some() && find_exit(
        &t.fixed_r,
        3,
    ).is_some()
}

/// A trade has a result in every place of the grid.
pub open spec fn grid_is_full(list: Seq<UserResultModel>) -> bool {
    forall|k: int|
        0 <= k < 12 ==> first_user(
            list,
            #[trigger] user_buffer(k / 4),
            #[trigger] user_multiple(k % 4),
        ) is Some
}

fn has_full_grid(t: &Trade) -> (r: bool)
    ensures
        r == grid_is_full(t@.user_v1),
{
    let mut k: usize = 0;
    while k < 12
        invariant
            k <= 12,
            forall|i: int|
                0 <= i < k ==> first_user(
                    t@.user_v1,
                    #[trigger] user_buffer(i / 4),
                    #[trigger] user_multiple(i % 4),
                ) is Some,
        decreases 12 - k,
    {
        let buffer: u8 = buffer_of(k / 4);
        let multiple: u32 = multiple_of_place(k % 4);
        if find_user(&t.user_v1, buffer, multiple).is_none() {
            assert(first_user(
                t@.user_v1,
                user_buffer(k as int / 4),
                user_multiple(k as int % 4),
            ) is None);
            return false;
        }
        k += 1;
    }
    true
}

fn has_writable_grid(t: &Trade) -> (r: bool)
    ensures
        r == writable_grid(t@.user_v1),
{
    let mut j: usize = 0;
    while j < t.user_v1.len()
        invariant
            j <= t.user_v1.len(),
            forall|i: int|
                0 <= i < j ==> ((#[trigger] t@.user_v1[i]).target matches Some(p) ==> p
                    > i128::MIN),
        decreases t.user_v1.len() - j,
    {
        assert(t@.user_v1[j as int] == t.user_v1@[j as int]@);
        match t.user_v1[j].target {
            Some(p) => {
                if p == i128::MIN {
                    return false;
                }
            },
            None => {},
        }
        j += 1;
    }
    true
}

fn has_summable_exits(e: &Evaluation) -> (r: bool)
    requires
        has_exits(e@),
    ensures
        r == summable_exits(e@),
{
    let mut n: u8 = 0;
    while n < 3
        invariant
            n <= 3,
            has_exits(e@),
            forall|i: u8| 1 <= i <= n ==> summable((#[trigger] projected_r(e@, i)).trades),
        decreases 3 - n,
    {
        n += 1;
        let p = project_r(e, n);
        if !are_summable(&p.trades) {
            assert(!summable(projected_r(e@, n).trades));
            return false;
        }
    }
    true
}

fn has_summable_grid(e: &Evaluation) -> (r: bool)
    requires
        complete(e@),
    ensures
        r == summable_grid(e@),
{
    let mut k: usize = 0;
    while k < 12
        invariant
            k <= 12,
            complete(e@),
            forall|i: int|
                0 <= i < k ==> summable(
                    projected_user(
                        e@,
                        #[trigger] user_buffer(i / 4),
                        #[trigger] user_multiple(i % 4),
                    ).trades,
                ),
        decreases 12 - k,
    {
        let buffer: u8 = buffer_of(k / 4);
        let multiple: u32 = multiple_of_place(k % 4);
        proof {
            lemma_place(e@, k as int);
        }
        let p = project_user(e, buffer, multiple);
        if !are_summable(&p.trades) {
            assert(!summable(
                projected_user(e@, user_buffer(k as int / 4), user_multiple(k as int % 4)).trades,
            ));
            return false;
        }
        k += 1;
    }
    true
}

fn has_light_targets(trades: &Vec<Trade>) -> (r: bool)
    ensures
        r == light_targets(trades.deep_view()),
{
    let mut n: usize = 0;
    while n < 3
        invariant
            n <= 3,
            forall|i: int|
                0 <= i < n ==> heft(target_distances(trades.deep_view(), #[trigger] user_buffer(i)))
                    <= SUM_LIMIT,
        decreases 3 - n,
    {
        let v = collect_targets(trades, buffer_of(n));
        if !is_light(&v, SUM_LIMIT) {
            assert(heft(target_distances(trades.deep_view(), user_buffer(n as int))) > SUM_LIMIT);
            return false;
        }
        n += 1;
    }
    true
}

fn is_tallied(e: &Evaluation) -> (r: bool)
    requires
        reportable(e@),
    ensures
        r == tallied(e@),
{
    match e.parameters.mode {
        ExitMode::Targets => are_summable(&e.trades),
        ExitMode::FixedR => has_summable_exits(e),
        ExitMode::UserV1 => has_summable_exits(e) && has_summable_grid(e) && has_light_targets(
            &e.trades,
        ),
    }
}

/// Whether the files of a run can be written.
pub fn can_be_reported(e: &Evaluation) -> (r: bool)
    ensures
        r == (reportable(e@) && writable(e@) && e.trades.len() <= MAX_REPORTED && tallied(e@)),
{
    if e.trades.len() as u64 > MAX_REPORTED {
        return false;
    }
    let mode = e.parameters.mode;
    let mut i: usize = 0;
    while i < e.trades.len()
        invariant
            i <= e.trades.len(),
            mode == e@.parameters.mode,
            forall|k: int| 0 <= k < i ==> writable_grid((#[trigger] e@.trades[k]).user_v1),
            !(mode is Targets) ==> forall|k: int|
                0 <= k < i ==> first_exit((#[trigger] e@.trades[k]).fixed_r, 1) is Some
                    && first_exit(e@.trades[k].fixed_r, 2) is Some && first_exit(
                    e@.trades[k].fixed_r,
                    3,
                ) is Some,
            mode is UserV1 ==> forall|k: int|
                0 <= k < i ==> grid_is_full((#[trigger] e@.trades[k]).user_v1),
        decreases e.trades.len() - i,
    {
        let t = &e.trades[i];
        assert(e@.trades[i as int] == t@);
        if !has_writable_grid(t) {
            assert(!writable_grid(e@.trades[i as int].user_v1));
            return false;
        }
        if !matches!(mode, ExitMode::Targets) && !has_all_exits(t) {
            proof {
                if has_exits(e@) {
                    assert(first_exit(e@.trades[i as int].fixed_r, 1) is Some);
                    assert(first_exit(e@.trades[i as int].fixed_r, 2) is Some);
                    assert(first_exit(e@.trades[i as int].fixed_r, 3) is Some);
                }
            }
            return false;
        }
        if matches!(mode, ExitMode::UserV1) && !has_full_grid(t) {
            proof {
                let k = choose|k: int|
                    0 <= k < 12 && first_user(
                        t@.user_v1,
                        #[trigger] user_buffer(k / 4),
                        #[trigger] user_multiple(k % 4),
                    ) is None;
                if complete(e@) {
                    assert(has_user(e@.trades, user_buffer(k / 4), user_multiple(k % 4)));
                    assert(first_user(
                        e@.trades[i as int].user_v1,
                        user_buffer(k / 4),
                        user_multiple(k % 4),
                    ) is Some);
                }
            }
            return false;
        }
        i += 1;
    }
    proof {
        if mode is UserV1 {
            assert forall|k: int| 0 <= k < 12 implies has_user(
                e@.trades,
                #[trigger] user_buffer(k / 4),
                #[trigger] user_multiple(k % 4),
            ) by {
                assert forall|i: int| 0 <= i < e@.trades.len() implies first_user(
                    (#[trigger] e@.trades[i]).user_v1,
                    user_buffer(k / 4),
                    user_multiple(k % 4),
                ) is Some by {
                    assert(grid_is_full(e@.trades[i].user_v1));
                }
            }
        }
    }
    is_tallied(e)
}

proof fn lemma_exits_found(list: Seq<FixedRResultModel>, r: u8)
    requires
        list.len() == 3,
        1 <= r <= 3,
        forall|k: int| 0 <= k < 3 ==> (#[trigger] list[k]).multiple == k + 1,
    ensures
        first_exit(list, r) is Some,
{
    reveal_with_fuel(first_exit, 4);
    assert(list[0].multiple == 1);
    assert(list.drop_first()[0] == list[1]);
    assert(list.drop_first().drop_first()[0] == list[2]);
}

proof fn lemma_place_found(list: Seq<UserResultModel>, buffer: u8, multiple: u32, n: int)
    requires
        0 <= n < list.len(),
        list[n].buffer_points == buffer,
        list[n].multiple == multiple,
    ensures
        first_user(list, buffer, multiple) is Some,
    decreases list.len(),
{
    if !(list[0].buffer_points == buffer && list[0].multiple == multiple) {
        assert(list.drop_first()[n - 1] == list[n]);
        lemma_place_found(list.drop_first(), buffer, multiple, n - 1);
    }
}

/// An alert as a run leaves it: evaluated from its facts or rejected, and then
/// filled in.
pub open spec fn finished(p: ParametersModel, t: TradeModel) -> bool {
    exists|start: TradeModel|
        start.fixed_r.len() == 0 && start.user_v1.len() == 0 && (#[trigger] finished_from(
            p,
            start,
            t,
        ))
}

/// An alert as a run leaves it, with what it started from.
pub open spec fn finished_from(p: ParametersModel, start: TradeModel, t: TradeModel) -> bool {
    ||| exists|reason: Seq<char>| t == filled_in(p.mode, #[trigger] excluded(start, reason))
    ||| exists|f: TradeFactsModel| t == filled_in(p.mode, #[trigger] evaluated(p, start, f))
}

proof fn lemma_finished(p: ParametersModel, t: TradeModel)
    requires
        finished(p, t),
    ensures
        !(p.mode is Targets) ==> t.fixed_r.len() == 3 && forall|k: int|
            0 <= k < 3 ==> (#[trigger] t.fixed_r[k]).multiple == k + 1,
        p.mode is UserV1 ==> t.user_v1.len() == 12 && forall|k: int|
            0 <= k < 12 ==> (#[trigger] t.user_v1[k]).buffer_points == user_buffer(k / 4)
                && t.user_v1[k].multiple == user_multiple(k % 4),
{
}

/// Every run whose alerts were evaluated or rejected, and filled in, can be
/// reported in its mode.
pub proof fn law_every_run_can_be_reported(e: EvaluationModel)
    requires
        forall|k: int| 0 <= k < e.trades.len() ==> finished(e.parameters, #[trigger] e.trades[k]),
    ensures
        reportable(e),
{
    let p = e.parameters;
    if !(p.mode is Targets) {
        assert forall|r: u8| 1 <= r <= 3 implies #[trigger] has_exit(e.trades, r) by {
            assert forall|k: int| 0 <= k < e.trades.len() implies first_exit(
                (#[trigger] e.trades[k]).fixed_r,
                r,
            ) is Some by {
                lemma_finished(p, e.trades[k]);
                lemma_exits_found(e.trades[k].fixed_r, r);
            }
        }
    }
    if p.mode is UserV1 {
        assert forall|n: int| 0 <= n < 12 implies has_user(
            e.trades,
            #[trigger] user_buffer(n / 4),
            #[trigger] user_multiple(n % 4),
        ) by {
            assert forall|k: int| 0 <= k < e.trades.len() implies first_user(
                (#[trigger] e.trades[k]).user_v1,
                user_buffer(n / 4),
                user_multiple(n % 4),
            ) is Some by {
                lemma_finished(p, e.trades[k]);
                assert(e.trades[k].user_v1[n].buffer_points == user_buffer(n / 4));
                lemma_place_found(
                    e.trades[k].user_v1,
                    user_buffer(n / 4),
                    user_multiple(n % 4),
                    n,
                );
            }
        }
    }
}

/// A projection changes the simulation of each trade and keeps the fill of the
/// alert: nothing of the run but the mode and the simulations, and for the
/// grid the issues, is different.
pub proof fn law_projection_keeps_the_alerts(e: EvaluationModel, r: u8, buffer: u8, multiple: u32)
    ensures
        projected_r(e, r).trades.len() == e.trades.len(),
        projected_user(e, buffer, multiple).trades.len() == e.trades.len(),
        forall|k: int|
            0 <= k < e.trades.len() ==> (#[trigger] projected_r(e, r).trades[k]).alert_id
                == e.trades[k].alert_id,
        forall|k: int|
            0 <= k < e.trades.len() ==> (#[trigger] projected_user(
                e,
                buffer,
                multiple,
            ).trades[k]).alert_id == e.trades[k].alert_id,
{
}

} // verus!
