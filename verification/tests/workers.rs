use ict_monitor::alert::engine::AlertEngine;
use ict_monitor::candidate::engine::CandidateEngine;
use ict_monitor::params::{
    apply_alert_param, apply_alert_params, apply_candidate_param, apply_candidate_params,
    apply_saved_params, read_value, stored_text, test_desktop_notification,
    test_feishu_notification, ParamUpdate, ParamValue,
};
use ict_monitor::subscription::{
    bar_topic, list_symbols, needs_redetection, priced_symbols, route_event, seed_limit,
    seed_timeframes, RangeStep, SubManager, SymbolWorker, WorkerAction,
};
use ict_monitor::types::{Bar, BarEvent, Timeframe};
use ict_monitor::upkeep::{
    needs_work, reconcile_steps, reconnect_steps, startup_steps, Outcome,
    ReconnectHistoryPreflightReport, Step, Task,
};
use ict_monitor::watchlist::{
    default_watchlists, groups_for_symbol, new_id, picker_symbols, plan_reconcile, selected_groups,
    startup_watchlist, subscribed_symbols,
};

const MINUTE: i64 = 60_000;
/// A Monday, 2026-07-06 00:00 UTC.
const MONDAY: i64 = 1_783_296_000_000;

fn bar(ts: i64) -> Bar {
    Bar {
        symbol: "OANDA:EURUSD".into(),
        tf: Timeframe::M1,
        ts,
        open: 1_000_000_000,
        high: 1_000_000_000,
        low: 1_000_000_000,
        close: 1_000_000_000,
        volume: 0,
    }
}

fn minutes(n: i64) -> Vec<Bar> {
    (0..n).map(|i| bar(MONDAY + i * MINUTE)).collect()
}

fn names(list: &[&str]) -> Vec<String> {
    list.iter().map(|s| s.to_string()).collect()
}

#[test]
fn live_candles_are_stored_shown_and_detected() {
    let mut worker = SymbolWorker::new("OANDA:EURUSD");
    let done = worker.on_live(&BarEvent::BarClosed(bar(MONDAY)));
    assert!(matches!(done[0], WorkerAction::Store(_)));
    assert!(matches!(done[1], WorkerAction::Show { closed: true, .. }));
    assert!(matches!(done[2], WorkerAction::DetectClosed(_)));
    assert!(matches!(done[3], WorkerAction::Feed { historical: false, .. }));
    let quote = worker.on_live(&BarEvent::BarUpdate(bar(MONDAY + MINUTE)));
    assert!(matches!(quote[0], WorkerAction::Show { closed: false, .. }));
    assert!(matches!(quote[1], WorkerAction::DetectOpen(_)));
    assert_eq!(bar_topic(true), "bar:closed");
    assert_eq!(bar_topic(false), "bar:update");
}

#[test]
fn five_minute_closes_reach_the_candidates() {
    let mut worker = SymbolWorker::new("OANDA:EURUSD");
    let warm = worker.warm_start(&minutes(4));
    assert!(warm.is_empty());
    let mut fed = 0;
    for i in 4..7 {
        for action in worker.on_live(&BarEvent::BarClosed(bar(MONDAY + i * MINUTE))) {
            if let WorkerAction::FeedReversals { bar, seeding } = action {
                assert_eq!((bar.tf, bar.ts, seeding), (Timeframe::M5, MONDAY, false));
                fed += 1;
            }
        }
    }
    assert_eq!(fed, 1);
}

#[test]
fn history_is_replayed_quietly_and_only_once() {
    let mut worker = SymbolWorker::new("OANDA:EURUSD");
    let batch = minutes(12);
    let plan = worker.plan_history(&batch, false, None);
    assert!(plan.clear);
    assert_eq!(plan.bars.len(), 12);
    let done = worker.seed_history(&plan.bars);
    assert!(done.iter().all(|a| !matches!(
        a,
        WorkerAction::Show { .. }
            | WorkerAction::DetectClosed(_)
            | WorkerAction::DetectOpen(_)
            | WorkerAction::Feed { historical: false, .. }
            | WorkerAction::FeedReversals { seeding: false, .. }
    )));
    assert!(done.iter().any(|a| matches!(a, WorkerAction::FeedReversals { .. })));
    assert!(matches!(done.last(), Some(WorkerAction::Persist)));
    let after = worker.finish_history(false, true, 0);
    assert_eq!(after.ranges, RangeStep::Replay);
    assert!(after.replay_candidates && after.announce);
    // A reconnect only adds what is newer.
    let plan = worker.plan_history(&batch, false, Some(MONDAY + 10 * MINUTE));
    assert!(!plan.clear);
    assert_eq!(plan.bars.len(), 1);
    let after = worker.finish_history(true, false, 0);
    assert_eq!(after.ranges, RangeStep::Done);
    assert!(!after.announce);
    assert!(worker.finish_history(true, false, 2).announce);
    assert!(worker.seed_history(&vec![]).is_empty());
    assert_eq!(SymbolWorker::new("x").finish_history(true, false, 0).ranges, RangeStep::Enable);
}

#[test]
fn the_feed_is_replaced_only_when_the_symbols_change() {
    let mut manager = SubManager::new();
    let plan = manager.set_symbols(&names(&["B", "A"])).unwrap();
    assert_eq!(plan.started, names(&["B", "A"]));
    assert_eq!(plan.feed, names(&["A", "B"]));
    assert!(manager.set_symbols(&names(&["A", "B", "A"])).is_none());
    let plan = manager.set_symbols(&names(&["C", "A"])).unwrap();
    assert_eq!(plan.released, names(&["B"]));
    assert_eq!(plan.started, names(&["C"]));
    assert_eq!(plan.feed, names(&["A", "C"]));
    assert!(!manager.acquire("A"));
    assert!(manager.acquire("D"));
    assert!(manager.release("D"));
    assert!(!manager.release("D"));
}

#[test]
fn events_go_to_their_worker() {
    let running = names(&["OANDA:EURUSD"]);
    let route = route_event(&BarEvent::Historical(minutes(2)), &running).unwrap();
    assert_eq!((route.symbol.as_str(), route.audit), ("OANDA:EURUSD", true));
    let route = route_event(&BarEvent::BarClosed(bar(MONDAY)), &running).unwrap();
    assert!(!route.audit);
    assert!(route_event(&BarEvent::BarUpdate(bar(MONDAY)), &vec![]).is_none());
    assert!(route_event(&BarEvent::Historical(vec![]), &running).is_none());
}

#[test]
fn known_symbols_are_listed_once() {
    let groups = default_watchlists();
    let all = list_symbols(&names(&["X", "X"]), &names(&["TVC:DXY"]), &groups);
    assert_eq!(all.len(), 8);
    assert_eq!(all[0], "X");
    let sorted = priced_symbols(&names(&["X"]), &vec![], &groups);
    assert_eq!(sorted[0], "OANDA:AUDUSD");
    assert_eq!(subscribed_symbols(&groups, &names(&["X"])).len(), 8);
    assert_eq!(picker_symbols(&groups, &vec![]).last().unwrap(), "COINBASE:BTCUSD");
    assert_eq!(seed_limit(Timeframe::M1), 3_000);
    assert_eq!(seed_limit(Timeframe::H4), 500);
    assert_eq!(seed_timeframes().len(), 8);
    assert!(needs_redetection(Some(0)));
    assert!(!needs_redetection(Some(1)));
    assert!(!needs_redetection(None));
}

#[test]
fn groups_are_selected_by_identity() {
    let groups = default_watchlists();
    let routed = groups_for_symbol(&groups, "TVC:DXY");
    assert_eq!(routed[0].id, "aud-nzd-dxy");
    assert_eq!(routed.len(), 3);
    assert_eq!(selected_groups(&groups, Some("chf-cad-dxy")).unwrap().len(), 1);
    assert_eq!(selected_groups(&groups, None).unwrap()[0].id, "aud-nzd-dxy");
    assert_eq!(
        selected_groups(&groups, Some("nope")).unwrap_err(),
        "watchlist nope not found"
    );
    assert_eq!(startup_watchlist(&groups, &Some("chf-cad-dxy".into())).id, "chf-cad-dxy");
    assert_eq!(startup_watchlist(&groups, &Some("nope".into())).id, "eu-gu-dxy");
    assert_eq!(startup_watchlist(&vec![], &None).id, "eu-gu-dxy");
    assert_eq!(new_id(0), "wl-0");
    assert_eq!(new_id(1_783_296_000_000), format!("wl-{:x}", 1_783_296_000_000_u64));
}

#[test]
fn unchanged_groups_keep_running() {
    let running = default_watchlists();
    let plan = plan_reconcile(&running, &running, &vec![]);
    assert!(plan.retired.is_empty() && plan.rebuilt.is_empty());
    let mut wanted = default_watchlists();
    wanted.remove(0);
    wanted[0].name.push('!');
    let plan = plan_reconcile(&running, &wanted, &names(&["X"]));
    assert_eq!(plan.retired, names(&["eu-gu-dxy"]));
    assert_eq!(plan.rebuilt.len(), 1);
    assert_eq!(plan.rebuilt[0].id, "aud-nzd-dxy");
    assert_eq!(plan.symbols.len(), 5);
    assert_eq!(plan.subscribed.len(), 6);
}

fn tasks(steps: &[Step]) -> Vec<Task> {
    steps.iter().map(|s| s.task).collect()
}

#[test]
fn a_reconnect_repairs_before_it_inspects() {
    let steps = reconnect_steps(&names(&["A", "B"]));
    assert_eq!(steps.len(), 2 * (2 + 5 + 2 + 1 + 1 + 9));
    let all = tasks(&steps);
    let first = all.iter().position(|t| matches!(t, Task::Inspect { .. })).unwrap();
    assert!(all[first..].iter().all(|t| matches!(t, Task::Inspect { .. })));
    assert_eq!(
        all[0],
        Task::RefreshChart { tf: Timeframe::M1, limit: 5_000 }
    );
    assert_eq!(all[1], Task::FillFromMinutes);
    assert_eq!(steps[2].subject.as_deref(), Some("B"));
    assert_eq!(
        all.last(),
        Some(&Task::Inspect { tf: Timeframe::H4, limit: 64 })
    );
}

#[test]
fn a_start_repairs_before_it_replays() {
    let steps = startup_steps(&names(&["A"]), names(&["two", "one"]), false);
    let all = tasks(&steps);
    assert_eq!(all[0], Task::RegisterDetectors);
    assert_eq!(steps[1].subject.as_deref(), Some("one"));
    let rewrite = all.iter().position(|t| *t == Task::RewriteH4).unwrap();
    let seed = all.iter().position(|t| matches!(t, Task::Seed { .. })).unwrap();
    assert!(rewrite < seed);
    assert_eq!(all[seed], Task::Seed { tf: Timeframe::M1, limit: 3_000 });
    assert!(!all.contains(&Task::DropRanges));
    assert_eq!(all.last(), Some(&Task::Subscribe));
    let again = tasks(&startup_steps(&names(&["A"]), vec![], true));
    assert!(again.contains(&Task::DropRanges) && again.contains(&Task::MarkRangesDone));
    let changed = tasks(&reconcile_steps(&names(&["A"]), names(&["one"])));
    assert_eq!(changed[0], Task::StageNative);
    assert_eq!(changed.last(), Some(&Task::Announce));
    assert_eq!(changed.iter().filter(|t| **t == Task::Hydrate).count(), 1);
}

#[test]
fn an_audit_counts_repairs_and_what_is_missing() {
    let mut report = ReconnectHistoryPreflightReport::default();
    let chart = Task::RefreshChart { tf: Timeframe::M5, limit: 1_500 };
    let source = Task::BackfillSource { tf: Timeframe::H1 };
    report.record(chart, Outcome::Fetched { suffices: false });
    report.record(chart, Outcome::Untouched);
    report.record(source, Outcome::Fetched { suffices: false });
    assert_eq!(report.repaired_pairs, 1);
    report.record(source, Outcome::Fetched { suffices: true });
    report.record(Task::FillFromMinutes, Outcome::Added(4));
    report.record(Task::StageNative, Outcome::Fetched { suffices: false });
    report.record(Task::RewriteH4, Outcome::Rewritten);
    assert_eq!(report.repaired_pairs, 8);
    assert!(report.is_complete() && report.changed_anything());
    report.record(Task::Inspect { tf: Timeframe::H4, limit: 64 }, Outcome::Lacking);
    assert!(!report.is_complete());
    assert_eq!(report.incomplete_pairs, 1);
    assert_eq!(Task::StageNative.reads(), Some((Timeframe::H1, 5_000)));
    assert_eq!(Task::StageNative.fetches(), Some((Timeframe::H4, 1_500)));
    assert_eq!(Task::FillFromMinutes.reads(), Some((Timeframe::M1, 5_000)));
    assert_eq!(Task::Announce.fetches(), None);
    assert!(needs_work(chart, "OANDA:EURUSD", &vec![], MONDAY));
    assert!(!needs_work(Task::StageNative, "OANDA:EURUSD", &vec![], MONDAY));
}

fn update(key: &str, value: ParamValue) -> ParamUpdate {
    ParamUpdate {
        key: key.into(),
        value,
    }
}

#[test]
fn alert_settings_take_flags_and_whole_numbers() {
    let mut alerts = AlertEngine::new();
    apply_alert_param(&mut alerts, "enabled", &ParamValue::Flag(false));
    assert!(!alerts.enabled());
    apply_alert_param(&mut alerts, "enabled", &ParamValue::Text("true".into()));
    assert!(!alerts.enabled());
    apply_alert_params(
        &mut alerts,
        &vec![
            update("enabled", ParamValue::Flag(true)),
            update("desktop_notify_enabled", ParamValue::Flag(false)),
            update("feishu_notify_enabled", ParamValue::Flag(true)),
            update("cooldown_seconds", ParamValue::Whole(30)),
            update("unknown", ParamValue::Other),
        ],
    );
    assert!(alerts.enabled() && !alerts.desktop_notify_enabled());
    assert!(alerts.feishu_notify_enabled());
    alerts.set_last_global_alert_ts(1_000);
    assert!(!alerts.should_fire(false, 30_999));
    assert!(alerts.should_fire(false, 31_000));
    apply_alert_param(&mut alerts, "cooldown_seconds", &ParamValue::Whole(u64::MAX));
    assert!(!alerts.should_fire(false, 30_999));
    apply_alert_param(&mut alerts, "cooldown_seconds", &ParamValue::Negative(-1));
    assert!(alerts.should_fire(false, 1_001));
}

#[test]
fn candidate_settings_count_what_they_change() {
    let mut candidates = CandidateEngine::new();
    assert_eq!(apply_candidate_param(&mut candidates, "expiry_mtf_bars", &ParamValue::Whole(9)), 1);
    assert_eq!(apply_candidate_param(&mut candidates, "expiry_mtf_bars", &ParamValue::Real), 0);
    assert_eq!(apply_candidate_param(&mut candidates, "schema_v1", &ParamValue::Flag(true)), 0);
    assert_eq!(
        apply_candidate_params(
            &mut candidates,
            &vec![
                update("expiry_mtf_bars", ParamValue::Whole(9)),
                update("other", ParamValue::Whole(9)),
                update("expiry_mtf_bars", ParamValue::Whole(4)),
            ]
        ),
        2
    );
}

#[test]
fn settings_are_stored_as_text() {
    assert_eq!(stored_text(&ParamValue::Flag(true), ""), "true");
    assert_eq!(stored_text(&ParamValue::Flag(false), ""), "false");
    assert_eq!(stored_text(&ParamValue::Text("x".into()), ""), "x");
    assert_eq!(stored_text(&ParamValue::Real, "1.5"), "1.5");
    assert!(matches!(read_value("true", false), ParamValue::Flag(true)));
    assert!(matches!(read_value("false", false), ParamValue::Flag(false)));
    assert!(matches!(read_value("1.5", true), ParamValue::Real));
    assert_eq!(stored_text(&ParamValue::Whole(30), ""), "30");
    assert_eq!(stored_text(&ParamValue::Negative(-4), ""), "-4");
    assert!(matches!(read_value("30", true), ParamValue::Whole(30)));
    assert!(matches!(read_value("-4", true), ParamValue::Negative(-4)));
    assert!(matches!(read_value("18446744073709551615", true), ParamValue::Whole(u64::MAX)));
    assert!(matches!(read_value("18446744073709551616", true), ParamValue::Real));
    assert!(matches!(read_value("-9223372036854775808", true), ParamValue::Negative(i64::MIN)));
    assert!(matches!(read_value("-", false), ParamValue::Text(s) if s == "-"));
    assert!(matches!(read_value("x", false), ParamValue::Text(s) if s == "x"));
}

#[test]
fn test_notifications_need_both_switches() {
    assert_eq!(test_desktop_notification(Some((true, true))), Ok(()));
    assert_eq!(
        test_desktop_notification(Some((true, false))).unwrap_err(),
        "桌面通知已关闭，请在 Alerts 设置中打开后再测试"
    );
    assert_eq!(
        test_feishu_notification(Some((true, false))).unwrap_err(),
        "飞书通知已关闭，请在 Alerts 设置中打开后再测试"
    );
    assert_eq!(
        test_feishu_notification(None).unwrap_err(),
        "告警总开关已关闭，请在 Alerts 设置中打开后再测试"
    );
}

#[test]
fn saved_settings_reach_the_engine_they_name() {
    let mut candidates = CandidateEngine::new();
    let mut alerts = AlertEngine::new();
    let deadline = vec![update("expiry_mtf_bars", ParamValue::Whole(9))];
    assert_eq!(
        apply_saved_params("candidate", &deadline, &mut candidates, &mut alerts),
        Some(1)
    );
    let flags = vec![
        update("enabled", ParamValue::Flag(false)),
        update("unknown", ParamValue::Flag(false)),
    ];
    assert_eq!(apply_saved_params("fvg", &flags, &mut candidates, &mut alerts), None);
    assert!(alerts.enabled());
    assert_eq!(apply_saved_params("alert", &flags, &mut candidates, &mut alerts), Some(2));
    assert!(!alerts.enabled());
}

#[test]
fn a_chart_draws_the_open_candle_of_its_worker() {
    let mut worker = SymbolWorker::new("X");
    assert!(worker.current(Timeframe::M5).is_none());
    let minute = Bar {
        symbol: "X".into(),
        tf: Timeframe::M1,
        ts: MONDAY,
        open: 1,
        high: 3,
        low: 1,
        close: 2,
        volume: 1,
    };
    worker.warm_start(&vec![minute]);
    let open = worker.current(Timeframe::M5).unwrap();
    assert_eq!((open.ts, open.high, open.close), (MONDAY, 3, 2));
}

#[test]
fn saved_numbers_survive_a_restart() {
    let mut candidates = CandidateEngine::new();
    let mut alerts = AlertEngine::new();
    let saved = stored_text(&ParamValue::Whole(30), "");
    let updates = vec![update("cooldown_seconds", read_value(&saved, true))];
    apply_saved_params("alert", &updates, &mut candidates, &mut alerts);
    alerts.set_last_global_alert_ts(1_000);
    assert!(!alerts.should_fire(false, 30_999));
    assert!(alerts.should_fire(false, 31_000));
    let saved = stored_text(&ParamValue::Whole(9), "");
    let updates = vec![update("expiry_mtf_bars", read_value(&saved, true))];
    assert_eq!(
        apply_saved_params("candidate", &updates, &mut candidates, &mut alerts),
        Some(1)
    );
}
