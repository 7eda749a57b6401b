use ict_monitor::alert::engine::{writes_directly, AlertEngine, FiredFacts};
use ict_monitor::alert::records::{build_alert, build_alert_for_validation, build_c2_alert};
use ict_monitor::alert::types::{AlertRecord, AlertTrigger, ChannelKind};
use ict_monitor::candidate::engine::CandidateEngine;
use ict_monitor::candidate::types::{
    CandidateChange, CandidateSetup, DecisionStatus, SetupStatus, SetupType, SymbolValidation,
};
use ict_monitor::detector::{
    CandleRef, Correlation, Direction, IctStructure, PdaRef, ReferenceScope, ReversalConfirmKind,
    SmtDetectionState, SmtDivergence, StructureEvent, SymbolChain,
};
use ict_monitor::types::Timeframe;

fn px(x: f64) -> i64 {
    (x * 1e9).round() as i64
}

fn make_candidate(id: &str, status: SetupStatus) -> CandidateSetup {
    CandidateSetup {
        id: id.into(),
        rule_version: "m6a.v1".into(),
        watchlist_id: "test".into(),
        smt_id: format!("smt-{}", id),
        setup_type: SetupType::Smt,
        symbol_set: vec!["TVC:DXY".into(), "OANDA:EURUSD".into()],
        sweeper_symbol: "TVC:DXY".into(),
        trade_symbols: vec!["OANDA:EURUSD".into()],
        candidate_direction: Direction::Bullish,
        context_timeframe: Timeframe::H4,
        comparison_timeframe: Timeframe::H1,
        validation_timeframe: Timeframe::M5,
        context_pda_id: Some("pda-1".into()),
        observation_window: (0, 0),
        c1_candle: CandleRef {
            ts: 1000,
            open: px(100.0),
            high: px(101.0),
            low: px(99.0),
            close: px(100.5),
        },
        smt_k_candle: CandleRef {
            ts: 2000,
            open: px(99.5),
            high: px(100.5),
            low: px(98.5),
            close: px(99.0),
        },
        c2_candle: CandleRef {
            ts: 3000,
            open: px(99.0),
            high: px(100.0),
            low: px(98.0),
            close: px(99.5),
        },
        c2_case: 1,
        c3_candle: None,
        c2_cisd_event_ids: vec![],
        c3_cisd_event_ids: vec![],
        validation_kind: None,
        validation_symbol: None,
        validation_ts: None,
        validation_direction: None,
        validations: vec![],
        invalidated_symbols: vec![],
        symbol_invalidation_reasons: vec![],
        setup_status: status,
        decision_status: DecisionStatus::New,
        deterministic_score: 50,
        created_at: 3000,
        validated_at: None,
        expired_at: None,
        invalidated_at: None,
        expiry_reason: None,
        strength: vec![],
        expiry_at: None,
        smt_rule_version: "m5c2.v5".into(),
    }
}

fn make_two_symbol_c2_smt(candidate: &CandidateSetup) -> SmtDivergence {
    let chain = |symbol: &str, c2_ts: i64, c2_case: u8| SymbolChain {
        symbol: symbol.into(),
        c1_candle: CandleRef {
            ts: 1_000,
            open: px(100.0),
            high: px(101.0),
            low: px(99.0),
            close: px(100.5),
        },
        smt_k_candle: CandleRef {
            ts: 2_000,
            open: px(99.5),
            high: px(100.5),
            low: px(98.5),
            close: px(99.0),
        },
        c2_candle: Some(CandleRef {
            ts: c2_ts,
            open: px(99.0),
            high: px(100.0),
            low: px(98.0),
            close: px(99.5),
        }),
        c2_case: Some(c2_case),
        c3_candle: None,
        detection_state: SmtDetectionState::C2Confirmed,
    };

    SmtDivergence {
        id: candidate.smt_id.clone(),
        watchlist_id: candidate.watchlist_id.clone(),
        rule_version: candidate.smt_rule_version.clone(),
        symbol_set: vec![
            "TVC:DXY".into(),
            "OANDA:EURUSD".into(),
            "OANDA:GBPUSD".into(),
        ],
        relationship: Correlation::Negative,
        context_timeframe: Timeframe::H4,
        comparison_timeframe: Timeframe::H1,
        observation_window: candidate.observation_window,
        htf_confirmed: true,
        reference_scope: ReferenceScope::DistantLeftSide,
        liquidity_refs: vec![],
        confluence_refs: vec![],
        candidate_direction: Direction::Bullish,
        sweeper_symbol: "TVC:DXY".into(),
        trade_symbols: vec!["OANDA:EURUSD".into(), "OANDA:GBPUSD".into()],
        strength: vec![],
        chains: vec![
            chain("TVC:DXY", 6_000, 1),
            chain("OANDA:EURUSD", 4_000, 2),
            chain("OANDA:GBPUSD", 5_000, 3),
        ],
        invalidation_reasons: vec![],
        invalidation_ts: None,
        htf_pda_ref: None,
        mtf_ref_candle: None,
    }
}

fn make_change(id: &str, status: SetupStatus) -> CandidateChange {
    let mut seed = make_candidate(id, SetupStatus::C2Confirmed);
    seed.trade_symbols = vec!["OANDA:EURUSD".into()];
    let mut smt = make_two_symbol_c2_smt(&seed);
    smt.htf_pda_ref = Some(PdaRef {
        kind: "fvg".into(),
        id: "pda-1".into(),
        tf: Timeframe::H4,
        direction: Direction::Bullish,
        price_low: px(98.0),
        price_high: px(101.0),
        ts_open: 0,
        ts_confirm: 0,
        exit_ts: None,
        ts_filled: None,
    });
    let event = StructureEvent::New(IctStructure::SmtDivergence(smt));
    let mut spawned = CandidateEngine::new().on_smt_event(&event, 5000);
    let mut change = spawned.remove(0);
    change.decision.candidate_id = id.into();
    change.candidate = make_candidate(id, status);
    change.validation_event = None;
    change
}

/// The alert rows of all groups, in memory.
#[derive(Default)]
struct Rows {
    alerts: Vec<AlertRecord>,
}

impl Rows {
    fn facts(&self, change: &CandidateChange) -> FiredFacts {
        let c = &change.candidate;
        let symbol = change.validation_event.as_ref().map(|v| v.symbol.clone());
        let id = build_alert_for_validation(c, change.validation_event.as_ref(), 0, vec![]).id;
        FiredFacts {
            episode_symbol: c.smt_rule_version == "current"
                && self.alerts.iter().any(|a| a.id == id),
            group_symbol: self.alerts.iter().any(|a| {
                a.candidate_id == c.id
                    && a.watchlist_id == c.watchlist_id
                    && a.validation_symbol == symbol
            }),
            candidate: self.alerts.iter().any(|a| a.candidate_id == c.id),
        }
    }

    fn change(
        &mut self,
        engine: &mut AlertEngine,
        change: &CandidateChange,
        now: i64,
        seeding: bool,
    ) -> Option<AlertRecord> {
        let facts = self.facts(change);
        let fired = engine.on_candidate_change(change, now, seeding, facts);
        if let Some(alert) = &fired {
            self.alerts.push(alert.clone());
        }
        fired
    }

    fn confirm(
        &mut self,
        engine: &AlertEngine,
        candidate: &CandidateSetup,
        smt: &SmtDivergence,
        seeding: bool,
    ) -> Vec<AlertRecord> {
        let known: Vec<String> = self.alerts.iter().map(|a| a.id.clone()).collect();
        let created = engine.on_c2_confirmed(candidate, smt, seeding, Some(&known));
        self.alerts.extend(created.iter().cloned());
        created
    }
}

#[test]
fn recovered_c2_stays_silent_and_the_next_live_c2_notifies_once_per_symbol() {
    let mut store = Rows::default();
    let mut engine = AlertEngine::new();
    engine.add_channel(ChannelKind::DesktopNotify);
    let mut count = 0;
    let mut historical = make_candidate("recovered", SetupStatus::C2Confirmed);
    historical.trade_symbols = vec!["OANDA:EURUSD".into(), "OANDA:GBPUSD".into()];
    let smt = make_two_symbol_c2_smt(&historical);
    let rows = store.confirm(&engine, &historical, &smt, true);
    assert_eq!(rows.len(), 2);
    assert!(rows
        .iter()
        .all(|r| r.channels_fired.is_empty() && store.alerts.iter().any(|a| a.id == r.id)));
    assert!(store.confirm(&engine, &historical, &smt, false).is_empty());
    assert_eq!(count, 0);
    let mut live = historical.clone();
    live.id = "live".into();
    live.smt_id = "smt-live".into();
    live.observation_window = (100_000, 200_000);
    let live_smt = make_two_symbol_c2_smt(&live);
    let fired = store.confirm(&engine, &live, &live_smt, false);
    assert_eq!(fired.len(), 2);
    count += fired
        .iter()
        .filter(|a| a.channels_fired.contains(&ChannelKind::DesktopNotify))
        .count();
    assert!(store.confirm(&engine, &live, &live_smt, false).is_empty());
    assert_eq!(count, 2);
}

#[test]
fn c2_confirmation_creates_one_alert_per_trade_symbol_without_cooldown_loss() {
    let mut store = Rows::default();
    let mut engine = AlertEngine::new();
    engine.set_cooldown_seconds(600);

    let mut candidate = make_candidate("two-symbol-c2", SetupStatus::C2Confirmed);
    candidate.trade_symbols = vec!["OANDA:EURUSD".into(), "OANDA:GBPUSD".into()];
    let smt = make_two_symbol_c2_smt(&candidate);

    let rows = store.confirm(&engine, &candidate, &smt, false);
    assert_eq!(rows.len(), 2, "both trade symbols must alert");
    assert_ne!(rows[0].id, rows[1].id);
    assert!(rows
        .iter()
        .all(|row| row.trigger == AlertTrigger::C2Confirmed));
    assert_eq!(rows[0].trade_symbols.len(), 1);
    assert_eq!(rows[1].trade_symbols.len(), 1);
    assert_eq!(rows[0].candidate_direction, Direction::Bearish);
    assert_eq!(rows[1].candidate_direction, Direction::Bearish);
    assert_eq!(rows[0].c2_case, 2);
    assert_eq!(rows[1].c2_case, 3);
    assert_eq!(rows[0].created_at, 4_000 + Timeframe::H1.duration_ms());
    assert_eq!(rows[1].created_at, 5_000 + Timeframe::H1.duration_ms());

    assert!(
        store.confirm(&engine, &candidate, &smt, false).is_empty(),
        "repeated SMT snapshots must not duplicate setup alerts"
    );

    let mut historical_invalidated = candidate.clone();
    historical_invalidated.id = "historical-invalidated".into();
    historical_invalidated.smt_id = "historical-invalidated-smt".into();
    historical_invalidated.observation_window = (10_000, 20_000);
    historical_invalidated.invalidated_symbols = vec!["OANDA:EURUSD".into()];
    let historical_smt = make_two_symbol_c2_smt(&historical_invalidated);
    assert_eq!(
        store.confirm(&engine, &historical_invalidated, &historical_smt, true)
            .len(),
        2,
        "cold replay must reconstruct rows that entered C2 before later invalidation"
    );
}

#[test]
fn t1_validated_triggers_alert() {
    let mut engine = AlertEngine::new();
    let c2 = make_change("c1", SetupStatus::C2Confirmed);
    engine.on_candidate_change(&c2, 1000, true, FiredFacts::none());
    let val = make_change("c1", SetupStatus::Validated);
    let alert = engine.on_candidate_change(&val, 2000, false, FiredFacts::none());
    assert!(alert.is_some(), "Validated transition should trigger alert");
}

#[test]
fn t2_non_validated_no_alert() {
    let mut engine = AlertEngine::new();
    let spawn = make_change("c2", SetupStatus::C2Confirmed);
    assert!(engine.on_candidate_change(&spawn, 1000, false, FiredFacts::none()).is_none());
    let expired = make_change("c2", SetupStatus::Expired);
    assert!(engine.on_candidate_change(&expired, 2000, false, FiredFacts::none()).is_none());
    let inv = make_change("c2", SetupStatus::Invalidated);
    assert!(engine.on_candidate_change(&inv, 3000, false, FiredFacts::none()).is_none());
}

#[test]
fn t5_seeding_suppresses() {
    let mut engine = AlertEngine::new();
    let c2 = make_change("c3", SetupStatus::C2Confirmed);
    engine.on_candidate_change(&c2, 1000, true, FiredFacts::none());
    let val = make_change("c3", SetupStatus::Validated);
    let alert = engine.on_candidate_change(&val, 2000, true, FiredFacts::none());
    assert!(alert.is_none(), "seeding=true should suppress alert");
    let val2 = make_change("c3", SetupStatus::Validated);
    let alert2 = engine.on_candidate_change(&val2, 3000, false, FiredFacts::none());
    assert!(
        alert2.is_none(),
        "same-state (Validated->Validated) should not trigger"
    );
}

#[test]
fn t6_transition_detection() {
    let mut engine = AlertEngine::new();
    let c2 = make_change("c4", SetupStatus::C2Confirmed);
    engine.on_candidate_change(&c2, 1000, false, FiredFacts::none());
    let val = make_change("c4", SetupStatus::Validated);
    assert!(engine.on_candidate_change(&val, 2000, false, FiredFacts::none()).is_some());

    let val2 = make_change("c4", SetupStatus::Validated);
    assert!(engine.on_candidate_change(&val2, 3000, false, FiredFacts::none()).is_none());
}

#[test]
fn t7_no_forbidden_fields() {
    let c = make_candidate("c5", SetupStatus::Validated);
    let alert = build_alert(&c, 5000, vec![ChannelKind::Inbox]);
    let json = format!("{:?}", alert);
    let forbidden = [
        "entry_price",
        "sl_price",
        "tp_price",
        "position_size",
        "selected_symbol",
        "targets",
        "risk_reward",
        "invalidation_price",
        "entry_zone",
        "advice",
    ];
    for f in &forbidden {
        assert!(
            !json.contains(f),
            "AlertRecord JSON must not contain '{}'",
            f
        );
    }
    assert_eq!(alert.watchlist_id, "test");

    let smt = make_two_symbol_c2_smt(&c);
    let c2_alert = build_c2_alert(
        &c,
        &smt,
        "OANDA:EURUSD",
        5_000,
        vec![ChannelKind::Inbox],
    )
    .expect("C2 alert");
    let c2_json = format!("{:?}", c2_alert);
    for f in &forbidden {
        assert!(
            !c2_json.contains(f),
            "C2 AlertRecord JSON must not contain '{}'",
            f
        );
    }
}

#[test]
fn t9_global_cooldown() {
    let mut engine = AlertEngine::new();
    engine.set_cooldown_seconds(10);
    assert!(engine.should_fire(false, 1000));
    let c2 = make_change("c6", SetupStatus::C2Confirmed);
    engine.on_candidate_change(&c2, 1000, false, FiredFacts::none());
    let val = make_change("c6", SetupStatus::Validated);
    engine.on_candidate_change(&val, 2000, false, FiredFacts::none());
    assert!(
        !engine.should_fire(false, 5000),
        "within cooldown should suppress"
    );
    assert!(
        engine.should_fire(false, 15000),
        "after cooldown should allow"
    );
}

#[test]
fn t12_should_fire_standalone() {
    let engine = AlertEngine::new();
    assert!(engine.should_fire(false, 1000));
    assert!(engine.should_fire(false, 1000));
}

#[test]
fn t3_per_candidate_dedup_no_store() {
    let mut engine = AlertEngine::new();
    let c2 = make_change("c10", SetupStatus::C2Confirmed);
    engine.on_candidate_change(&c2, 1000, false, FiredFacts::none());
    let val = make_change("c10", SetupStatus::Validated);
    let alert1 = engine.on_candidate_change(&val, 2000, false, FiredFacts::none());
    assert!(alert1.is_some(), "first Validated should trigger");
    let val2 = make_change("c10", SetupStatus::Validated);
    let alert2 = engine.on_candidate_change(&val2, 3000, false, FiredFacts::none());
    assert!(alert2.is_none(), "same-state should not re-trigger");
}

#[test]
fn t15_same_candidate_can_alert_once_for_each_fx_symbol() {
    let mut engine = AlertEngine::new();
    let mut eu = make_change("multi", SetupStatus::Validated);
    eu.validation_event = Some(SymbolValidation {
        event_id: "eu-event".into(),
        symbol: "OANDA:EURUSD".into(),
        kind: ReversalConfirmKind::Mss,
        direction: Direction::Bearish,
        ts: 2_000,
        price: px(1.08),
    });
    let eu_alert = engine.on_candidate_change(&eu, 2_000, false, FiredFacts::none()).unwrap();
    assert_eq!(eu_alert.validation_symbol.as_deref(), Some("OANDA:EURUSD"));

    let mut gu = make_change("multi", SetupStatus::Validated);
    gu.validation_event = Some(SymbolValidation {
        event_id: "gu-event".into(),
        symbol: "OANDA:GBPUSD".into(),
        kind: ReversalConfirmKind::Cisd,
        direction: Direction::Bearish,
        ts: 3_000,
        price: px(1.27),
    });
    let gu_alert = engine.on_candidate_change(&gu, 3_000, false, FiredFacts::none()).unwrap();
    assert_eq!(gu_alert.validation_symbol.as_deref(), Some("OANDA:GBPUSD"));
    assert_ne!(eu_alert.id, gu_alert.id);
}

#[test]
fn t4_global_cooldown_e2e() {
    let mut engine = AlertEngine::new();
    engine.set_cooldown_seconds(10);
    let c2a = make_change("gc1", SetupStatus::C2Confirmed);
    engine.on_candidate_change(&c2a, 1000, false, FiredFacts::none());
    let val_a = make_change("gc1", SetupStatus::Validated);
    assert!(
        engine.on_candidate_change(&val_a, 2000, false, FiredFacts::none()).is_some(),
        "first should fire"
    );
    let c2b = make_change("gc2", SetupStatus::C2Confirmed);
    engine.on_candidate_change(&c2b, 3000, false, FiredFacts::none());
    let val_b = make_change("gc2", SetupStatus::Validated);
    assert!(
        engine.on_candidate_change(&val_b, 5000, false, FiredFacts::none()).is_none(),
        "within cooldown suppressed"
    );
    let c2c = make_change("gc3", SetupStatus::C2Confirmed);
    engine.on_candidate_change(&c2c, 10000, false, FiredFacts::none());
    let val_c = make_change("gc3", SetupStatus::Validated);
    assert!(
        engine.on_candidate_change(&val_c, 20000, false, FiredFacts::none()).is_some(),
        "after cooldown fires"
    );
}

#[test]
fn t11_alert_params_hot_update() {
    let mut engine = AlertEngine::new();

    engine.set_enabled(false);
    let c2 = make_change("sp1", SetupStatus::C2Confirmed);
    engine.on_candidate_change(&c2, 1000, false, FiredFacts::none());
    let val = make_change("sp1", SetupStatus::Validated);
    assert!(
        engine.on_candidate_change(&val, 2000, false, FiredFacts::none()).is_none(),
        "disabled should not fire"
    );

    engine.set_enabled(true);
    let c2b = make_change("sp2", SetupStatus::C2Confirmed);
    engine.on_candidate_change(&c2b, 3000, false, FiredFacts::none());
    let val_b = make_change("sp2", SetupStatus::Validated);
    assert!(
        engine.on_candidate_change(&val_b, 4000, false, FiredFacts::none()).is_some(),
        "re-enabled should fire"
    );

    engine.set_cooldown_seconds(9999);
    let c2c = make_change("sp3", SetupStatus::C2Confirmed);
    engine.on_candidate_change(&c2c, 5000, false, FiredFacts::none());
    let val_c = make_change("sp3", SetupStatus::Validated);
    assert!(
        engine.on_candidate_change(&val_c, 6000, false, FiredFacts::none()).is_none(),
        "high cooldown should suppress"
    );

    engine.set_feishu_notify(true);
    assert!(engine.feishu_notify_enabled());
    engine.set_feishu_notify(false);
    assert!(!engine.feishu_notify_enabled());
}

#[test]
fn m6c_group_dedup_isolated_and_cooldown_is_shared() {
    let mut store = Rows::default();
    let mut group_a = AlertEngine::new();
    let mut group_b = AlertEngine::new();

    let validated = |watchlist_id: &str, candidate_id: &str| {
        let mut change = make_change(candidate_id, SetupStatus::Validated);
        change.candidate.watchlist_id = watchlist_id.into();
        change.validation_event = Some(SymbolValidation {
            event_id: format!("{watchlist_id}-validation"),
            symbol: "OANDA:USDCHF".into(),
            kind: ReversalConfirmKind::Mss,
            direction: Direction::Bullish,
            ts: 2_000,
            price: px(0.82),
        });
        change
    };

    let first = store.change(&mut group_a, &validated("group-a", "same-episode"), 2_000, false)
        .expect("group A fires");
    let second = store.change(&mut group_b, &validated("group-b", "same-episode"), 2_001, false)
        .expect("group B is not deduplicated by group A");
    group_b.set_last_global_alert_ts(group_a.last_global_alert_ts());
    assert_eq!(first.watchlist_id, "group-a");
    assert_eq!(second.watchlist_id, "group-b");
    assert_ne!(first.id, second.id);

    group_a.set_cooldown_seconds(10);
    group_b.set_cooldown_seconds(10);
    let third = validated("group-a", "cooldown-source");
    assert!(store.change(&mut group_a, &third, 20_000, false).is_some());
    group_b.set_last_global_alert_ts(group_a.last_global_alert_ts());
    let fourth = validated("group-b", "cooldown-target");
    assert!(
        store.change(&mut group_b, &fourth, 20_001, false)
            .is_none(),
        "global cooldown must suppress another group's immediate alert",
    );
}

#[test]
fn t16_store_dedup_is_per_candidate_and_validation_symbol() {
    let mut store = Rows::default();
    let mut engine = AlertEngine::new();

    let validation_change = |symbol: &str, event_id: &str, ts: i64| {
        let mut change = make_change("multi-store", SetupStatus::Validated);
        change.validation_event = Some(SymbolValidation {
            event_id: event_id.into(),
            symbol: symbol.into(),
            kind: ReversalConfirmKind::Mss,
            direction: Direction::Bearish,
            ts,
            price: px(1.08),
        });
        change
    };

    let eu = validation_change("OANDA:EURUSD", "eu-1", 2_000);
    assert!(store.change(&mut engine, &eu, 2_000, false).is_some());
    assert!(
        store.change(&mut engine, &eu, 2_001, false).is_none(),
        "same Candidate + symbol must be suppressed"
    );

    let gu = validation_change("OANDA:GBPUSD", "gu-1", 3_000);
    assert!(
        store.change(&mut engine, &gu, 3_000, false).is_some(),
        "the other FX symbol must still be allowed"
    );
    assert_eq!(store.alerts.len(), 2);
}

#[test]
fn t17_store_dedup_is_per_public_smt_episode_across_retry_candidates() {
    let mut store = Rows::default();
    let mut engine = AlertEngine::new();

    let retry = |id: &str, ts: i64| {
        let mut change = make_change(id, SetupStatus::Validated);
        change.candidate.smt_rule_version = "current".into();
        change.validation_event = Some(SymbolValidation {
            event_id: format!("{id}-event"),
            symbol: "OANDA:EURUSD".into(),
            kind: ReversalConfirmKind::Mss,
            direction: Direction::Bearish,
            ts,
            price: px(1.08),
        });
        change
    };
    let first = retry("episode-retry-1", 2_000);
    let second = retry("episode-retry-2", 2_500);

    assert!(store.change(&mut engine, &first, 2_000, false).is_some());
    assert!(
        store.change(&mut engine, &second, 2_500, false).is_none(),
        "a stricter internal retry of the same PDA/HTF episode must not alert twice"
    );
}

#[test]
fn t8_mock_channel_dispatch() {
    let mut engine = AlertEngine::new();
    engine.add_channel(ChannelKind::Inbox);
    let c2 = make_change("mock1", SetupStatus::C2Confirmed);
    engine.on_candidate_change(&c2, 1000, false, FiredFacts::none());
    let val = make_change("mock1", SetupStatus::Validated);
    let alert = engine.on_candidate_change(&val, 2000, false, FiredFacts::none());
    assert!(alert.is_some());
    assert!(
        alert.unwrap().channels_fired.contains(&ChannelKind::Inbox),
        "channels_fired should record Inbox"
    );
}

#[test]
fn t9_desktop_notify_disabled() {
    let mut engine = AlertEngine::new();
    engine.set_desktop_notify(false);
    engine.add_channel(ChannelKind::Inbox);
    engine.add_channel(ChannelKind::DesktopNotify);
    let c2 = make_change("dn1", SetupStatus::C2Confirmed);
    engine.on_candidate_change(&c2, 1000, false, FiredFacts::none());
    let val = make_change("dn1", SetupStatus::Validated);
    let alert = engine.on_candidate_change(&val, 2000, false, FiredFacts::none());
    assert!(alert.is_some());
    assert!(
        alert
            .as_ref()
            .unwrap()
            .channels_fired
            .contains(&ChannelKind::Inbox),
        "inbox channel should fire"
    );
    assert!(
        !alert
            .unwrap()
            .channels_fired
            .contains(&ChannelKind::DesktopNotify),
        "channels_fired should not contain DesktopNotify"
    );
}

#[test]
fn c2_feishu_notify_enabled_adds_feishu_channel() {
    let mut candidate = make_candidate("c2-feishu-on", SetupStatus::C2Confirmed);
    candidate.trade_symbols = vec!["OANDA:EURUSD".into()];
    let smt = make_two_symbol_c2_smt(&candidate);
    let mut engine = AlertEngine::new();
    engine.set_feishu_notify(true);
    engine.add_channel(ChannelKind::Inbox);
    engine.add_channel(ChannelKind::FeishuNotify);

    let rows = engine.on_c2_confirmed(&candidate, &smt, false, None);
    assert_eq!(rows.len(), 1);
    assert!(rows[0].channels_fired.contains(&ChannelKind::Inbox));
    assert!(rows[0].channels_fired.contains(&ChannelKind::FeishuNotify));
}

#[test]
fn c2_feishu_notify_disabled_skips_feishu_channel() {
    let mut candidate = make_candidate("c2-feishu-off", SetupStatus::C2Confirmed);
    candidate.trade_symbols = vec!["OANDA:EURUSD".into()];
    let smt = make_two_symbol_c2_smt(&candidate);
    let mut engine = AlertEngine::new();
    engine.set_feishu_notify(false);
    engine.add_channel(ChannelKind::Inbox);
    engine.add_channel(ChannelKind::FeishuNotify);

    let rows = engine.on_c2_confirmed(&candidate, &smt, false, None);
    assert_eq!(rows.len(), 1);
    assert!(!rows[0].channels_fired.contains(&ChannelKind::FeishuNotify));
}

#[test]
fn validated_alert_never_routes_to_feishu() {
    let mut engine = AlertEngine::new();
    engine.set_feishu_notify(true);
    engine.add_channel(ChannelKind::Inbox);
    engine.add_channel(ChannelKind::FeishuNotify);
    let c2 = make_change("validated-no-feishu", SetupStatus::C2Confirmed);
    engine.on_candidate_change(&c2, 1000, true, FiredFacts::none());
    let val = make_change("validated-no-feishu", SetupStatus::Validated);
    let alert = engine.on_candidate_change(&val, 2000, false, FiredFacts::none()).unwrap();
    assert!(!alert.channels_fired.contains(&ChannelKind::FeishuNotify));
}

#[test]
fn t14_channels_fired_non_empty() {
    let mut engine = AlertEngine::new();
    engine.add_channel(ChannelKind::Inbox);
    let c2 = make_change("cf1", SetupStatus::C2Confirmed);
    engine.on_candidate_change(&c2, 1000, false, FiredFacts::none());
    let val = make_change("cf1", SetupStatus::Validated);
    let alert = engine.on_candidate_change(&val, 2000, false, FiredFacts::none());
    assert!(alert.is_some());
    let alert = alert.unwrap();
    assert!(
        !alert.channels_fired.is_empty(),
        "channels_fired should be non-empty in the returned alert"
    );
    assert!(
        alert.channels_fired.contains(&ChannelKind::Inbox),
        "channels_fired should contain Inbox"
    );
    assert!(!writes_directly(&alert), "the inbox channel stores the record");
}

#[test]
fn a_record_without_an_inbox_channel_is_written_directly() {
    let mut engine = AlertEngine::new();
    let c2 = make_change("direct", SetupStatus::C2Confirmed);
    engine.on_candidate_change(&c2, 1000, false, FiredFacts::none());
    let val = make_change("direct", SetupStatus::Validated);
    let alert = engine
        .on_candidate_change(&val, 2000, false, FiredFacts::none())
        .unwrap();
    assert!(alert.channels_fired.is_empty());
    assert!(writes_directly(&alert));
}

#[test]
fn a_fired_candidate_does_not_fire_again_after_a_restart() {
    let mut engine = AlertEngine::new();
    let val = make_change("again", SetupStatus::Validated);
    let fired = FiredFacts { episode_symbol: false, group_symbol: false, candidate: true };
    assert!(engine.on_candidate_change(&val, 2000, false, fired).is_none());
    assert!(!engine.should_fire(true, 2000));
    assert!(!engine.should_fire_for_symbol(Some("OANDA:EURUSD"), true, false, 2000));
    assert!(engine.should_fire_for_symbol(Some("OANDA:EURUSD"), false, true, 2000));
    assert!(!engine.should_fire_for_symbol(None, false, true, 2000));
}

#[test]
fn hydrated_candidates_stay_silent() {
    let mut engine = AlertEngine::new();
    let known = make_candidate("h1", SetupStatus::Validated);
    engine.hydrate(&vec![known]);
    let same = make_change("h1", SetupStatus::Validated);
    assert!(engine.on_candidate_change(&same, 2000, false, FiredFacts::none()).is_none());
    engine.hydrate_missing(&vec![make_candidate("h2", SetupStatus::Validated)]);
    let other = make_change("h2", SetupStatus::Validated);
    assert!(engine.on_candidate_change(&other, 3000, false, FiredFacts::none()).is_none());
    let fresh = make_change("h3", SetupStatus::Validated);
    assert!(engine.on_candidate_change(&fresh, 4000, false, FiredFacts::none()).is_some());
    assert_eq!(engine.last_global_alert_ts(), 4000);
}

#[test]
fn a_confirmation_carries_the_direction_of_its_own_instrument() {
    let mut c = make_candidate("dir", SetupStatus::C2Confirmed);
    c.trade_symbols = vec!["OANDA:EURUSD".into()];
    let smt = make_two_symbol_c2_smt(&c);
    let alert = build_c2_alert(&c, &smt, "OANDA:EURUSD", 9_000, vec![]).unwrap();
    assert_eq!(alert.trigger, AlertTrigger::C2Confirmed);
    assert_eq!(alert.candidate_direction, Direction::Bearish);
    assert_eq!(alert.c2_candle_ts, 4_000);
    assert_eq!(alert.created_at, 9_000);
    assert!(build_c2_alert(&c, &smt, "OANDA:AUDUSD", 9_000, vec![]).is_none());
}
