use ict_monitor::alert::engine::{AlertEngine, FiredFacts};
use ict_monitor::alert::records::build_c2_alert;
use ict_monitor::alert::types::{AlertRecord, AlertTrigger, ChannelKind};
use ict_monitor::candidate::engine::CandidateEngine;
use ict_monitor::candidate::types::{
    CandidateChange, CandidateSetup, DecisionStatus, ExpiryReason, SetupStatus, SetupType,
    SymbolReason, SymbolValidation,
};
use ict_monitor::detector::{
    CandleRef, Correlation, Direction, Fvg, IctStructure, LiquidityRef, LiquidityRefStatus,
    LiquiditySide, OtherStructure, PdaRef, ReferenceScope, ReversalConfirmKind, SessionKind, SessionRange,
    SmtDetectionState, SmtDivergence, SmtInvalidationReason, StructureEvent, SymbolChain,
};
use ict_monitor::inbox::{
    decision_limit, is_genuine, list_alerts, list_candidates, list_reversals,
    project_alert_history, sort_alert_records_stably,
};
use ict_monitor::smt::event::EventRun;
use ict_monitor::smt::feed::{
    alert_source, backfill_alert, feed_candidates, hydrate_smt, restored_to_persist, source_smt,
    Ending,
};
use ict_monitor::smt::public::{
    all_group_smts, canonical_public_smts, get_smt_snapshot, list_smt, public_smt_attempt,
    public_smts_for_group, smt_attempt_rank, smt_episode_key, sweeper_state,
};
use ict_monitor::smt::reactions::{confirm, restore_alerts, settle_change, Effect, Moment};
use ict_monitor::smt::replay::{
    audit_live, backfill_reasons, common_detection_start, geometry_rows, geometry_step, has_ended,
    order_reasons, replay_passes, replay_tasks, rewrite_ended_row, split_replay, stays_live,
    terminal_snapshot, AuditFindings, ReplayTask,
};
use ict_monitor::structures::{
    busy_structures, filter_consumed_fvgs, is_drawn_on, list_structures, prepare_structures,
    stamp_depleted_fvg_ends,
};
use ict_monitor::types::{Bar, Timeframe};

fn px(x: f64) -> i64 {
    (x * 1e9).round() as i64
}

fn candle(ts: i64) -> CandleRef {
    CandleRef {
        ts,
        open: px(100.0),
        high: px(101.0),
        low: px(99.0),
        close: px(100.5),
    }
}

fn fixture(watchlist_id: &str, candidate_id: &str) -> (CandidateSetup, SmtDivergence, AlertRecord) {
    let chain = |symbol: &str, c2_ts: i64| SymbolChain {
        symbol: symbol.into(),
        c1_candle: candle(1_000),
        smt_k_candle: candle(2_000),
        c2_candle: Some(candle(c2_ts)),
        c2_case: Some(1),
        c3_candle: Some(candle(c2_ts + 1_800_000)),
        detection_state: SmtDetectionState::C3Entry,
    };
    let smt = SmtDivergence {
        id: format!("smt-{candidate_id}"),
        watchlist_id: watchlist_id.into(),
        rule_version: "current".into(),
        symbol_set: vec!["TVC:DXY".into(), "OANDA:EURUSD".into()],
        relationship: Correlation::Negative,
        context_timeframe: Timeframe::H4,
        comparison_timeframe: Timeframe::M30,
        observation_window: (500, 9_000),
        htf_confirmed: true,
        reference_scope: ReferenceScope::DistantLeftSide,
        liquidity_refs: vec![LiquidityRef {
            symbol: "OANDA:EURUSD".into(),
            ref_price: px(98.0),
            ref_ts: 1_500,
            side: LiquiditySide::SellSide,
            status: LiquidityRefStatus::NotSwept,
            tf: Timeframe::H4,
            mtf_ref_candle: None,
            mtf_sweep_candle: None,
        }],
        confluence_refs: vec![],
        candidate_direction: Direction::Bullish,
        sweeper_symbol: "TVC:DXY".into(),
        trade_symbols: vec!["OANDA:EURUSD".into()],
        strength: vec![],
        chains: vec![chain("TVC:DXY", 3_000), chain("OANDA:EURUSD", 4_000)],
        invalidation_reasons: vec![],
        invalidation_ts: None,
        htf_pda_ref: None,
        mtf_ref_candle: None,
    };
    let candidate = CandidateSetup {
        id: candidate_id.into(),
        rule_version: "m6a.v1".into(),
        watchlist_id: watchlist_id.into(),
        smt_id: smt.id.clone(),
        setup_type: SetupType::Smt,
        symbol_set: smt.symbol_set.clone(),
        sweeper_symbol: smt.sweeper_symbol.clone(),
        trade_symbols: smt.trade_symbols.clone(),
        candidate_direction: Direction::Bullish,
        context_timeframe: Timeframe::H4,
        comparison_timeframe: Timeframe::M30,
        validation_timeframe: Timeframe::M5,
        context_pda_id: Some("pda-test".into()),
        observation_window: smt.observation_window,
        c1_candle: candle(1_000),
        smt_k_candle: candle(2_000),
        c2_candle: candle(3_000),
        c2_case: 1,
        c3_candle: Some(candle(4_800_000)),
        c2_cisd_event_ids: vec![],
        c3_cisd_event_ids: vec![],
        validation_kind: None,
        validation_symbol: None,
        validation_ts: None,
        validation_direction: None,
        validations: vec![],
        invalidated_symbols: vec![],
        symbol_invalidation_reasons: vec![],
        setup_status: SetupStatus::C2Confirmed,
        decision_status: DecisionStatus::New,
        deterministic_score: 60,
        created_at: 4_000,
        validated_at: None,
        expired_at: None,
        invalidated_at: None,
        expiry_reason: None,
        strength: vec![],
        expiry_at: None,
        smt_rule_version: "current".into(),
    };
    let alert = build_c2_alert(
        &candidate,
        &smt,
        "OANDA:EURUSD",
        4_000 + Timeframe::M30.duration_ms(),
        vec![ChannelKind::Inbox],
    )
    .expect("C2 alert fixture");
    (candidate, smt, alert)
}

fn area(id: &str) -> PdaRef {
    PdaRef {
        kind: "fvg".into(),
        id: id.into(),
        tf: Timeframe::H4,
        direction: Direction::Bullish,
        price_low: px(98.0),
        price_high: px(101.0),
        ts_open: 10,
        ts_confirm: 20,
        exit_ts: None,
        ts_filled: None,
    }
}

fn gap(id: &str) -> Fvg {
    Fvg {
        id: id.into(),
        symbol: "TVC:DXY".into(),
        tf: Timeframe::H4,
        direction: Direction::Bullish,
        price_low: px(98.0),
        price_high: px(101.0),
        ts_open: 10,
        ts_confirm: 20,
        ts_filled: None,
        consumed_exit_ts: None,
    }
}

fn bar(symbol: &str, tf: Timeframe, ts: i64) -> Bar {
    Bar {
        symbol: symbol.into(),
        tf,
        ts,
        open: px(1.0),
        high: px(1.0),
        low: px(1.0),
        close: px(1.0),
        volume: 0,
    }
}

/// A divergence with a price area, its candidate and its alert.
fn public_fixture(id: &str) -> (CandidateSetup, SmtDivergence, AlertRecord) {
    let (candidate, mut smt, alert) = fixture("group", id);
    smt.htf_pda_ref = Some(area("pda-test"));
    (candidate, smt, alert)
}

fn end_sweeper(smt: &mut SmtDivergence) {
    smt.chains[0].detection_state = SmtDetectionState::Invalidated;
}

fn nothing_found() -> AuditFindings {
    AuditFindings {
        history: None,
        c2: None,
        chain: None,
    }
}

#[test]
fn durable_alert_history_survives_invalidated_and_removed_c2() {
    let (candidate, source, alert) = public_fixture("durable");
    let mut invalidated = source.clone();
    end_sweeper(&mut invalidated);
    let mut removed = source;
    removed.chains[1].c2_candle = None;
    for smt in [invalidated, removed] {
        let original_time = alert.c2_candle_ts;
        let original_case = alert.c2_case;
        let original_created = alert.created_at;
        let mut another = alert.clone();
        another.id.push_str("-earlier");
        another.created_at -= 1;
        let result = project_alert_history(
            &vec![alert.clone(), another],
            &vec![candidate.clone()],
            &vec!["group".to_string()],
            &vec![smt],
        );
        assert_eq!(
            result.len(),
            2,
            "later attempt must not hide earlier durable record"
        );
        assert_eq!(result[0].c2_candle_ts, original_time);
        assert_eq!(result[0].c2_case, original_case);
        assert_eq!(result[0].created_at, original_created);
        assert_eq!(result[0].setup_status, SetupStatus::Invalidated);
        assert!(result[0].invalidation_reason.is_some());
    }
}

#[test]
fn a_confirmation_with_living_evidence_keeps_its_status() {
    let (candidate, smt, alert) = public_fixture("alive");
    let rows = project_alert_history(
        &vec![alert.clone()],
        &vec![candidate.clone()],
        &vec!["group".to_string()],
        &vec![smt.clone()],
    );
    assert_eq!(rows[0].setup_status, SetupStatus::C2Confirmed);
    assert_eq!(rows[0].invalidation_reason, None);
    assert_eq!(rows[0].c3_candle_ts, Some(4_000 + 1_800_000));
    // One instrument of the candidate ended on its own.
    let mut broken = candidate.clone();
    broken.invalidated_symbols = vec!["OANDA:EURUSD".into()];
    broken.symbol_invalidation_reasons = vec![SymbolReason {
        symbol: "OANDA:EURUSD".into(),
        reason: ExpiryReason::C2Break,
    }];
    let rows = project_alert_history(
        &vec![alert.clone()],
        &vec![broken],
        &vec!["group".to_string()],
        &vec![smt.clone()],
    );
    assert_eq!(rows[0].setup_status, SetupStatus::Invalidated);
    assert_eq!(rows[0].invalidation_reason, Some(ExpiryReason::C2Break));
    // Another group, and no candidate: nothing is listed.
    assert!(project_alert_history(
        &vec![alert.clone()],
        &vec![candidate],
        &vec!["other".to_string()],
        &vec![smt]
    )
    .is_empty());
    assert!(
        project_alert_history(&vec![alert], &vec![], &vec!["group".to_string()], &vec![])
            .is_empty()
    );
}

#[test]
fn alerts_are_listed_newest_first_and_limited() {
    let (candidate, smt, alert) = public_fixture("list");
    let mut older = alert.clone();
    older.id.push_str("-older");
    older.created_at -= 1;
    let groups = vec!["group".to_string()];
    let alerts = vec![older.clone(), alert.clone()];
    let candidates = vec![candidate];
    let smts = vec![smt];
    let all = list_alerts(&alerts, &candidates, &groups, &smts, None);
    assert_eq!(all.len(), 2);
    assert_eq!(all[0].id, alert.id);
    let one = list_alerts(&alerts, &candidates, &groups, &smts, Some(1));
    assert_eq!(one.len(), 1);
    assert!(list_alerts(&alerts, &candidates, &groups, &smts, Some(-1)).is_empty());
    let mut same_time = older.clone();
    same_time.id = "a".into();
    let sorted = sort_alert_records_stably(vec![older.clone(), same_time]);
    assert!(sorted[0].id < sorted[1].id);
    assert_eq!(decision_limit(None), 500);
    assert_eq!(decision_limit(Some(7)), 7);
    assert_eq!(decision_limit(Some(9_999)), 2_000);
}

fn reversal(symbol: &str) -> SymbolValidation {
    SymbolValidation {
        event_id: "event".into(),
        symbol: symbol.into(),
        kind: ReversalConfirmKind::Mss,
        direction: Direction::Bullish,
        ts: 5_000,
        price: px(100.0),
    }
}

fn spawned(smt: &SmtDivergence) -> CandidateChange {
    let event = StructureEvent::New(IctStructure::SmtDivergence(smt.clone()));
    CandidateEngine::new().on_smt_event(&event, 5_000).remove(0)
}

#[test]
fn late_reversals_go_to_the_inbox_once() {
    let (_, smt, _) = public_fixture("late");
    let mut change = spawned(&smt);
    assert!(backfill_alert(&change, false).is_none());
    change.validation_event = Some(reversal("OANDA:EURUSD"));
    let record = backfill_alert(&change, false).unwrap();
    assert_eq!(record.channels_fired, vec![ChannelKind::Inbox]);
    assert_eq!(record.created_at, 5_000);
    assert_eq!(record.trigger, AlertTrigger::Validated);
    assert!(backfill_alert(&change, true).is_none());
}

#[test]
fn listed_reversals_are_held_by_their_candidate() {
    let (_, smt, _) = public_fixture("reversal");
    let mut change = spawned(&smt);
    change.validation_event = Some(reversal("OANDA:EURUSD"));
    let record = backfill_alert(&change, false).unwrap();
    let mut candidate = change.candidate.clone();
    let groups = vec![candidate.watchlist_id.clone()];
    assert!(!is_genuine(&record, &candidate));
    assert!(list_reversals(
        &vec![record.clone()],
        &vec![candidate.clone()],
        &groups,
        &vec![smt.clone()],
        None
    )
    .is_empty());
    candidate.validations.push(reversal("OANDA:EURUSD"));
    assert!(is_genuine(&record, &candidate));
    // Two records of one episode and instrument: the newest is listed.
    let mut newer = record.clone();
    newer.id = "newer".into();
    newer.created_at += 1;
    let rows = list_reversals(
        &vec![record.clone(), newer],
        &vec![candidate.clone()],
        &groups,
        &vec![smt.clone()],
        None,
    );
    assert_eq!(rows.len(), 1);
    assert_eq!(rows[0].id, "newer");
    // The price area no longer matches.
    let mut moved = smt;
    moved.htf_pda_ref = Some(area("other"));
    assert!(list_reversals(&vec![record], &vec![candidate], &groups, &vec![moved], None).is_empty());
}

#[test]
fn candidates_are_listed_once_per_episode() {
    let (candidate, smt, _) = public_fixture("one");
    let mut later = candidate.clone();
    later.id = "two".into();
    later.created_at += 1;
    let groups = vec!["group".to_string()];
    let smts = vec![smt.clone()];
    let rows = list_candidates(
        &vec![later.clone(), candidate.clone()],
        &vec![],
        &groups,
        &smts,
        "current",
    );
    assert_eq!(rows.len(), 1);
    assert_eq!(rows[0].id, "two");
    assert!(list_candidates(&vec![later.clone()], &vec![], &groups, &smts, "older").is_empty());
    // Nothing is stored: the live ones with a stored source are listed.
    let live = list_candidates(&vec![], &vec![later.clone()], &groups, &smts, "current");
    assert_eq!(live.len(), 1);
    assert!(list_candidates(&vec![], &vec![later], &groups, &vec![], "current").is_empty());
}

#[test]
fn each_episode_shows_its_best_attempt() {
    let (_, first, _) = public_fixture("first");
    let mut retry = first.clone();
    retry.id = "retry".into();
    retry.chains[0].detection_state = SmtDetectionState::C2Confirmed;
    assert_eq!(
        smt_episode_key(&first),
        "group|TVC:DXY|4h|30m|Bullish|pda-test|500"
    );
    assert_eq!(smt_episode_key(&first), smt_episode_key(&retry));
    assert_eq!(smt_attempt_rank(&first), (4, 1, 2_000));
    assert_eq!(smt_attempt_rank(&retry), (3, 1, 2_000));
    let shown = canonical_public_smts(&vec![retry, first.clone()], "current");
    assert_eq!(shown.len(), 1);
    assert_eq!(shown[0].id, first.id);
    let mut other = first.clone();
    other.id = "other".into();
    other.htf_pda_ref = Some(area("elsewhere"));
    other.observation_window.1 += 1;
    let shown = list_smt(canonical_public_smts(&vec![first, other], "current"));
    assert_eq!(shown.len(), 2);
    assert_eq!(shown[0].id, "other");
}

#[test]
fn attempts_that_ended_unconfirmed_are_hidden() {
    let (_, smt, _) = public_fixture("hidden");
    assert!(public_smt_attempt(&smt, "current"));
    assert!(!public_smt_attempt(&smt, "older"));
    let mut bare = smt.clone();
    bare.htf_pda_ref = None;
    assert!(!public_smt_attempt(&bare, "current"));
    let mut failed = smt.clone();
    end_sweeper(&mut failed);
    assert!(public_smt_attempt(&failed, "current"));
    failed.htf_confirmed = false;
    assert!(!public_smt_attempt(&failed, "current"));
    let mut chainless = smt;
    chainless.chains.clear();
    assert_eq!(sweeper_state(&chainless), SmtDetectionState::Invalidated);
}

#[test]
fn ended_rows_replace_live_divergences() {
    let (_, live, _) = public_fixture("live");
    let mut row = live.clone();
    end_sweeper(&mut row);
    let all = all_group_smts(&vec![live.clone()], &vec![row.clone()]);
    assert_eq!(sweeper_state(&all[0]), SmtDetectionState::Invalidated);
    // A live divergence that lost its area gets it back from its row.
    let mut poor = live.clone();
    poor.htf_pda_ref = None;
    let all = all_group_smts(&vec![poor], &vec![live.clone()]);
    assert_eq!(all[0].htf_pda_ref.as_ref().unwrap().id, "pda-test");
    let shown = public_smts_for_group(&vec![], &vec![row.clone()], "current");
    assert_eq!(shown.len(), 1);
    assert!(get_smt_snapshot(&vec![row.clone()], &row.id).is_some());
    assert!(get_smt_snapshot(&vec![row.clone()], "unknown").is_none());
    assert_eq!(source_smt(&vec![live.clone()], &vec![row], &live.id).unwrap().id, live.id);
}

#[test]
fn candidates_follow_divergence_events() {
    let (_, smt, _) = public_fixture("fed");
    let mut engine = CandidateEngine::new();
    let event = StructureEvent::New(IctStructure::SmtDivergence(smt.clone()));
    assert_eq!(alert_source(&event).unwrap().id, smt.id);
    let fed = feed_candidates(&mut engine, &event, &None, 5_000);
    // The candidate is spawned and gets its third candle at once.
    assert_eq!(fed.changes.len(), 2);
    assert_eq!(fed.transition_ts, 5_000);
    let gone = StructureEvent::Invalidated {
        id: smt.id.clone(),
        kind: "smt_divergence".into(),
    };
    assert!(alert_source(&gone).is_none());
    let ending = Some(Ending {
        snapshot: smt,
        market_ts: 6_000,
    });
    let fed = feed_candidates(&mut engine, &gone, &ending, 9_000);
    assert_eq!(fed.transition_ts, 6_000);
    assert_eq!(fed.changes[0].candidate.setup_status, SetupStatus::Invalidated);
    assert_eq!(fed.changes[0].candidate.invalidated_at, Some(6_000));
}

#[test]
fn lost_price_areas_come_back_from_candidates() {
    let (candidate, smt, _) = public_fixture("restored");
    let mut bare = smt.clone();
    bare.htf_pda_ref = None;
    let stored = vec![IctStructure::Fvg(gap("pda-test"))];
    let restored = hydrate_smt(&vec![bare.clone(), smt.clone()], &vec![candidate.clone()], &stored);
    assert_eq!(restored.repaired, vec![bare.id.clone()]);
    assert_eq!(restored.smts[0].htf_pda_ref.as_ref().unwrap().id, "pda-test");
    assert_eq!(restored_to_persist(&restored.smts, &restored.repaired).len(), 2);
    assert!(restored_to_persist(&vec![bare.clone()], &restored.repaired).is_empty());
    let nothing = hydrate_smt(&vec![bare], &vec![candidate], &vec![]);
    assert!(nothing.repaired.is_empty());
    assert!(nothing.smts[0].htf_pda_ref.is_none());
}

#[test]
fn reasons_are_ordered_and_kept_once() {
    let list = vec![
        SmtInvalidationReason::HtfFormationCancelled,
        SmtInvalidationReason::SweeperC2Failed,
        SmtInvalidationReason::HtfFormationCancelled,
    ];
    assert_eq!(
        order_reasons(&list),
        vec![
            SmtInvalidationReason::SweeperC2Failed,
            SmtInvalidationReason::HtfFormationCancelled
        ]
    );
}

#[test]
fn audits_act_on_evidence_alone() {
    let (_, live, _) = public_fixture("audited");
    assert!(!has_ended(&live));
    assert!(stays_live(&live));
    assert!(audit_live(&live, nothing_found(), None).is_none());
    // The second candle of a live divergence is left to the detector.
    let second = AuditFindings {
        c2: Some(SmtInvalidationReason::SweeperC2Failed),
        ..nothing_found()
    };
    assert!(audit_live(&live, second, None).is_none());
    let chain = AuditFindings {
        chain: Some(SmtInvalidationReason::CanonicalChainChanged),
        ..nothing_found()
    };
    let row = audit_live(&live, chain, None).unwrap();
    let end = terminal_snapshot(&row, 77);
    assert_eq!(end.invalidation_ts, Some(77));
    assert_eq!(
        end.invalidation_reasons,
        vec![SmtInvalidationReason::CanonicalChainChanged]
    );
    let mut ended = live.clone();
    end_sweeper(&mut ended);
    assert!(has_ended(&ended));
    let found = AuditFindings {
        history: Some(vec![SmtInvalidationReason::ReferenceAlreadyTaken]),
        c2: Some(SmtInvalidationReason::SweeperC2Failed),
        chain: None,
    };
    assert_eq!(
        backfill_reasons(&ended, &found),
        Some(vec![
            SmtInvalidationReason::SweeperC2Failed,
            SmtInvalidationReason::ReferenceAlreadyTaken
        ])
    );
    assert_eq!(backfill_reasons(&live, &found), None);
    assert!(rewrite_ended_row(&ended, &found, None).is_none());
    ended.invalidation_reasons = vec![SmtInvalidationReason::AllCountersSwept];
    assert_eq!(backfill_reasons(&ended, &found), None);
    let rewritten = rewrite_ended_row(&ended, &found, Some(ended.clone())).unwrap();
    assert_eq!(rewritten.reasons.len(), 3);
    assert_eq!(rewritten.reasons[1], SmtInvalidationReason::AllCountersSwept);
}

#[test]
fn replays_interleave_instruments() {
    assert_eq!(common_detection_start(&vec![Some(5), Some(9), Some(7)]), Some(9));
    assert_eq!(common_detection_start(&vec![Some(5), None]), None);
    assert_eq!(common_detection_start(&vec![]), None);
    let passes = replay_passes(false, Some(3), Some(4));
    assert_eq!(passes.len(), 2);
    assert_eq!(passes[1].event_start, Some(3));
    let passes = replay_passes(true, Some(3), Some(4));
    assert_eq!((passes[2].tf, passes[2].load_limit), (Timeframe::H4, 1_100));
    assert_eq!(passes[2].event_start, Some(4));
    let histories = vec![
        vec![bar("B", Timeframe::H1, 1), bar("B", Timeframe::H1, 3)],
        vec![bar("A", Timeframe::H1, 2), bar("A", Timeframe::H1, 3)],
    ];
    let batch = split_replay(&histories, Some(3), 10);
    let names = |bars: &Vec<Bar>| -> Vec<(String, i64)> {
        bars.iter().map(|b| (b.symbol.clone(), b.ts)).collect()
    };
    assert_eq!(names(&batch.context), vec![("B".to_string(), 1), ("A".to_string(), 2)]);
    assert_eq!(names(&batch.bars), vec![("A".to_string(), 3), ("B".to_string(), 3)]);
}

#[test]
fn ended_rows_get_geometry_but_stay_ended() {
    let (_, live, _) = public_fixture("geometry");
    let mut stored = live.clone();
    stored.id = "stored".into();
    let rows = geometry_rows(&vec![live.clone()], &vec![live.clone(), stored.clone()]);
    assert_eq!(rows.len(), 2);
    let step = geometry_step(&rows[0], Some(candle(42)), &vec![live.clone()]);
    assert_eq!(step.row.mtf_ref_candle, Some(candle(42)));
    assert!(step.stamp && step.refresh);
    let step = geometry_step(&rows[1], None, &vec![live.clone()]);
    assert!(step.stamp && !step.refresh);
    let mut bare = live.clone();
    bare.htf_pda_ref = None;
    let step = geometry_step(&bare, None, &vec![live]);
    assert!(!step.stamp && !step.refresh);
}

fn session(id: &str) -> IctStructure {
    IctStructure::SessionRange(SessionRange {
        id: id.into(),
        symbol: "TVC:DXY".into(),
        tf: Timeframe::M1,
        session: SessionKind::Asia,
        label: "Asia".into(),
        ts_start: 1_000,
        ts_end: 2_000,
        high: px(100.0),
        low: px(99.0),
        high_ts: 1_200,
        low_ts: 1_400,
        finalized: false,
    })
}

fn end_of(s: &IctStructure) -> Option<i64> {
    match s {
        IctStructure::Fvg(f) => f.consumed_exit_ts,
        _ => None,
    }
}

#[test]
fn gaps_end_where_a_divergence_left_them() {
    let (_, mut smt, _) = public_fixture("gap");
    smt.htf_pda_ref.as_mut().unwrap().exit_ts = Some(900);
    let mut list = vec![IctStructure::Fvg(gap("pda-test")), IctStructure::Fvg(gap("free"))];
    filter_consumed_fvgs(&mut list, &vec![smt.clone()]);
    assert_eq!(end_of(&list[0]), Some(900));
    assert_eq!(end_of(&list[1]), None);
    stamp_depleted_fvg_ends(&mut list, &vec![Some(950), Some(700)]);
    assert_eq!(end_of(&list[0]), Some(900));
    assert_eq!(end_of(&list[1]), Some(700));
    stamp_depleted_fvg_ends(&mut list, &vec![Some(800), None]);
    assert_eq!(end_of(&list[0]), Some(800));
    // A divergence that is not through its third candle leaves nothing.
    smt.chains[0].detection_state = SmtDetectionState::C2Confirmed;
    let mut list = vec![IctStructure::Fvg(gap("pda-test"))];
    filter_consumed_fvgs(&mut list, &vec![smt]);
    assert_eq!(end_of(&list[0]), None);
}

#[test]
fn panes_draw_structures_and_divergences() {
    let (_, smt, _) = public_fixture("pane");
    assert!(is_drawn_on(&smt, "OANDA:EURUSD", Timeframe::H4));
    assert!(is_drawn_on(&smt, "TVC:DXY", Timeframe::M30));
    assert!(!is_drawn_on(&smt, "TVC:DXY", Timeframe::H1));
    assert!(!is_drawn_on(&smt, "OANDA:GBPUSD", Timeframe::H4));
    let cached = vec![session("asia"), IctStructure::SmtDivergence(smt.clone())];
    let busy = busy_structures(Some(&cached), &vec![]);
    assert_eq!(busy.len(), 1);
    assert_eq!(busy[0].id(), "asia");
    let empty: Vec<IctStructure> = vec![];
    assert_eq!(busy_structures(Some(&empty), &vec![session("stored")]).len(), 1);
    assert_eq!(busy_structures(None, &vec![session("stored")])[0].id(), "stored");
    let base = prepare_structures(busy, &vec![session("asia"), session("london")], &vec![]);
    assert_eq!(base.len(), 2);
    let all = list_structures(base, &vec![smt.clone()], "TVC:DXY", Timeframe::H4);
    assert_eq!(all.len(), 3);
    assert_eq!(all[2].id(), smt.id);
}

fn settled(alerts: &mut AlertEngine, change: &CandidateChange, at: Moment, fired: FiredFacts) -> Vec<String> {
    settle_change(alerts, change.clone(), at, fired)
        .into_iter()
        .map(|effect| match effect {
            Effect::KeepCandidate { ts, .. } => format!("candidate {ts}"),
            Effect::KeepDecision(d) => format!("decision of {}", d.candidate_id),
            Effect::KeepAlert(a) => format!("alert {}", a.created_at),
            Effect::Deliver(a) => format!("deliver {}", a.created_at),
        })
        .collect()
}

#[test]
fn changes_are_stored_before_they_are_told() {
    let (_, smt, _) = public_fixture("settled");
    let mut change = spawned(&smt);
    let kept = vec![
        "candidate 7000".to_string(),
        format!("decision of {}", change.candidate.id),
    ];
    let live = Moment {
        transition_ts: 7_000,
        now: 8_000,
        seeding: false,
        backfills: false,
    };
    let mut alerts = AlertEngine::new();
    alerts.add_channel(ChannelKind::Inbox);
    assert_eq!(settled(&mut alerts, &change, live, FiredFacts::none()), kept);
    change.validation_event = Some(reversal("OANDA:EURUSD"));
    let seeding = Moment {
        seeding: true,
        backfills: true,
        ..live
    };
    let mut late = kept.clone();
    late.push("alert 5000".into());
    assert_eq!(settled(&mut alerts, &change, seeding, FiredFacts::none()), late);
    let known = FiredFacts {
        group_symbol: true,
        ..FiredFacts::none()
    };
    assert_eq!(settled(&mut alerts, &change, seeding, known), kept);
    assert_eq!(settled(&mut alerts, &change, live, known), kept);
    let mut told = kept.clone();
    told.push("deliver 8000".into());
    assert_eq!(settled(&mut alerts, &change, live, FiredFacts::none()), told);
}

#[test]
fn restored_confirmations_are_created_once() {
    let (_, smt, _) = public_fixture("restored");
    let mut engine = CandidateEngine::new();
    let mut alerts = AlertEngine::new();
    alerts.add_channel(ChannelKind::Inbox);
    assert!(confirm(&engine, &alerts, &smt, false, None).is_empty());
    let event = StructureEvent::New(IctStructure::SmtDivergence(smt.clone()));
    feed_candidates(&mut engine, &event, &None, 5_000);
    let created = confirm(&engine, &alerts, &smt, false, None);
    assert_eq!(created.len(), 1);
    assert_eq!(created[0].trigger, AlertTrigger::C2Confirmed);
    assert_eq!(created[0].channels_fired, vec![ChannelKind::Inbox]);
    let live = vec![smt];
    let none: Vec<SmtDivergence> = Vec::new();
    let restored = restore_alerts(&engine, &mut alerts, &live, &none, Vec::new());
    assert_eq!(restored.len(), 1);
    assert_eq!(restored[0].id, created[0].id);
    assert!(restored[0].channels_fired.is_empty());
    let ids = vec![created[0].id.clone()];
    assert!(restore_alerts(&engine, &mut alerts, &live, &none, ids).is_empty());
    assert!(restore_alerts(&engine, &mut alerts, &none, &none, Vec::new()).is_empty());
    assert_eq!(restore_alerts(&engine, &mut alerts, &none, &live, Vec::new()).len(), 1);
}

#[test]
fn a_new_group_starts_without_candidates() {
    let (_, smt, _) = public_fixture("grouped");
    let mut engine = CandidateEngine::new();
    let event = StructureEvent::New(IctStructure::SmtDivergence(smt.clone()));
    feed_candidates(&mut engine, &event, &None, 5_000);
    assert_eq!(engine.list_all().len(), 1);
    assert_eq!(engine.list_active().len(), 1);
    assert_eq!(engine.get_by_smt_id(&smt.id).unwrap().smt_id, smt.id);
    assert!(engine.get_by_smt_id("other").is_none());
    engine.set_watchlist("other-group".into());
    assert!(engine.list_all().is_empty());
    assert!(engine.get_by_smt_id(&smt.id).is_none());
}

#[test]
fn a_replay_judges_after_it_has_fed() {
    let m30 = vec![Some(10), Some(20)];
    let h1 = vec![Some(5), None];
    assert!(replay_tasks(true, true, &None, &m30, &h1).is_empty());
    let tasks = replay_tasks(false, true, &None, &m30, &h1);
    let fed: Vec<(Timeframe, Option<i64>)> = tasks
        .iter()
        .filter_map(|t| match t {
            ReplayTask::Feed(p) => Some((p.tf, p.event_start)),
            _ => None,
        })
        .collect();
    assert_eq!(
        fed,
        vec![
            (Timeframe::M30, None),
            (Timeframe::H1, Some(20)),
            (Timeframe::H4, None)
        ]
    );
    assert_eq!(
        tasks[3..].to_vec(),
        vec![
            ReplayTask::RepairChains,
            ReplayTask::BackfillReasons,
            ReplayTask::RewriteEnded,
            ReplayTask::AuditLive,
            ReplayTask::Redraw
        ]
    );
    let short = replay_tasks(false, false, &Some("a hole".into()), &m30, &h1);
    assert_eq!(short.len(), 4);
    assert_eq!(short[2], ReplayTask::AuditLive);
}

fn run_event(
    engine: &mut CandidateEngine,
    alerts: &mut AlertEngine,
    event: &StructureEvent,
    now: i64,
    historical: bool,
) -> (Vec<String>, Vec<AlertRecord>, bool) {
    let mut run = EventRun::begin(engine, event, &None, now, historical);
    let mut told = Vec::new();
    while let Some(change) = run.next() {
        let status = change.candidate.setup_status;
        for effect in run.settle(alerts, FiredFacts::none()) {
            if let Effect::KeepCandidate { ts, .. } = effect {
                told.push(format!("{status:?} {ts}"));
            }
        }
    }
    let confirmed = run.finish(engine, alerts, None, true);
    (told, confirmed.created, confirmed.asks_model)
}

#[test]
fn an_event_is_settled_before_it_is_confirmed() {
    let (_, smt, _) = public_fixture("whole");
    let event = StructureEvent::New(IctStructure::SmtDivergence(smt.clone()));
    let mut engine = CandidateEngine::new();
    assert!(engine.accepts(&event));
    let mut alerts = AlertEngine::new();
    alerts.add_channel(ChannelKind::Inbox);
    let (told, created, asks) = run_event(&mut engine, &mut alerts, &event, 5_000, false);
    assert_eq!(told.len(), 2);
    assert!(told[0].ends_with(" 5000"));
    assert_eq!(created.len(), 1);
    assert_eq!(created[0].trigger, AlertTrigger::C2Confirmed);
    assert!(asks);
    // The same event once more changes no candidate and still confirms.
    let again = StructureEvent::Update(IctStructure::SmtDivergence(smt));
    let (told, repeated, _) = run_event(&mut engine, &mut alerts, &again, 6_000, false);
    assert!(told.is_empty());
    assert_eq!(repeated.len(), 1);
    assert_eq!(repeated[0].id, created[0].id);
    // An event without a divergence confirms nothing.
    let other = StructureEvent::New(session("asia"));
    let (told, created, _) = run_event(&mut engine, &mut alerts, &other, 7_000, false);
    assert!(told.is_empty());
    assert!(created.is_empty());
}

#[test]
fn rebuilt_history_asks_no_model() {
    let (_, smt, _) = public_fixture("rebuilt");
    let event = StructureEvent::New(IctStructure::SmtDivergence(smt));
    let mut engine = CandidateEngine::new();
    let mut alerts = AlertEngine::new();
    alerts.add_channel(ChannelKind::Inbox);
    let (told, created, asks) = run_event(&mut engine, &mut alerts, &event, 5_000, true);
    assert_eq!(told.len(), 2);
    assert_eq!(created.len(), 1);
    assert!(created[0].channels_fired.is_empty());
    assert!(!asks);
}

#[test]
fn deadlines_past_the_clock_are_not_accepted() {
    let (_, mut smt, _) = public_fixture("edge");
    let engine = CandidateEngine::new();
    for chain in smt.chains.iter_mut() {
        if let Some(c3) = chain.c3_candle.as_mut() {
            c3.ts = i64::MAX;
        }
    }
    let event = StructureEvent::New(IctStructure::SmtDivergence(smt));
    assert!(!engine.accepts(&event));
    assert!(engine.accepts(&StructureEvent::New(session("asia"))));
}

#[test]
fn other_structures_are_carried_through() {
    let block = IctStructure::Other(OtherStructure {
        id: "block".into(),
        kind: "order_block".into(),
        body: "{\"high\":1.5}".into(),
    });
    let (_, smt, _) = public_fixture("carried");
    let busy = busy_structures(Some(&vec![block.clone()]), &vec![]);
    let base = prepare_structures(busy, &vec![session("asia")], &vec![]);
    let all = list_structures(base, &vec![smt], "TVC:DXY", Timeframe::H4);
    assert_eq!(all.len(), 3);
    assert_eq!(all[0].id(), "block");
    assert!(matches!(&all[0], IctStructure::Other(o)
        if o.kind == "order_block" && o.body == "{\"high\":1.5}"));
}
