use eir_svc::cycle::{
    actionable_fingerprint, analysis_failed, analysis_in_flight, analysis_succeeded,
    begin_analysis, begin_digest, begin_pass, conclude_analysis, digest_done, digest_due,
    gate_analysis, learned_section, on_trigger, pass_step, reaction_at, reconcile_gaming,
    run_pass, should_escalate, unfinished_analysis, AdvisorConfig, AnalysisTotals, DeeperPass,
    LoopState, PassOutcome, PassStep, ANALYSIS_HEARTBEAT, DIGEST_INTERVAL_SECS,
    MAX_ESCALATIONS_PER_DAY, REACTIVE_DEBOUNCE, REACTIVE_MIN_GAP,
};
use eir_svc::metric::{Amount, Metric};
use eir_svc::models::{
    ClaudeDecision, EventLogEntry, Moment, Problem, ProposedFix, SecurityPosture, SignalSnapshot,
    SystemState,
};
use eir_svc::proto::{AdvisorSettingsView, AdvisorStatus, DigestView};
use eir_svc::state::SvcState;

fn metric(x: f32) -> Metric {
    Metric { bits: x.to_bits() }
}

fn cfg(enabled: bool) -> AdvisorConfig {
    AdvisorConfig {
        enabled,
        escalation_model: "opus".into(),
        escalation_effort: String::new(),
        low_confidence_threshold: metric(0.6),
    }
}

fn decision(needs_deeper: bool, confidences: &[f32]) -> ClaudeDecision {
    ClaudeDecision {
        analysis: String::new(),
        needs_deeper_analysis: needs_deeper,
        problems: confidences
            .iter()
            .map(|&c| Problem {
                diagnosis: String::new(),
                root_cause: String::new(),
                confidence: metric(c),
                proposed_fix: ProposedFix {
                    value: serde_json::Value::Null,
                    action: None,
                },
                reasoning: String::new(),
                side_effects: String::new(),
                undo_instructions: String::new(),
            })
            .collect(),
    }
}

#[test]
fn escalates_on_ai_flag_and_low_confidence_only_when_enabled() {
    assert!(should_escalate(&decision(true, &[]), &cfg(false), 0).is_none());
    assert!(should_escalate(&decision(true, &[]), &cfg(true), 0).is_some());
    assert!(should_escalate(&decision(false, &[0.4]), &cfg(true), 0).is_some());
    assert!(should_escalate(&decision(false, &[0.95]), &cfg(true), 0).is_none());
    assert!(should_escalate(&decision(false, &[]), &cfg(true), 0).is_none());
    assert!(should_escalate(&decision(false, &[0.4, 0.95]), &cfg(true), 0).is_none());
}

#[test]
fn count_and_missing_tier_block_escalation() {
    assert!(should_escalate(&decision(true, &[]), &cfg(true), MAX_ESCALATIONS_PER_DAY).is_none());
    let mut no_tier = cfg(true);
    no_tier.escalation_model = String::new();
    no_tier.escalation_effort = String::new();
    assert!(should_escalate(&decision(true, &[]), &no_tier, 0).is_none());
}

fn totals() -> AnalysisTotals {
    AnalysisTotals {
        fingerprint: Some("F|x|1|0".to_string()),
        analysis: "looks fine".into(),
        advisor: AdvisorStatus::default(),
        spent_today: Amount {
            bits: 1.23f64.to_bits(),
        },
        escalations_today: 2,
        escalation_cost: Amount {
            bits: 0f64.to_bits(),
        },
    }
}

#[test]
fn analysis_success_round_trips_ok_and_err() {
    let ok: Result<AnalysisTotals, String> = Ok(totals());
    match ok {
        Ok(s) => {
            assert_eq!(s.fingerprint.as_deref(), Some("F|x|1|0"));
            assert_eq!(s.analysis, "looks fine");
            assert_eq!(s.escalations_today, 2);
        }
        Err(_) => panic!("expected Ok"),
    }

    let err: Result<AnalysisTotals, String> = Err(unfinished_analysis(true, 10));
    match err {
        Ok(_) => panic!("expected Err"),
        Err(e) => {
            assert!(e.contains("exceeded"));
            assert_eq!(e, "analysis exceeded 10m and was stopped");
        }
    }
}

#[test]
fn only_a_deeper_pass_that_went_well_counts() {
    let spent = |x: f64| Amount { bits: x.to_bits() };
    let (kept, sum) = conclude_analysis(
        None,
        decision(true, &[0.4]),
        None,
        &cfg(true),
        AdvisorSettingsView::default(),
        spent(1.5),
        4,
    );
    assert_eq!(kept.problems.len(), 1);
    assert!(!sum.advisor.escalated);
    assert_eq!(sum.escalations_today, 4);
    assert_eq!(sum.spent_today, spent(1.5));
    assert_eq!(sum.escalation_cost, spent(0.0));
    let (kept, sum) = conclude_analysis(
        Some("f".into()),
        decision(true, &[0.4]),
        Some(DeeperPass {
            reason: "confidence was low".into(),
            decision: decision(false, &[]),
            spent_today: spent(2.0),
            cost: spent(0.5),
        }),
        &cfg(true),
        AdvisorSettingsView::default(),
        spent(1.5),
        4,
    );
    assert!(kept.problems.is_empty());
    assert_eq!(sum.fingerprint.as_deref(), Some("f"));
    assert_eq!(sum.advisor.escalation_model, "opus");
    assert_eq!(sum.advisor.reason, "confidence was low");
    assert_eq!(sum.advisor.spent_today_usd, spent(2.0));
    assert_eq!(sum.escalations_today, 5);
    assert_eq!(sum.escalation_cost, spent(0.5));
}

#[test]
fn one_digest_is_made_at_a_time() {
    let mut st = SvcState::default();
    assert!(begin_digest(&mut st, 10));
    assert!(!begin_digest(&mut st, 10));
    let view = |text: &str| DigestView {
        text: text.into(),
        generated_at: 20,
    };
    assert!(digest_done(&mut st, view("all well")));
    assert!(!st.digest_running);
    assert!(!begin_digest(&mut st, 21));
    assert!(!digest_done(&mut st, view("")));
    assert_eq!(st.digest.expect("kept").text, "all well");
}

fn resting() -> LoopState {
    LoopState {
        cycle_count: 0,
        last_cycle_at: 0,
        react_at: None,
        was_gaming: false,
        last_fingerprint: None,
        last_analysis_at: None,
        analysis_running: false,
    }
}

#[test]
fn reactions_are_paced() {
    let mut lp = resting();
    lp.last_cycle_at = 100 * REACTIVE_MIN_GAP;
    on_trigger(&mut lp, 100 * REACTIVE_MIN_GAP + 1);
    let due = lp.react_at.expect("a reaction");
    assert_eq!(due, 101 * REACTIVE_MIN_GAP);
    on_trigger(&mut lp, due + 5);
    assert_eq!(lp.react_at, Some(due), "what is due stays due");
    assert!(!begin_pass(&mut lp, due));
    assert_eq!((lp.react_at, lp.cycle_count), (None, 1));
    on_trigger(&mut lp, due + REACTIVE_MIN_GAP);
    assert_eq!(
        lp.react_at,
        Some(due + REACTIVE_MIN_GAP + REACTIVE_DEBOUNCE)
    );
    lp.cycle_count = 19;
    lp.analysis_running = true;
    assert!(begin_pass(&mut lp, due + 1));
    assert!(lp.react_at.is_some());
}

#[test]
fn a_pass_goes_as_far_as_it_may() {
    let now = 10 * DIGEST_INTERVAL_SECS;
    let mut lp = resting();
    let mut st = SvcState::default();
    assert_eq!(
        pass_step(&lp, &st, true, now),
        PassStep::Consider { digest: true }
    );
    assert_eq!(pass_step(&lp, &st, false, now), PassStep::CollectOnly);
    st.paused = true;
    assert_eq!(pass_step(&lp, &st, true, now), PassStep::Nothing);
    assert_eq!(pass_step(&lp, &st, false, now), PassStep::Nothing);
    st.paused = false;
    lp.analysis_running = true;
    st.last_digest_at = now - 1;
    assert_eq!(
        pass_step(&lp, &st, true, now),
        PassStep::Settle { digest: false }
    );
}

#[test]
fn a_pass_starts_a_digest_before_it_considers_an_analysis() {
    let now = 10 * DIGEST_INTERVAL_SECS;
    let seen = Some("S|Spooler".to_string());
    let mut lp = resting();
    let mut st = SvcState::default();
    let mut pass = |lp: &mut LoopState, st: &mut SvcState, provider: bool| {
        run_pass(lp, st, provider, &seen, "2026-01-01", 10, now)
    };
    let none = PassOutcome {
        digest: false,
        analysis: false,
    };
    st.paused = true;
    assert_eq!(pass(&mut lp, &mut st, true), none);
    st.paused = false;
    assert_eq!(pass(&mut lp, &mut st, false), none);
    assert_eq!((st.digest_running, lp.analysis_running), (false, false));
    assert_eq!(st.status, "Initializing");
    let both = PassOutcome {
        digest: true,
        analysis: true,
    };
    assert_eq!(pass(&mut lp, &mut st, true), both);
    assert_eq!((st.digest_running, lp.analysis_running), (true, true));
    assert_eq!(st.advisor_spend_date, "2026-01-01");
    assert_eq!(pass(&mut lp, &mut st, true), none, "one of each at a time");
    assert_eq!(st.status, "Active");
}

#[test]
fn a_reaction_waits_for_the_end_of_an_analysis() {
    let mut lp = resting();
    on_trigger(&mut lp, 5);
    let due = reaction_at(&lp);
    assert!(due.is_some());
    lp.analysis_running = true;
    assert_eq!(reaction_at(&lp), None);
    begin_pass(&mut lp, 6);
    lp.analysis_running = false;
    assert_eq!(reaction_at(&lp), due);
}

#[test]
fn unchanged_signals_wait_for_the_heartbeat() {
    let mut lp = resting();
    let mut st = SvcState::default();
    let seen = Some("S|Spooler".to_string());
    assert!(gate_analysis(&mut lp, &mut st, &seen, 10, 1));
    begin_analysis(&mut lp, &mut st, "2026-01-01");
    assert!(lp.analysis_running);
    let mut done = totals();
    done.fingerprint = seen.clone();
    analysis_succeeded(&mut lp, &mut st, done, "2026-01-01", 10, 1);
    assert!(!lp.analysis_running);
    assert_eq!(st.advisor_escalations_today, 2);
    assert_eq!(st.last_analysis, "looks fine");
    assert!(!gate_analysis(&mut lp, &mut st, &seen, 11, 2));
    assert_eq!(st.status, "Active");
    assert!(gate_analysis(
        &mut lp,
        &mut st,
        &Some("S|Other".into()),
        11,
        2
    ));
    assert!(gate_analysis(
        &mut lp,
        &mut st,
        &seen,
        10 + ANALYSIS_HEARTBEAT,
        2
    ));
    assert!(!gate_analysis(&mut lp, &mut st, &None, 12, 2));
    assert_eq!(lp.last_fingerprint, None);
    assert!(gate_analysis(&mut lp, &mut st, &seen, 13, 2));
    analysis_failed(&mut lp, &mut st, "no key");
    assert_eq!(st.error.as_deref(), Some("AI: no key"));
    analysis_in_flight(&mut st, 2);
    assert_eq!((st.status.as_str(), st.error.is_none()), ("Active", true));
    analysis_failed(&mut lp, &mut st, "no key");
    assert_eq!(st.status, "Error");
    assert_eq!(st.error.as_deref(), Some("AI: no key"));
    begin_analysis(&mut lp, &mut st, "2026-01-02");
    assert_eq!(st.advisor_escalations_today, 0);
}

fn snapshot(levels: &[&str], failed: &[&str], cpu: f32) -> SignalSnapshot {
    let t = Moment { secs: 1, nanos: 0 };
    SignalSnapshot {
        timestamp: t,
        event_log: levels
            .iter()
            .enumerate()
            .map(|(n, level)| EventLogEntry {
                timestamp: t,
                level: level.to_string(),
                source: format!("src{n}"),
                message: "m".into(),
                event_id: 7,
            })
            .collect(),
        file_changes: vec![],
        system_state: SystemState {
            collected_at: 0,
            collector_errors: vec![],
            uptime_secs: 0,
            cpu_usage_percent: metric(cpu),
            memory_usage_percent: metric(0.0),
            memory_available_gb: metric(0.0),
            disk_usage_percent: metric(0.0),
            disk_free_gb: metric(0.0),
            running_services_count: 0,
            failed_services: failed.iter().map(|s| s.to_string()).collect(),
            network_interfaces: vec![],
            network_errors: 0,
            disk_health: String::new(),
            windows_update_status: String::new(),
            security: SecurityPosture::default(),
        },
        decision_history: vec![],
        screen_errors: vec![],
        user_report: None,
    }
}

#[test]
fn the_fingerprint_is_of_what_is_worth_analysing() {
    assert_eq!(
        actionable_fingerprint(&snapshot(&["Information"], &[], 50.0)),
        None
    );
    let one = actionable_fingerprint(&snapshot(&["Error"], &["B", "A"], 95.0)).expect("one");
    let other = actionable_fingerprint(&snapshot(&["Error"], &["A", "B"], 99.0)).expect("other");
    assert_eq!(one, other);
    assert_eq!(one.lines().count(), 4);
    assert_ne!(
        Some(one),
        actionable_fingerprint(&snapshot(&["Error"], &["A"], 95.0))
    );
}

#[test]
fn a_game_that_ended_has_all_looked_at_again() {
    let mut lp = resting();
    lp.last_fingerprint = Some("x".into());
    let mut st = SvcState {
        gaming_until: 100,
        ..SvcState::default()
    };
    assert!(!reconcile_gaming(&mut lp, &st, 50));
    assert!(lp.was_gaming);
    assert!(reconcile_gaming(&mut lp, &st, 100));
    assert_eq!(lp.last_fingerprint, None);
    st.last_digest_at = 1;
    assert!(!digest_due(&st, DIGEST_INTERVAL_SECS));
    assert!(digest_due(&st, 1 + DIGEST_INTERVAL_SECS));
    assert_eq!(
        learned_section(Some("a".into()), Some("b".into())).as_deref(),
        Some("a\n\nb")
    );
    assert_eq!(learned_section(None, None), None);
    assert_eq!(unfinished_analysis(false, 10), "analysis task panicked");
}

#[test]
fn a_day_has_no_more_second_passes_than_it_allows() {
    let mut lp = resting();
    let mut st = SvcState::default();
    let none = Amount { bits: 0 };
    let mut analyse = |began: &str, ended: &str| {
        begin_analysis(&mut lp, &mut st, began);
        let first = decision(true, &[]);
        let before = st.advisor_escalations_today;
        let deeper = should_escalate(&first, &cfg(true), before).map(|reason| DeeperPass {
            reason: reason.to_string(),
            decision: decision(false, &[]),
            spent_today: none,
            cost: none,
        });
        let escalated = deeper.is_some();
        let view = AdvisorSettingsView::default();
        let (_, sum) = conclude_analysis(None, first, deeper, &cfg(true), view, none, before);
        analysis_succeeded(&mut lp, &mut st, sum, ended, 1, 1);
        (escalated, st.advisor_escalations_today)
    };
    for n in 1..=MAX_ESCALATIONS_PER_DAY {
        assert_eq!(analyse("2026-01-01", "2026-01-01"), (true, n));
    }
    assert_eq!(
        analyse("2026-01-01", "2026-01-01"),
        (false, MAX_ESCALATIONS_PER_DAY)
    );
    assert_eq!(analyse("2026-01-01", "2026-01-02"), (false, 0));
    assert_eq!(analyse("2026-01-02", "2026-01-03"), (true, 1));
    for n in 2..=MAX_ESCALATIONS_PER_DAY {
        assert_eq!(analyse("2026-01-03", "2026-01-03"), (true, n));
    }
    assert!(!analyse("2026-01-03", "2026-01-03").0);
}
