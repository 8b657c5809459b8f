use eir_svc::json::Json;
use eir_svc::metric::Metric;
use eir_svc::models::{FixAction, Problem, ProposedFix, SecurityPosture, SystemState};
use eir_svc::policy::{
    BlocklistConfig, Confidence, ExecutionConfig, ExecutionPolicy, Verdict, WhitelistConfig,
};
use eir_svc::proto::{ApprovalInfo, PendingApproval};
use eir_svc::routing::{
    answer_approval, approval_queued, approval_sent, approval_user_action, approved_action_ready,
    auto_fix_sent, begin_user_action, decide_approval, decide_user_action, evaluate_user_action,
    finish_problems, fix_job, problem_approval, pursue_problem, queue_user_action, queued_approval,
    rate_user_action, route_problem, route_user_action, start_auto_fix, user_approval,
    ApprovalPreflightError, Claim, DecisionStep, Explanation, ProblemRoute, ProblemStep,
    UserRequest, UserRoute, UserStep,
};
use eir_svc::state::SvcState;

const NOW: i64 = 1_000;

fn metric(x: f32) -> Metric {
    Metric { bits: x.to_bits() }
}

fn confidence(x: f32) -> Confidence {
    Confidence {
        value: metric(x),
        percent: format!("{:.0}", x * 100.0),
    }
}

fn policy(whitelist: &[&str], blocked: &[&str]) -> ExecutionPolicy {
    let list = |names: &[&str]| names.iter().map(|s| s.to_string()).collect();
    ExecutionPolicy {
        execution: ExecutionConfig {
            confidence_threshold: confidence(0.8),
            max_retries_per_issue: 3,
            rate_limit_mins: 30,
            auto_approve_on_success_rate: metric(0.95),
        },
        whitelist: WhitelistConfig {
            actions: list(whitelist),
        },
        blocklist: BlocklistConfig {
            services: vec![],
            paths: vec![],
            actions: list(blocked),
            tasks: vec![],
        },
    }
}

fn restart() -> FixAction {
    FixAction::ServiceRestart {
        service_name: "Spooler".into(),
    }
}

fn machine() -> SystemState {
    SystemState {
        collected_at: 0,
        collector_errors: vec![],
        uptime_secs: 0,
        cpu_usage_percent: metric(0.0),
        memory_usage_percent: metric(0.0),
        memory_available_gb: metric(0.0),
        disk_usage_percent: metric(0.0),
        disk_free_gb: metric(0.0),
        running_services_count: 0,
        failed_services: vec![],
        network_interfaces: vec![],
        network_errors: 0,
        disk_health: String::new(),
        windows_update_status: String::new(),
        security: SecurityPosture::default(),
    }
}

fn pending(id: u64) -> PendingApproval {
    PendingApproval {
        info: ApprovalInfo {
            id,
            diagnosis: "stuck".into(),
            root_cause: String::new(),
            confidence: metric(0.9),
            action: "Restart Spooler".into(),
            reason: String::new(),
            side_effects: String::new(),
            undo_instructions: String::new(),
            action_summary: String::new(),
            target: String::new(),
            target_details: String::new(),
            reversible: false,
            created_at: 0,
        },
        action: restart(),
        decision_id: 77,
        baseline: machine(),
    }
}

fn problem(action: Option<FixAction>) -> Problem {
    Problem {
        diagnosis: "stuck".into(),
        root_cause: String::new(),
        confidence: metric(0.9),
        proposed_fix: ProposedFix {
            value: serde_json::from_str("{ \"action\" : \"?\" }").expect("json"),
            action,
        },
        reasoning: String::new(),
        side_effects: String::new(),
        undo_instructions: String::new(),
    }
}

#[test]
fn an_action_of_the_user_goes_through_the_policy() {
    let mut st = SvcState::default();
    let open = policy(&["service_restart"], &[]);
    let key = begin_user_action(&st, &restart()).expect("free");
    assert_eq!(key, "service_restart|spooler");
    let decide = |st: &mut SvcState, pol: &ExecutionPolicy, force: bool| {
        decide_user_action(st, pol, &restart(), "Restart", "asked", force, Ok(1), NOW)
    };
    assert!(matches!(
        decide(&mut st, &open, false),
        UserRoute::CheckRate
    ));
    assert!(matches!(
        decide(&mut st, &open, true),
        UserRoute::AskApproval(_)
    ));
    match decide(&mut st, &policy(&[], &["service_restart"]), true) {
        UserRoute::Finished(Err(reason)) => {
            assert_eq!(reason, "Action 'service_restart' is disabled by policy")
        }
        _ => panic!("expected a refusal"),
    }
    assert_eq!(st.recent_problems.len(), 1);
    assert!(st.recent_problems[0].blocked);
    match decide_user_action(
        &mut st,
        &open,
        &restart(),
        "Restart",
        "asked",
        false,
        Err("disk full".into()),
        NOW,
    ) {
        UserRoute::Finished(Err(message)) => {
            assert_eq!(message, "Action could not be recorded: disk full")
        }
        _ => panic!("expected a failure"),
    }
}

#[test]
fn confirmation_is_asked_for_even_where_the_policy_would_run_it() {
    let open = policy(&["service_restart"], &[]);
    assert!(matches!(
        evaluate_user_action(&open, &restart(), true),
        Verdict::RequireApproval(_)
    ));
    assert!(matches!(
        evaluate_user_action(&open, &restart(), false),
        Verdict::AutoApprove
    ));
}

#[test]
fn an_action_of_the_user_is_held_back_after_it_ran() {
    let mut st = SvcState::default();
    let key = "service_restart|spooler";
    assert_eq!(
        rate_user_action(&mut st, key, "Restart", "asked", Ok(true), NOW),
        Err("Action was already completed recently".to_string())
    );
    assert_eq!(
        rate_user_action(&mut st, key, "Restart", "asked", Err("x".into()), NOW),
        Err("Safety check failed: x".to_string())
    );
    assert!(st.in_flight.is_empty());
    assert_eq!(
        rate_user_action(&mut st, key, "Restart", "asked", Ok(false), NOW),
        Ok(())
    );
    assert_eq!(st.in_flight, [key]);
    assert!(begin_user_action(&st, &restart()).is_err());
    assert_eq!(
        queue_user_action(&mut st, key, true, NOW),
        Ok("Action queued".to_string())
    );
    assert_eq!(st.status, "Executing");
    assert_eq!(
        queue_user_action(&mut st, key, false, NOW),
        Err("Executor is unavailable".to_string())
    );
    assert!(st.in_flight.is_empty());
    assert_eq!(
        approval_user_action(&mut st, Ok(pending(3)), "Restart", "asked", NOW),
        Ok("Action queued for approval".to_string())
    );
    assert_eq!(st.status, "PendingApproval");
    assert!(begin_user_action(&st, &restart()).is_err());
}

#[test]
fn a_problem_is_routed_by_its_fix() {
    let mut st = SvcState::default();
    let open = policy(&["service_restart"], &[]);
    let route = |st: &mut SvcState, pol: &ExecutionPolicy, fix: Option<FixAction>, c: f32| {
        route_problem(
            st,
            pol,
            &problem(fix),
            "Restart",
            &confidence(c),
            NOW,
        )
    };
    assert!(matches!(
        route(&mut st, &open, None, 0.9),
        ProblemRoute::Finished
    ));
    assert_eq!(
        st.recent_problems[0].reason.as_deref(),
        Some("unrecognised fix action")
    );
    assert_eq!(st.recent_problems[0].action, "{\"action\":\"?\"}");
    assert!(matches!(
        route(&mut st, &open, Some(restart()), 0.9),
        ProblemRoute::CheckRate
    ));
    assert!(matches!(
        route(&mut st, &open, Some(restart()), 0.1),
        ProblemRoute::Finished
    ));
    assert_eq!(st.recent_problems.len(), 2);
    let strict = policy(&[], &[]);
    assert!(matches!(
        route(&mut st, &strict, Some(restart()), 0.9),
        ProblemRoute::AskApproval(_)
    ));
    approval_queued(
        &mut st,
        Ok(pending(1)),
        &problem(Some(restart())),
        "Restart",
        NOW,
    );
    assert_eq!(st.status, "PendingApproval");
    assert!(matches!(
        route(&mut st, &strict, Some(restart()), 0.9),
        ProblemRoute::Finished
    ));
    approval_queued(
        &mut st,
        Err("full".into()),
        &problem(Some(restart())),
        "Restart",
        NOW,
    );
    assert_eq!(
        st.recent_problems[2].reason.as_deref(),
        Some("could not queue for approval: full")
    );
}

#[test]
fn jobs_and_approvals_tell_what_they_are_for() {
    let told = || Explanation {
        summary: "restarts it".into(),
        target: "Spooler".into(),
        target_details: "the printer queue".into(),
        reversible: true,
    };
    let mut state = machine();
    state.uptime_secs = 9;
    let job = fix_job(
        &restart(),
        &problem(Some(restart())),
        5,
        &state,
        "Restart",
    );
    assert_eq!(job.key, "service_restart|spooler");
    assert_eq!((job.decision_id, job.baseline.uptime_secs), (5, 9));
    assert_eq!(job.diagnosis, "stuck");
    assert!(job.reason.is_none() && job.approval_id.is_none());
    let asked = problem_approval(
        &problem(Some(restart())),
        "why".into(),
        "Restart".into(),
        told(),
        NOW,
    );
    assert_eq!((asked.id, asked.created_at), (0, NOW));
    assert_eq!(asked.confidence, metric(0.9));
    assert_eq!(asked.target_details, "the printer queue");
    let queued = queued_approval(asked, 8, restart(), 5, state);
    assert_eq!((queued.info.id, queued.decision_id), (8, 5));
    assert_eq!(queued.info.action_summary, "restarts it");
    let request = UserRequest {
        action: restart(),
        diagnosis: "asked",
        reason: "by user",
        force_approval: true,
    };
    let asked = user_approval(&request, "why".into(), "Restart".into(), told(), NOW);
    assert_eq!(asked.confidence, metric(1.0));
    assert_eq!(asked.diagnosis, "asked");
    assert!(asked.root_cause.is_empty() && asked.reversible);
}

#[test]
fn a_fix_starts_once() {
    let mut st = SvcState::default();
    assert!(!start_auto_fix(&mut st, "k", Ok(true)));
    assert!(!start_auto_fix(&mut st, "k", Err("x".into())));
    assert!(start_auto_fix(&mut st, "k", Ok(false)));
    assert!(!start_auto_fix(&mut st, "k", Ok(false)));
    auto_fix_sent(&mut st, "k", true);
    assert_eq!(st.status, "Executing");
    auto_fix_sent(&mut st, "k", false);
    assert!(st.in_flight.is_empty());
    assert_eq!(
        st.error.as_deref(),
        Some("Executor is unavailable; the fix was not started")
    );
    st.paused = true;
    st.status = "Paused".into();
    finish_problems(&mut st, true);
    assert_eq!(st.status, "Paused");
}

#[test]
fn approval_does_not_outrank_the_policy() {
    let ready = |pol: &ExecutionPolicy, limited: Result<bool, String>| {
        approved_action_ready(pol, &pending(1), "90", limited)
    };
    assert!(ready(&policy(&[], &[]), Ok(false)).is_ok());
    match ready(&policy(&[], &["service_restart"]), Ok(false)) {
        Err(ApprovalPreflightError::Resolved(reason)) => assert_eq!(
            reason,
            "Blocked by current policy: Action 'service_restart' is disabled by policy"
        ),
        _ => panic!("expected a refusal"),
    }
    match ready(&policy(&[], &[]), Ok(true)) {
        Err(ApprovalPreflightError::Resolved(reason)) => {
            assert_eq!(reason, "Already completed or repeatedly failed recently")
        }
        _ => panic!("expected a refusal"),
    }
    match ready(&policy(&[], &[]), Err("x".into())) {
        Err(ApprovalPreflightError::Retry(reason)) => {
            assert_eq!(reason, "Safety preflight failed: x")
        }
        _ => panic!("expected a retry"),
    }
}

fn asked(force_approval: bool) -> UserRequest {
    UserRequest {
        action: restart(),
        diagnosis: "asked",
        reason: "by user",
        force_approval,
    }
}

#[test]
fn a_request_runs_only_where_the_policy_lets_it() {
    let open = policy(&["service_restart"], &[]);
    let banned = policy(&["service_restart"], &["service_restart"]);
    let route = |st: &mut SvcState, pol: &ExecutionPolicy, force: bool, limited| {
        route_user_action(st, pol, &asked(force), "Restart", Ok(7), limited, NOW)
    };
    let mut st = SvcState::default();
    for limited in [Ok(false), Ok(true), Err("x".to_string())] {
        match route(&mut st, &banned, false, limited) {
            UserStep::Finished(Err(reason)) => {
                assert_eq!(reason, "Action 'service_restart' is disabled by policy")
            }
            _ => panic!("expected a refusal"),
        }
    }
    match route(&mut st, &open, true, Ok(false)) {
        UserStep::Ask(reason) => assert_eq!(reason, "User-initiated change — confirm to apply"),
        _ => panic!("expected a question"),
    }
    match route(&mut st, &open, false, Ok(true)) {
        UserStep::Finished(Err(reason)) => {
            assert_eq!(reason, "Action was already completed recently")
        }
        _ => panic!("expected it to be held back"),
    }
    match route(&mut st, &open, false, Err("db".to_string())) {
        UserStep::Finished(Err(reason)) => assert_eq!(reason, "Safety check failed: db"),
        _ => panic!("expected it to be held back"),
    }
    match route_user_action(
        &mut st,
        &open,
        &asked(false),
        "Restart",
        Err("full".to_string()),
        Ok(false),
        NOW,
    ) {
        UserStep::Finished(Err(reason)) => {
            assert_eq!(reason, "Action could not be recorded: full")
        }
        _ => panic!("expected a refusal"),
    }
    assert!(st.in_flight.is_empty());
    match route(&mut st, &open, false, Ok(false)) {
        UserStep::Run(job) => {
            assert_eq!((job.decision_id, job.label.as_str()), (7, "Restart"));
            assert_eq!(job.reason.as_deref(), Some("by user"));
        }
        _ => panic!("expected it to run"),
    }
    assert_eq!(st.in_flight, ["service_restart|spooler"]);
    match route(&mut st, &open, false, Ok(false)) {
        UserStep::Finished(Err(reason)) => {
            assert_eq!(reason, "Action is already queued or executing")
        }
        _ => panic!("expected it to be under way"),
    }
}

#[test]
fn a_fix_runs_only_where_the_policy_lets_it() {
    let open = policy(&["service_restart"], &[]);
    let banned = policy(&["service_restart"], &["service_restart"]);
    let route = |st: &mut SvcState, pol: &ExecutionPolicy, limited| {
        pursue_problem(
            st,
            pol,
            &problem(Some(restart())),
            "Restart",
            &confidence(0.9),
            limited,
            5,
            &machine(),
            NOW,
        )
    };
    let mut st = SvcState::default();
    for (pol, limited) in [
        (&banned, Ok(false)),
        (&open, Ok(true)),
        (&open, Err("x".to_string())),
    ] {
        assert!(matches!(
            route(&mut st, pol, limited),
            ProblemStep::Finished
        ));
    }
    assert_eq!(st.recent_problems.len(), 1, "only a refusal is shown");
    assert!(matches!(
        route(&mut st, &policy(&[], &[]), Ok(false)),
        ProblemStep::Ask(_)
    ));
    match route(&mut st, &open, Ok(false)) {
        ProblemStep::Run(job) => {
            assert_eq!((job.decision_id, job.diagnosis.as_str()), (5, "stuck"));
            assert!(job.reason.is_none());
        }
        _ => panic!("expected it to run"),
    }
    assert!(matches!(
        route(&mut st, &open, Ok(false)),
        ProblemStep::Finished
    ));
    assert_eq!(st.in_flight.len(), 1);
}

#[test]
fn an_approved_action_is_held_against_the_policy_of_now() {
    let answer = |pol: &ExecutionPolicy, approved: bool, limited: Result<bool, String>| {
        let mut st = SvcState {
            pending: vec![pending(1)],
            ..SvcState::default()
        };
        let claim = Claim::Claimed(pending(1));
        let step = answer_approval(&mut st, pol, 1, approved, claim, "90", limited, NOW);
        (step, st)
    };
    let open = policy(&[], &[]);
    let (step, st) = answer(&policy(&[], &["service_restart"]), true, Ok(false));
    assert!(matches!(step, DecisionStep::Retire(Err(_))));
    assert!(st.in_flight.is_empty());
    assert_eq!(
        st.recent_problems[0].reason.as_deref(),
        Some("Blocked by current policy: Action 'service_restart' is disabled by policy")
    );
    let (step, st) = answer(&open, true, Ok(true));
    assert!(matches!(step, DecisionStep::Retire(Err(_))));
    assert!(st.in_flight.is_empty());
    let (step, st) = answer(&open, true, Err("db".to_string()));
    assert!(matches!(step, DecisionStep::Keep(Err(_))));
    assert_eq!(st.error.as_deref(), Some("Safety preflight failed: db"));
    let (step, st) = answer(&open, false, Ok(false));
    assert!(matches!(step, DecisionStep::Rejected(77, _, Ok(_))));
    assert!(st.in_flight.is_empty());
    let (step, st) = answer(&open, true, Ok(false));
    assert!(matches!(step, DecisionStep::Run(_)));
    assert_eq!(st.in_flight, ["service_restart|spooler"]);
}

#[test]
fn an_approval_is_decided_once() {
    let start = || SvcState {
        pending: vec![pending(1), pending(2)],
        ..SvcState::default()
    };
    let mut st = start();
    match decide_approval(&mut st, 1, true, Claim::Claimed(pending(1)), Ok(()), NOW) {
        DecisionStep::Run(job) => {
            assert_eq!(job.approval_id, Some(1));
            assert_eq!(job.decision_id, 77);
            assert_eq!(job.key, "service_restart|spooler");
            assert_eq!(approval_sent(&mut st, &job.key, true, NOW).is_ok(), true);
        }
        _ => panic!("expected it to run"),
    }
    assert_eq!(st.pending.len(), 1);
    assert_eq!(st.pending[0].info.id, 2);

    let mut st = start();
    match decide_approval(&mut st, 1, false, Claim::Claimed(pending(1)), Ok(()), NOW) {
        DecisionStep::Rejected(decision, label, reply) => {
            assert_eq!((decision, label.as_str()), (77, "Restart Spooler"));
            assert_eq!(reply, Ok("Action rejected".to_string()));
        }
        _ => panic!("expected a rejection"),
    }
    assert_eq!(
        st.recent_problems[0].reason.as_deref(),
        Some("rejected by user")
    );

    let mut st = start();
    match decide_approval(&mut st, 1, true, Claim::Stale, Ok(()), NOW) {
        DecisionStep::Keep(Err(message)) => {
            assert_eq!(message, "Approval is stale or already resolved")
        }
        _ => panic!("expected it to be stale"),
    }
    assert_eq!(st.pending.len(), 2);
    match decide_approval(
        &mut st,
        1,
        true,
        Claim::Claimed(pending(1)),
        Err(ApprovalPreflightError::Retry("db".into())),
        NOW,
    ) {
        DecisionStep::Keep(Err(_)) => assert_eq!(st.error.as_deref(), Some("db")),
        _ => panic!("expected it to stay"),
    }
    let mut st = start();
    assert!(matches!(
        decide_approval(&mut st, 1, true, Claim::Failed("io".into()), Ok(()), NOW),
        DecisionStep::Keep(Err(_))
    ));
    assert_eq!(
        st.error.as_deref(),
        Some("Could not save approval decision: io")
    );
}
