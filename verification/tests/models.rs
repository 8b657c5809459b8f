use eir_svc::json::{json_strings_within, read_json, value_of, Json};
use eir_svc::metric::Metric;
use eir_svc::models::{
    fix_within_bounds, truncate_utf8_bytes, ClaudeDecision, EventLogEntry, FixAction, LogEvent, Moment, Problem,
    ProposedFix, RegistryScalarKind, SecurityPosture, SystemState, MAX_MODEL_ACTION_BYTES,
    MAX_MODEL_ACTION_STRING_BYTES, MAX_MODEL_DECISION_TEXT_BYTES, MAX_MODEL_PROBLEMS,
};
use serde_json::Value;

fn metric(x: f32) -> Metric {
    Metric { bits: x.to_bits() }
}

fn restart_fix(service: &str) -> ProposedFix {
    let mut fields = serde_json::Map::new();
    fields.insert("action".into(), Value::from("service_restart"));
    fields.insert("service_name".into(), Value::from(service));
    ProposedFix {
        value: Value::Object(fields),
        action: Some(FixAction::ServiceRestart {
            service_name: service.to_string(),
        }),
    }
}

fn model_problem(fix: ProposedFix) -> Problem {
    Problem {
        diagnosis: "diagnosis".into(),
        root_cause: "root cause".into(),
        confidence: metric(0.9),
        proposed_fix: fix,
        reasoning: "reasoning".into(),
        side_effects: "side effects".into(),
        undo_instructions: "undo".into(),
    }
}

fn service_of(problem: &Problem) -> Option<String> {
    match problem.parse_fix_action() {
        Some(FixAction::ServiceRestart { service_name }) => Some(service_name),
        _ => None,
    }
}

#[test]
fn model_decision_is_bounded_without_truncating_action_fields() {
    let oversized_target = "x".repeat(MAX_MODEL_ACTION_STRING_BYTES + 1);
    let mut decision = ClaudeDecision {
        analysis: format!("a{}", "é".repeat(MAX_MODEL_DECISION_TEXT_BYTES)),
        problems: std::iter::repeat_with(|| model_problem(restart_fix("Spooler")))
            .take(MAX_MODEL_PROBLEMS + 1)
            .collect(),
        needs_deeper_analysis: false,
    };
    decision.problems[0].proposed_fix = restart_fix(&oversized_target);

    decision.bound_model_output();

    assert!(decision.analysis.len() <= MAX_MODEL_DECISION_TEXT_BYTES);
    assert!(decision.analysis.ends_with('é'));
    assert_eq!(decision.problems.len(), MAX_MODEL_PROBLEMS);
    assert!(decision
        .problems
        .iter()
        .all(|problem| { problem.proposed_fix.value["service_name"].as_str() == Some("Spooler") }));
    assert!(decision
        .problems
        .iter()
        .all(|problem| service_of(problem).as_deref() == Some("Spooler")));
}

#[test]
fn a_fix_that_is_too_large_or_unknown_is_dropped_whole() {
    let mut large = restart_fix("Spooler");
    let half = "x".repeat(MAX_MODEL_ACTION_STRING_BYTES / 2);
    large.value["notes"] = Value::from(vec![half; 9]);
    assert!(large.value.to_string().len() > MAX_MODEL_ACTION_BYTES);
    let mut unknown = restart_fix("Spooler");
    unknown.action = None;
    let mut decision = ClaudeDecision {
        analysis: "fine".into(),
        problems: vec![
            model_problem(large),
            model_problem(unknown),
            model_problem(restart_fix("W32Time")),
        ],
        needs_deeper_analysis: true,
    };
    decision.problems[2].reasoning = "r".repeat(MAX_MODEL_DECISION_TEXT_BYTES + 9);
    decision.bound_model_output();
    assert_eq!(decision.analysis, "fine");
    assert!(decision.needs_deeper_analysis);
    assert_eq!(decision.problems.len(), 1);
    assert_eq!(service_of(&decision.problems[0]).as_deref(), Some("W32Time"));
    assert_eq!(
        decision.problems[0].reasoning.len(),
        MAX_MODEL_DECISION_TEXT_BYTES
    );
}

#[test]
fn a_fix_is_bounded_by_its_strings_and_by_its_encoding() {
    let value = read_json(br#"{"a":"b"}"#).expect("json");
    let encoded = |len: usize| Some(vec![b' '; len]);
    assert!(fix_within_bounds(&value, &encoded(MAX_MODEL_ACTION_BYTES)));
    assert!(!fix_within_bounds(
        &value,
        &encoded(MAX_MODEL_ACTION_BYTES + 1)
    ));
    assert!(!fix_within_bounds(&value, &None));
    let long = Json::Text("x".repeat(MAX_MODEL_ACTION_STRING_BYTES + 1));
    assert!(!fix_within_bounds(&long, &encoded(1)));
    let within = |fix: ProposedFix| {
        let mut decision = ClaudeDecision {
            analysis: String::new(),
            problems: vec![model_problem(fix)],
            needs_deeper_analysis: false,
        };
        decision.bound_model_output();
        decision.problems.len()
    };
    let sized = |len: usize| {
        let mut fix = restart_fix("Spooler");
        fix.value["n"] = Value::from(vec![Value::from(1); len]);
        fix
    };
    let room = MAX_MODEL_ACTION_BYTES - sized(0).value.to_string().len();
    assert_eq!(within(sized(room / 2)), 1, "numbers and commas fill the bound");
    assert_eq!(within(sized(room / 2 + 1)), 0);
}

#[test]
fn a_character_is_never_cut_in_two() {
    let cut = |s: &str, max: usize| {
        let mut text = s.to_string();
        truncate_utf8_bytes(&mut text, max);
        text
    };
    assert_eq!(cut("aé€😀", 10), "aé€😀");
    assert_eq!(cut("aé€😀", 9), "aé€");
    assert_eq!(cut("aé€😀", 5), "aé");
    assert_eq!(cut("aé€😀", 2), "a");
    assert_eq!(cut("aé€😀", 0), "");
}

#[test]
fn json_is_read_and_its_strings_are_measured() {
    let value = read_json(br#"{"a":["xyz",7,-1,null,true],"key":{"b":"w"}}"#).expect("json");
    assert!(json_strings_within(&value, 3));
    assert!(!json_strings_within(&value, 2), "keys count too");
    assert!(read_json(b"{").is_none());
    assert!(read_json(b"\"\xff\"").is_none());
    assert_eq!(value_of(&serde_json::Value::from("w")).as_text(), Some("w"));
    assert_eq!(value_of(&serde_json::Value::from(7)).as_text(), None);
    match value.get("a") {
        Some(Json::Array(items)) => {
            assert_eq!(items.len(), 5);
            assert_eq!(items[0].as_text(), Some("xyz"));
            assert!(matches!(items[1], Json::Number(Some(7))));
            assert!(matches!(items[2], Json::Number(None)));
            assert!(matches!(items[3], Json::Null));
            assert!(matches!(items[4], Json::Bool(true)));
        }
        _ => panic!("expected an array"),
    }
    assert!(value.get("missing").is_none());
}

fn state_with_disk_health(dh: &str) -> SystemState {
    SystemState {
        collected_at: 0,
        collector_errors: vec![],
        uptime_secs: 0,
        cpu_usage_percent: metric(0.0),
        memory_usage_percent: metric(0.0),
        memory_available_gb: metric(0.0),
        disk_usage_percent: metric(0.0),
        disk_free_gb: metric(0.0),
        running_services_count: 0,
        failed_services: vec![],
        network_interfaces: vec![],
        network_errors: 0,
        disk_health: dh.to_string(),
        windows_update_status: "ok".into(),
        security: SecurityPosture::default(),
    }
}

#[test]
fn dedup_key_identifies_the_issue_not_the_exact_parameters() {
    assert_eq!(
        FixAction::PowerShellDiagnostic {
            script: "Get-Process | Sort CPU".into()
        }
        .dedup_key(),
        FixAction::PowerShellDiagnostic {
            script: "Get-EventLog -Newest 50".into()
        }
        .dedup_key(),
    );
    assert_eq!(
        FixAction::RegistryReset {
            key_path: "HKLM\\X".into(),
            value_name: "Start".into(),
            value_data: "2".into()
        }
        .dedup_key(),
        FixAction::RegistryReset {
            key_path: "hklm\\x".into(),
            value_name: "start".into(),
            value_data: "3".into()
        }
        .dedup_key(),
    );
    assert_eq!(
        FixAction::LogCleanup {
            path: "C:\\Logs".into(),
            days_old: 30
        }
        .dedup_key(),
        FixAction::LogCleanup {
            path: "c:\\logs".into(),
            days_old: 7
        }
        .dedup_key(),
    );
    assert_eq!(
        FixAction::ServiceRestart {
            service_name: "Spooler".into()
        }
        .dedup_key(),
        FixAction::ServiceRestart {
            service_name: "spooler".into()
        }
        .dedup_key(),
    );
    assert_ne!(
        FixAction::ServiceRestart {
            service_name: "Spooler".into()
        }
        .dedup_key(),
        FixAction::ServiceRestart {
            service_name: "W32Time".into()
        }
        .dedup_key(),
    );
    assert_ne!(
        FixAction::ServiceRestart {
            service_name: "Spooler".into()
        }
        .dedup_key(),
        FixAction::ServiceStart {
            service_name: "Spooler".into()
        }
        .dedup_key(),
    );
    let startup = |enable: bool| FixAction::StartupSet {
        name: "OneDrive".into(),
        location: "user_run".into(),
        hive: "S-1-5-21-x".into(),
        enable,
    };
    assert_ne!(startup(true).dedup_key(), startup(false).dedup_key());
    assert_eq!(
        startup(true).dedup_key(),
        "startup_set|onedrive|user_run|s-1-5-21-x|true"
    );
}

#[test]
fn dedup_key_normalizes_equivalent_windows_targets() {
    assert_eq!(
        FixAction::LogCleanup {
            path: r"C:\Logs\.\App".into(),
            days_old: 30,
        }
        .dedup_key(),
        FixAction::LogCleanup {
            path: "c:/logs/app/".into(),
            days_old: 7,
        }
        .dedup_key(),
    );
    assert_eq!(
        FixAction::FileDelete {
            path: r"C:\Temp\Old\..\cache.bin".into(),
        }
        .dedup_key(),
        FixAction::FileDelete {
            path: "c:/temp/cache.bin".into(),
        }
        .dedup_key(),
    );
    assert_eq!(
        FixAction::RegistryReset {
            key_path: r"HKEY_LOCAL_MACHINE\Software\Eir".into(),
            value_name: "State".into(),
            value_data: "1".into(),
        }
        .dedup_key(),
        FixAction::RegistryReset {
            key_path: "hklm:/software/eir/".into(),
            value_name: "state".into(),
            value_data: "2".into(),
        }
        .dedup_key(),
    );
    assert_eq!(
        FixAction::TaskDisable {
            task_name: r"\Vendor\\Updater".into(),
        }
        .dedup_key(),
        FixAction::TaskDisable {
            task_name: r"\vendor\updater".into(),
        }
        .dedup_key(),
    );
}

#[test]
fn disk_health_is_a_fault_only_when_degraded() {
    for ok in ["Healthy", "unknown", ""] {
        assert!(state_with_disk_health(ok)
            .fault_parts()
            .iter()
            .all(|p| !p.starts_with("DISK_HEALTH")));
    }
    for bad in ["Warning", "Unhealthy", "UNHEALTHY"] {
        assert!(state_with_disk_health(bad)
            .fault_parts()
            .iter()
            .any(|p| p.starts_with("DISK_HEALTH")));
    }
}

#[test]
fn every_fault_has_its_part_in_order() {
    let mut state = state_with_disk_health("Warning");
    state.failed_services = vec!["Spooler".into(), "W32Time".into()];
    state.security.firewall.domain = Some(false);
    state.security.firewall.private = Some(true);
    state.security.firewall.public = Some(false);
    state.security.defender.realtime_enabled = Some(false);
    state.security.defender.signature_age_days = Some(4);
    assert_eq!(
        state.fault_parts(),
        [
            "S|Spooler",
            "S|W32Time",
            "FW|domain",
            "FW|public",
            "DEF|realtime_off",
            "DEF|sig_stale",
            "DISK_HEALTH|warning"
        ]
    );
    state.security.defender.antivirus_enabled = Some(false);
    state.security.defender.signature_age_days = Some(3);
    assert!(!state.fault_parts().iter().any(|p| p.starts_with("DEF")));
}

#[test]
fn stored_kinds_read_back() {
    for kind in [
        RegistryScalarKind::String,
        RegistryScalarKind::ExpandString,
        RegistryScalarKind::DWord,
        RegistryScalarKind::QWord,
    ] {
        assert_eq!(RegistryScalarKind::from_storage(kind.as_str()), Some(kind));
    }
    assert_eq!(RegistryScalarKind::from_storage("Binary"), None);
}

#[test]
fn what_is_worth_analysing() {
    let entry = |level: &str| EventLogEntry {
        timestamp: Moment { secs: 0, nanos: 0 },
        level: level.into(),
        source: String::new(),
        message: String::new(),
        event_id: 0,
    };
    assert!(entry("Error").is_actionable());
    assert!(entry("Warning").is_actionable());
    assert!(!entry("Information").is_actionable());
    let event = |severity: &str, snippets: Vec<String>| LogEvent {
        program: String::new(),
        log_path: String::new(),
        severity: severity.into(),
        error_snippets: snippets,
        content_excerpt: String::new(),
    };
    assert!(event("WARN", vec![]).is_actionable());
    assert!(event("INFO", vec!["x".into()]).is_actionable());
    assert!(!event("INFO", vec![]).is_actionable());
}
