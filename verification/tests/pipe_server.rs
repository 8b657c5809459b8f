use eir_svc::metric::{Amount, Metric};
use eir_svc::pipe_server::{
    bind_socket, client_identity_evidence_allowed, client_session_matches_active,
    configured_socket, fixed_drive_root, initial_status, peer_allowed, portable_token_identity_allowed,
    result_envelope, service_line, status_candidates, stays_connected, takes_client, takes_connection, status_for_wire, status_line,
    verified_client_session, verified_portable_client_session, windows_path_eq, writer_step,
    BindStep, CappedJsonLine, ClientCount, ElevationType, LineReader, LineStep, SocketConfig, TrialConnect,
    WriterEvent, WriterStep, DEFAULT_SOCKET_PATH, INTERACTIVE_PIPE_ACCESS, MAX_SERVICE_LINE_BYTES,
    MAX_STATUS_ACTION_PREFERENCES, MAX_STATUS_LEARNED_FACTS, MAX_STATUS_PENDING_APPROVALS,
    MAX_UI_LINE_BYTES, PIPE_SDDL,
};
use eir_svc::prefs::ActionPreferenceView;
use eir_svc::proto::{
    AdvisorSettingsView, AdvisorStatus, ApprovalInfo, LearnedFactView, MetricPoint, ProblemSummary,
    ServiceIdentity, StatusPayload, UiSettings, UpdaterStatus, UsageSummary,
};
use serde_json::Value;

fn metric(x: f32) -> Metric {
    Metric { bits: x.to_bits() }
}

fn amount(x: f64) -> Amount {
    Amount { bits: x.to_bits() }
}

fn number(m: Metric) -> f32 {
    f32::from_bits(m.bits)
}

fn dollars(a: Amount) -> f64 {
    f64::from_bits(a.bits)
}

fn identity() -> ServiceIdentity {
    ServiceIdentity {
        protocol_version: 3,
        capabilities: vec!["command_results".to_string()],
        version: "1.2.3".to_string(),
    }
}

fn approval(id: u64, confidence: f32, diagnosis: String) -> ApprovalInfo {
    ApprovalInfo {
        id,
        diagnosis,
        root_cause: String::new(),
        confidence: metric(confidence),
        action: String::new(),
        reason: String::new(),
        side_effects: String::new(),
        undo_instructions: String::new(),
        action_summary: String::new(),
        target: String::new(),
        target_details: String::new(),
        reversible: false,
        created_at: 0,
    }
}

fn float(m: Metric) -> Value {
    Value::from(number(m))
}

/// The parts of a status that the tests look at, as a JSON message.
fn encoded(status: &StatusPayload) -> Vec<u8> {
    let mut map = serde_json::Map::new();
    map.insert("type".into(), Value::from("status"));
    map.insert("status".into(), Value::from(status.status.clone()));
    map.insert("error".into(), Value::from(status.error.clone()));
    map.insert(
        "last_analysis".into(),
        Value::from(status.last_analysis.clone()),
    );
    map.insert("cpu".into(), float(status.cpu));
    map.insert("memory".into(), float(status.memory));
    map.insert("disk".into(), float(status.disk));
    let mut approvals: Vec<Value> = Vec::new();
    for item in &status.pending_approvals {
        let mut one = serde_json::Map::new();
        one.insert("id".into(), Value::from(item.id));
        one.insert("diagnosis".into(), Value::from(item.diagnosis.clone()));
        one.insert("confidence".into(), float(item.confidence));
        approvals.push(Value::Object(one));
    }
    map.insert("pending_approvals".into(), Value::Array(approvals));
    serde_json::to_vec(&Value::Object(map)).expect("a value encodes")
}

fn sent_line(status: StatusPayload) -> Option<Vec<u8>> {
    let candidates = status_candidates(status, &identity());
    status_line(
        service_line(&encoded(&candidates.full)),
        service_line(&encoded(&candidates.recovery)),
        service_line(&encoded(&candidates.minimal)),
    )
}

fn decoded(line: &[u8]) -> Value {
    serde_json::from_slice(line).expect("the line is valid JSON")
}

#[test]
fn pipe_server_outbound_status_collections_are_bounded_without_mutating_persistent_state() {
    let crowded = || {
        let mut status = StatusPayload::default();
        for _ in 0..MAX_STATUS_PENDING_APPROVALS + 1 {
            status.pending_approvals.push(approval(1, 0.0, String::new()));
        }
        for _ in 0..MAX_STATUS_LEARNED_FACTS + 1 {
            status.learned_facts.push(LearnedFactView {
                rest: String::new(),
            });
        }
        status.pending_approvals[MAX_STATUS_PENDING_APPROVALS].id = 999;
        status
    };
    let original = crowded();

    let wire = status_for_wire(crowded());

    assert_eq!(wire.pending_approvals.len(), MAX_STATUS_PENDING_APPROVALS);
    assert_eq!(wire.learned_facts.len(), MAX_STATUS_LEARNED_FACTS);
    assert_eq!(
        original.pending_approvals.len(),
        MAX_STATUS_PENDING_APPROVALS + 1
    );
    assert_eq!(
        original.pending_approvals[MAX_STATUS_PENDING_APPROVALS].id,
        999
    );
}

#[test]
fn pipe_server_oversized_service_messages_are_not_written() {
    let message = format!(
        "{{\"type\":\"command_result\",\"request_id\":7,\"ok\":false,\"message\":\"{}\"}}",
        "x".repeat(MAX_SERVICE_LINE_BYTES)
    )
    .into_bytes();

    assert!(service_line(&message).is_none());
}

#[test]
fn pipe_server_oversized_status_is_replaced_by_a_recoverable_error_projection() {
    let mut needed = approval(42, 0.9, "Needs attention".into());
    needed.action = "restart".into();
    needed.reason = "approval required".into();
    needed.target = "Spooler".into();
    needed.reversible = true;
    let mut status = StatusPayload::default();
    status.last_analysis = "x".repeat(MAX_SERVICE_LINE_BYTES);
    status.pending_approvals = vec![needed];

    let line = sent_line(status).expect("bounded status projection");
    assert!(line.len() <= MAX_SERVICE_LINE_BYTES);
    let status = decoded(&line);
    assert_eq!(status["status"], "Error");
    assert!(status["error"]
        .as_str()
        .is_some_and(|error| error.contains("too large")));
    assert_eq!(status["last_analysis"], "");
    assert_eq!(status["pending_approvals"].as_array().map(Vec::len), Some(1));
    assert_eq!(status["pending_approvals"][0]["id"], 42);
}

#[test]
fn pipe_server_pathological_approval_cannot_break_the_minimal_status_projection() {
    let mut status = StatusPayload::default();
    let mut huge = approval(42, 0.9, "x".repeat(MAX_SERVICE_LINE_BYTES));
    huge.reversible = true;
    status.pending_approvals = vec![huge];

    let line = sent_line(status).expect("minimal status projection");
    assert!(line.len() <= MAX_SERVICE_LINE_BYTES);
    let status = decoded(&line);
    assert_eq!(status["status"], "Error");
    assert_eq!(status["pending_approvals"].as_array().map(Vec::len), Some(0));
}

#[test]
fn pipe_server_nonfinite_numbers_do_not_make_the_status_undecodable() {
    let mut status = StatusPayload::default();
    status.cpu = metric(f32::NAN);
    status.memory = metric(f32::INFINITY);
    status.disk = metric(f32::NEG_INFINITY);
    status.history = vec![MetricPoint {
        at: 1,
        cpu: metric(f32::NAN),
        memory: metric(f32::INFINITY),
        disk: metric(f32::NEG_INFINITY),
    }];
    status.recent_problems = vec![ProblemSummary {
        diagnosis: String::new(),
        confidence: metric(f32::NAN),
        action: String::new(),
        blocked: false,
        auto_executed: false,
        reason: None,
        at: 0,
    }];
    status.usage = Some(UsageSummary {
        cost_today_usd: amount(f64::NAN),
        cost_week_usd: amount(f64::INFINITY),
        rest: String::new(),
    });
    status.settings = Some(UiSettings {
        confidence_threshold: metric(f32::NAN),
        rest: String::new(),
    });
    status.updater = Some(UpdaterStatus {
        last_cost_usd: amount(f64::INFINITY),
        ..UpdaterStatus::default()
    });
    status.advisor = Some(AdvisorStatus {
        spent_today_usd: amount(f64::NAN),
        settings: AdvisorSettingsView {
            low_confidence_threshold: metric(f32::INFINITY),
            rest: String::new(),
        },
        ..AdvisorStatus::default()
    });

    let status = status_for_wire(status);
    let line = service_line(&encoded(&status)).expect("status line");
    let shown = decoded(&line);
    for key in ["cpu", "memory", "disk"] {
        assert_eq!(shown[key].as_f64(), Some(0.0));
    }
    assert_eq!(
        (
            number(status.cpu),
            number(status.memory),
            number(status.disk)
        ),
        (0.0, 0.0, 0.0)
    );
    assert_eq!(
        (
            number(status.history[0].cpu),
            number(status.history[0].memory),
            number(status.history[0].disk),
        ),
        (0.0, 0.0, 0.0)
    );
    assert_eq!(number(status.recent_problems[0].confidence), 0.0);
    let usage = status.usage.expect("usage");
    assert_eq!(
        (dollars(usage.cost_today_usd), dollars(usage.cost_week_usd)),
        (0.0, 0.0)
    );
    assert_eq!(
        number(status.settings.expect("settings").confidence_threshold),
        0.0
    );
    assert_eq!(dollars(status.updater.expect("updater").last_cost_usd), 0.0);
    let advisor = status.advisor.expect("advisor");
    assert_eq!(dollars(advisor.spent_today_usd), 0.0);
    assert_eq!(number(advisor.settings.low_confidence_threshold), 0.0);
}

#[test]
fn mod_outbound_status_collections_are_bounded_without_mutating_persistent_state() {
    let crowded = || {
        let mut status = StatusPayload::default();
        for _ in 0..MAX_STATUS_PENDING_APPROVALS + 1 {
            status.pending_approvals.push(approval(1, 0.0, String::new()));
        }
        for _ in 0..MAX_STATUS_LEARNED_FACTS + 1 {
            status.learned_facts.push(LearnedFactView {
                rest: String::new(),
            });
        }
        status.pending_approvals[MAX_STATUS_PENDING_APPROVALS].id = 999;
        status
    };
    let original = crowded();

    let wire = status_for_wire(crowded());

    assert_eq!(wire.pending_approvals.len(), MAX_STATUS_PENDING_APPROVALS);
    assert_eq!(wire.learned_facts.len(), MAX_STATUS_LEARNED_FACTS);
    assert_eq!(
        original.pending_approvals.len(),
        MAX_STATUS_PENDING_APPROVALS + 1
    );
    assert_eq!(
        original.pending_approvals[MAX_STATUS_PENDING_APPROVALS].id,
        999
    );
}

#[test]
fn mod_oversized_service_messages_are_not_written() {
    let message = format!(
        "{{\"type\":\"command_result\",\"request_id\":7,\"ok\":false,\"message\":\"{}\"}}",
        "x".repeat(MAX_SERVICE_LINE_BYTES)
    )
    .into_bytes();

    assert!(service_line(&message).is_none());
}

#[test]
fn mod_oversized_status_is_replaced_by_a_recoverable_error_projection() {
    let mut needed = approval(42, 0.9, "Needs attention".into());
    needed.action = "restart".into();
    needed.reason = "approval required".into();
    needed.target = "Spooler".into();
    needed.reversible = true;
    let mut status = StatusPayload::default();
    status.last_analysis = "x".repeat(MAX_SERVICE_LINE_BYTES);
    status.pending_approvals = vec![needed];

    let line = sent_line(status).expect("bounded status projection");
    assert!(line.len() <= MAX_SERVICE_LINE_BYTES);
    let status = decoded(&line);
    assert_eq!(status["status"], "Error");
    assert!(status["error"]
        .as_str()
        .is_some_and(|error| error.contains("too large")));
    assert_eq!(status["last_analysis"], "");
    assert_eq!(status["pending_approvals"].as_array().map(Vec::len), Some(1));
    assert_eq!(status["pending_approvals"][0]["id"], 42);
}

#[test]
fn mod_pathological_approval_cannot_break_the_minimal_status_projection() {
    let mut status = StatusPayload::default();
    let mut huge = approval(42, 0.9, "x".repeat(MAX_SERVICE_LINE_BYTES));
    huge.reversible = true;
    status.pending_approvals = vec![huge];

    let line = sent_line(status).expect("minimal status projection");
    assert!(line.len() <= MAX_SERVICE_LINE_BYTES);
    let status = decoded(&line);
    assert_eq!(status["status"], "Error");
    assert_eq!(status["pending_approvals"].as_array().map(Vec::len), Some(0));
}

#[test]
fn mod_nonfinite_numbers_do_not_make_the_status_undecodable() {
    let mut status = StatusPayload::default();
    status.cpu = metric(f32::NAN);
    status.memory = metric(f32::INFINITY);
    status.disk = metric(f32::NEG_INFINITY);
    status.history = vec![MetricPoint {
        at: 1,
        cpu: metric(f32::NAN),
        memory: metric(f32::INFINITY),
        disk: metric(f32::NEG_INFINITY),
    }];
    status.recent_problems = vec![ProblemSummary {
        diagnosis: String::new(),
        confidence: metric(f32::NAN),
        action: String::new(),
        blocked: false,
        auto_executed: false,
        reason: None,
        at: 0,
    }];
    status.usage = Some(UsageSummary {
        cost_today_usd: amount(f64::NAN),
        cost_week_usd: amount(f64::INFINITY),
        rest: String::new(),
    });
    status.settings = Some(UiSettings {
        confidence_threshold: metric(f32::NAN),
        rest: String::new(),
    });
    status.updater = Some(UpdaterStatus {
        last_cost_usd: amount(f64::INFINITY),
        ..UpdaterStatus::default()
    });
    status.advisor = Some(AdvisorStatus {
        spent_today_usd: amount(f64::NAN),
        settings: AdvisorSettingsView {
            low_confidence_threshold: metric(f32::INFINITY),
            rest: String::new(),
        },
        ..AdvisorStatus::default()
    });

    let status = status_for_wire(status);
    let line = service_line(&encoded(&status)).expect("status line");
    let shown = decoded(&line);
    for key in ["cpu", "memory", "disk"] {
        assert_eq!(shown[key].as_f64(), Some(0.0));
    }
    assert_eq!(
        (
            number(status.cpu),
            number(status.memory),
            number(status.disk)
        ),
        (0.0, 0.0, 0.0)
    );
    assert_eq!(
        (
            number(status.history[0].cpu),
            number(status.history[0].memory),
            number(status.history[0].disk),
        ),
        (0.0, 0.0, 0.0)
    );
    assert_eq!(number(status.recent_problems[0].confidence), 0.0);
    let usage = status.usage.expect("usage");
    assert_eq!(
        (dollars(usage.cost_today_usd), dollars(usage.cost_week_usd)),
        (0.0, 0.0)
    );
    assert_eq!(
        number(status.settings.expect("settings").confidence_threshold),
        0.0
    );
    assert_eq!(dollars(status.updater.expect("updater").last_cost_usd), 0.0);
    let advisor = status.advisor.expect("advisor");
    assert_eq!(dollars(advisor.spent_today_usd), 0.0);
    assert_eq!(number(advisor.settings.low_confidence_threshold), 0.0);
}

#[test]
fn finite_numbers_are_sent_as_they_are() {
    let mut status = StatusPayload::default();
    status.cpu = metric(12.5);
    status.pending_approvals = vec![approval(7, f32::NAN, String::new())];
    for n in 0..MAX_STATUS_ACTION_PREFERENCES + 3 {
        status.action_preferences.push(ActionPreferenceView {
            action_key: format!("{n}"),
            preference: "ignore".into(),
            summary: String::new(),
            target: String::new(),
            created_at: 0,
        });
    }
    let wire = status_for_wire(status);
    assert_eq!(number(wire.cpu), 12.5);
    assert_eq!(wire.pending_approvals[0].id, 7);
    assert_eq!(number(wire.pending_approvals[0].confidence), 0.0);
    assert_eq!(wire.action_preferences.len(), MAX_STATUS_ACTION_PREFERENCES);
    assert_eq!(wire.action_preferences[255].action_key, "255");
    let again = status_for_wire(wire);
    assert_eq!(number(again.cpu), 12.5);
    assert_eq!(again.action_preferences.len(), MAX_STATUS_ACTION_PREFERENCES);
}

#[test]
fn a_status_without_details_still_says_who_answers() {
    let mut status = StatusPayload::default();
    status.paused = true;
    status.protocol_version = 5;
    for n in 0..12 {
        status.pending_approvals.push(approval(n, 0.5, String::new()));
    }
    let candidates = status_candidates(status, &identity());
    assert_eq!(candidates.full.pending_approvals.len(), 12);
    assert_eq!(candidates.recovery.pending_approvals.len(), 8);
    assert_eq!(candidates.recovery.pending_approvals[7].id, 7);
    assert!(candidates.minimal.pending_approvals.is_empty());
    assert_eq!(candidates.minimal.protocol_version, 5);
    assert_eq!(candidates.minimal.capabilities, ["command_results"]);
    assert_eq!(candidates.minimal.svc_version.as_deref(), Some("1.2.3"));
    assert!(status_line(None, None, None).is_none());
    assert_eq!(
        status_line(None, Some(vec![1]), Some(vec![2])),
        Some(vec![1])
    );
    assert_eq!(
        status_line(Some(vec![0]), Some(vec![1]), None),
        Some(vec![0])
    );
}

#[test]
fn portable_token_policy_rejects_split_elevation_and_local_system() {
    assert!(portable_token_identity_allowed(
        Some(ElevationType::Default),
        Some(false)
    ));
    assert!(portable_token_identity_allowed(
        Some(ElevationType::Limited),
        Some(false)
    ));
    assert!(!portable_token_identity_allowed(
        Some(ElevationType::Full),
        Some(false)
    ));
    assert!(!portable_token_identity_allowed(
        Some(ElevationType::Default),
        Some(true)
    ));
    assert!(!portable_token_identity_allowed(None, Some(false)));
}

#[test]
fn only_the_active_interactive_session_is_accepted() {
    assert!(client_session_matches_active(2, Some(2)));
    assert!(!client_session_matches_active(2, Some(3)));
    assert!(!client_session_matches_active(2, None));
    assert!(!client_session_matches_active(u32::MAX, Some(2)));
}

#[test]
fn low_integrity_clients_cannot_read_or_write_the_pipe() {
    assert!(
        PIPE_SDDL.contains("NWNR"),
        "the mandatory label must deny both read-up and write-up"
    );
}

#[test]
fn interactive_pipe_rights_cannot_create_competing_server_instances() {
    const FILE_CREATE_PIPE_INSTANCE: u32 = 0x0004;
    assert_eq!(INTERACTIVE_PIPE_ACCESS & FILE_CREATE_PIPE_INSTANCE, 0);
    assert_ne!(INTERACTIVE_PIPE_ACCESS & 0x0001, 0, "read data");
    assert_ne!(INTERACTIVE_PIPE_ACCESS & 0x0002, 0, "write data");
    assert!(!PIPE_SDDL.contains("GRGW"));
    assert!(
        PIPE_SDDL.contains("(A;;GA;;;OW)"),
        "the creator needs Owner Rights to replace disconnected server instances"
    );
}

#[test]
fn ordinary_same_session_processes_are_not_trusted_as_the_ui() {
    assert!(
        !client_identity_evidence_allowed(true, false, false),
        "same-session portable paths are not process identity"
    );
    assert!(client_identity_evidence_allowed(true, true, false));
    assert!(client_identity_evidence_allowed(true, false, true));
    assert!(!client_identity_evidence_allowed(false, true, true));
}

#[test]
fn a_client_is_the_installed_ui_or_an_administrator() {
    let ui = r"C:\Program Files\Eir\eir.exe";
    let shouted = r"C:\PROGRAM FILES\Eir\EIR.exe";
    assert_eq!(
        verified_client_session(Some(2), Some(2), false, Some(shouted), Some(ui)),
        Some(2)
    );
    assert_eq!(
        verified_client_session(Some(2), Some(2), true, None, None),
        Some(2)
    );
    assert_eq!(
        verified_client_session(Some(2), Some(2), false, None, None),
        None
    );
    assert_eq!(
        verified_client_session(Some(2), Some(3), true, Some(ui), Some(ui)),
        None
    );
    assert_eq!(
        verified_client_session(None, Some(3), true, Some(ui), Some(ui)),
        None
    );
    assert_eq!(
        verified_portable_client_session(Some(2), true, Some(ui), Some(shouted)),
        Some(2)
    );
    assert_eq!(
        verified_portable_client_session(Some(2), false, Some(ui), Some(ui)),
        None
    );
    assert!(windows_path_eq(ui, shouted));
    assert!(!windows_path_eq(ui, "eir.exe"));
}

#[test]
fn drive_letters_come_to_wide_roots() {
    assert_eq!(
        fixed_drive_root(r"d:\x"),
        Some([u16::from(b'D'), u16::from(b':'), u16::from(b'\\'), 0])
    );
    assert_eq!(fixed_drive_root(r"\\server\share"), None);
    assert_eq!(fixed_drive_root(""), None);
}

#[test]
fn a_connection_is_taken_from_known_peers() {
    assert!(takes_connection(Some((0, 5)), &[], &[]));
    assert!(!takes_connection(Some((5, 5)), &[], &[]));
    assert!(!takes_connection(None, &[5], &[5]));
    assert_eq!(takes_client(Some(1), Some(7), true), Some(7));
    assert_eq!(takes_client(None, Some(7), true), None);
    assert_eq!(takes_client(Some(1), None, true), None);
    assert_eq!(takes_client(Some(1), Some(7), false), None);
    assert!(stays_connected(false, false, false));
    assert!(stays_connected(true, true, true));
    assert!(!stays_connected(true, false, true));
    assert!(!stays_connected(true, true, false));
}

#[test]
fn clients_are_counted() {
    let mut count = ClientCount { clients: 0 };
    assert!(!count.ui_connected());
    count.connect();
    count.connect();
    count.disconnect();
    assert!(count.ui_connected());
    count.disconnect();
    count.disconnect();
    assert_eq!(count.clients, 0);
}

#[test]
fn the_first_status_says_that_the_service_starts() {
    let status = initial_status(&identity());
    assert_eq!(status.status, "Starting");
    assert_eq!(status.protocol_version, 3);
    assert_eq!(status.capabilities, ["command_results"]);
    assert!(status.pending_approvals.is_empty());
}

#[test]
fn root_is_always_allowed() {
    assert!(peer_allowed(0, 1000, &[], &[]));
}

#[test]
fn a_configured_uid_or_gid_is_allowed() {
    assert!(peer_allowed(1000, 1000, &[1000], &[]));
    assert!(peer_allowed(1000, 999, &[], &[999]));
}

#[test]
fn an_unlisted_peer_is_rejected() {
    assert!(!peer_allowed(1001, 1001, &[1000], &[999]));
}

#[test]
fn stale_socket_is_replaced_not_left_blocking_a_fresh_bind() {
    assert!(matches!(
        bind_socket(TrialConnect::Refused),
        BindStep::RemoveAndBind
    ));
    assert!(matches!(
        bind_socket(TrialConnect::NotFound),
        BindStep::RemoveAndBind
    ));
}

#[test]
fn a_live_socket_is_never_stolen() {
    assert!(matches!(
        bind_socket(TrialConnect::Connected),
        BindStep::InUse
    ));
    assert!(matches!(
        bind_socket(TrialConnect::OtherError),
        BindStep::Fail
    ));
}

#[test]
fn an_unreadable_configuration_leaves_the_socket_to_root() {
    assert_eq!(
        configured_socket(None),
        (DEFAULT_SOCKET_PATH.to_string(), vec![], vec![])
    );
    assert_eq!(
        configured_socket(Some(SocketConfig {
            socket_path: "/tmp/s".into(),
            socket_allow_uids: vec![1],
            socket_allow_gids: vec![2],
        })),
        ("/tmp/s".to_string(), vec![1], vec![2])
    );
}

/// Reads all that a client sends as the service does, and the lines that it hears.
fn heard(sent: &[u8]) -> Vec<String> {
    let mut reader = LineReader::new();
    let mut lines = Vec::new();
    let mut rest = sent;
    while let Some(room) = reader.remaining() {
        let end = match rest.iter().take(room).position(|byte| *byte == b'\n') {
            Some(i) => i + 1,
            None => room.min(rest.len()),
        };
        let (chunk, later) = rest.split_at(end);
        rest = later;
        match reader.take(&chunk.to_vec(), true) {
            LineStep::Disconnect => break,
            LineStep::Skip => {}
            LineStep::Line(line) => lines.push(line),
        }
    }
    lines
}

#[test]
fn each_line_that_a_client_sends_is_heard_once_and_in_order() {
    assert_eq!(heard(b" a\n\n\xff\nb\r\na\ncut off"), ["a", "b", "a"]);
    assert!(heard(b"").is_empty());
    let mut long = b"first\n".to_vec();
    long.extend(vec![b'x'; MAX_UI_LINE_BYTES]);
    long.extend(b"\nnever heard\n");
    assert_eq!(heard(&long), ["first"]);
    let mut longest = vec![b'x'; MAX_UI_LINE_BYTES - 1];
    longest.extend(b"\nheard\n");
    assert_eq!(heard(&longest).len(), 2);
}

#[test]
fn an_interrupted_read_loses_nothing() {
    let mut reader = LineReader::new();
    reader.hold(&b"{\"a\"".to_vec());
    assert_eq!(reader.remaining(), Some(MAX_UI_LINE_BYTES - 4));
    reader.hold(&vec![]);
    match reader.take(&b":1}\n".to_vec(), true) {
        LineStep::Line(line) => assert_eq!(line, "{\"a\":1}"),
        _ => panic!("expected a line"),
    }
    reader.hold(&vec![b'x'; MAX_UI_LINE_BYTES]);
    assert_eq!(reader.remaining(), None);
}

#[test]
fn a_line_is_taken_once_it_is_whole() {
    let mut reader = LineReader::new();
    assert_eq!(reader.remaining(), Some(MAX_UI_LINE_BYTES));
    match reader.take(&b"  {\"type\":1} \r\n".to_vec(), true) {
        LineStep::Line(line) => assert_eq!(line, "{\"type\":1}"),
        _ => panic!("expected a line"),
    }
    assert!(matches!(
        reader.take(&b" \n".to_vec(), true),
        LineStep::Skip
    ));
    assert!(matches!(
        reader.take(&b"x\n".to_vec(), false),
        LineStep::Disconnect
    ));
    let mut cut = LineReader::new();
    assert!(matches!(cut.take(&vec![], true), LineStep::Disconnect));
    let mut bad = LineReader::new();
    assert!(matches!(
        bad.take(&vec![0xff, b'\n'], true),
        LineStep::Skip
    ));
}

#[test]
fn a_line_has_its_newline_and_a_bound() {
    assert_eq!(service_line(&b"{}".to_vec()), Some(b"{}\n".to_vec()));
    let mut line = CappedJsonLine::new(4);
    assert!(line.write(b"abc"));
    assert!(!line.write(b"de"));
    assert!(line.overflowed);
    assert_eq!(line.bytes, b"abc");
    assert!(line.write(b"d"));
}

#[test]
fn a_writer_stops_with_its_session() {
    assert!(matches!(
        writer_step(WriterEvent::Session(false), true),
        WriterStep::End
    ));
    assert!(matches!(
        writer_step(WriterEvent::Status(Some(vec![7])), true),
        WriterStep::Write(bytes) if bytes == [7]
    ));
    assert!(matches!(
        writer_step(WriterEvent::Answer(Some(vec![7])), false),
        WriterStep::End
    ));
    assert!(matches!(
        writer_step(WriterEvent::Lagged, true),
        WriterStep::Wait
    ));
    assert!(matches!(
        writer_step(WriterEvent::Closed, true),
        WriterStep::End
    ));
}

#[test]
fn an_answer_carries_the_number_of_its_request() {
    let done = result_envelope(Some(42), Ok("Action rejected".into())).expect("an answer");
    assert_eq!((done.request_id, done.ok), (42, true));
    assert_eq!(done.message, "Action rejected");
    let failed = result_envelope(Some(1), Err("no".into())).expect("an answer");
    assert!(!failed.ok);
    assert!(result_envelope(None, Ok(String::new())).is_none());
}
