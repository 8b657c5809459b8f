use eir_svc::commands::{failed_update_for_retry, refresh_status};
use eir_svc::metric::Metric;
use eir_svc::models::{SecurityPosture, SystemState};
use eir_svc::proto::{ScanView, ServiceIdentity, StartupToggle, UpdaterAppRow};
use eir_svc::signals::wmi::{current, rescan_failed_services};
use eir_svc::state::{
    add_capped, apply_live_metrics, apply_set_gaming, build_status, clear_stale_startup_cache,
    discover_watch_dirs_for_stable_user, insert_in_flight, is_gaming_at, is_occupied,
    optional_sids_match, push_execution, push_problem, remove_in_flight, resting_status, settle,
    startup_owner_matches, sub_capped, updater_due, watch_roots_need_clearing,
    watch_session_found, watch_session_step, SvcState, PREVIEW_CHARS, RECENT_CAP,
};

fn metric(x: f32) -> Metric {
    Metric { bits: x.to_bits() }
}

fn machine(failed: &[&str]) -> SystemState {
    SystemState {
        collected_at: 0,
        collector_errors: vec![],
        uptime_secs: 0,
        cpu_usage_percent: metric(0.0),
        memory_usage_percent: metric(0.0),
        memory_available_gb: metric(0.0),
        disk_usage_percent: metric(0.0),
        disk_free_gb: metric(0.0),
        running_services_count: 0,
        failed_services: failed.iter().map(|s| s.to_string()).collect(),
        network_interfaces: vec![],
        network_errors: 0,
        disk_health: String::new(),
        windows_update_status: String::new(),
        security: SecurityPosture::default(),
    }
}

fn identity() -> ServiceIdentity {
    ServiceIdentity {
        protocol_version: 3,
        capabilities: vec!["command_results".to_string()],
        version: "1.2.3".to_string(),
    }
}

/// The order is Paused, Gaming, PendingApproval, Executing, Active.
#[test]
fn resting_status_precedence() {
    let now = 1_000;
    let mut st = SvcState::default();
    assert_eq!(resting_status(&st, now), "Active");

    assert!(insert_in_flight(&mut st, "ServiceRestart"));
    assert_eq!(resting_status(&st, now), "Executing");

    st.gaming_until = i64::MAX;
    assert_eq!(resting_status(&st, now), "Gaming");

    st.paused = true;
    assert_eq!(resting_status(&st, now), "Paused");
    settle(&mut st, now);
    assert_eq!(st.status, "Paused");
}

#[test]
fn startup_cache_is_cleared_when_the_active_sid_changes() {
    let owner = "S-1-5-21-1-2-3-1001";
    let mut st = SvcState {
        startup: Some(ScanView {
            running: false,
            scanned_at: 0,
            error: None,
            entries: vec![],
        }),
        startup_owner_sid: Some(owner.to_string()),
        startup_scan_running: true,
        ..SvcState::default()
    };
    st.startup_targets.push((
        "task".to_string(),
        StartupToggle {
            name: "Updater".to_string(),
            location: "scheduled_task".to_string(),
            hive: owner.to_string(),
            task_path: r"\Vendor\Updater".to_string(),
        },
    ));

    assert!(!clear_stale_startup_cache(&mut st, Some(owner)));
    assert!(st.startup.is_some());
    assert_eq!(st.startup_targets.len(), 1);

    assert!(clear_stale_startup_cache(
        &mut st,
        Some("S-1-5-21-9-8-7-1002")
    ));
    assert!(st.startup.is_none());
    assert!(st.startup_owner_sid.is_none());
    assert!(!st.startup_scan_running);
    assert!(st.startup_targets.is_empty());
}

#[test]
fn watcher_roots_fail_closed_before_user_switch_discovery() {
    let old = "S-1-5-21-1-2-3-1001";
    let new = "S-1-5-21-9-8-7-1002";
    assert!(watch_roots_need_clearing(Some(old), Some(new)));
    assert!(watch_roots_need_clearing(Some(old), None));
    assert!(!watch_roots_need_clearing(Some(old), Some(old)));
    assert!(!watch_roots_need_clearing(None, Some(new)));
}

#[test]
fn gaming_is_a_lease() {
    let mut st = SvcState::default();
    assert!(!is_gaming_at(&st, 1000));
    st.gaming_until = 1090;
    assert!(is_gaming_at(&st, 1000));
    assert!(is_gaming_at(&st, 1089));
    assert!(!is_gaming_at(&st, 1090));
    assert!(!is_gaming_at(&st, 2000));

    st.gaming_manual = true;
    assert!(is_gaming_at(&st, 5000));
    st.gaming_manual = false;
    st.gaming_until = 0;
    assert!(!is_gaming_at(&st, 5000));
}

#[test]
fn manual_off_withdraws_the_auto_lease() {
    let mut st = SvcState::default();
    let now = 1_000i64;
    apply_set_gaming(&mut st, true, false, now, 90);
    assert!(is_gaming_at(&st, now));
    apply_set_gaming(&mut st, false, true, now, 90);
    assert!(!is_gaming_at(&st, now));
    assert_eq!(st.gaming_until, 0);

    apply_set_gaming(&mut st, true, true, now, 90);
    apply_set_gaming(&mut st, false, false, now, 90);
    assert!(is_gaming_at(&st, now));
    assert!(st.gaming_manual);
}

#[test]
fn updater_due_suppressed_during_gaming() {
    let mut st = SvcState::default();
    let now = 100_000i64;
    assert!(updater_due(true, 3600, 0, &st, now));
    st.gaming_until = now + 90;
    assert!(!updater_due(true, 3600, 0, &st, now));
    assert!(updater_due(true, 3600, 0, &st, now + 200));
    st.gaming_until = 0;
    st.paused = true;
    assert!(!updater_due(true, 3600, 0, &st, now));
    st.paused = false;
    assert!(!updater_due(true, 3600, now, &st, now));
}

#[test]
fn updater_due_handles_corrupt_extreme_timestamps() {
    let st = SvcState::default();
    assert!(updater_due(true, 3600, i64::MIN, &st, 1));
    assert!(!updater_due(true, 3600, i64::MAX, &st, 1));
    assert_eq!(sub_capped(1, i64::MIN), i64::MAX);
    assert_eq!(add_capped(i64::MAX, 1), i64::MAX);
    assert_eq!(sub_capped(7, 9), -2);
}

#[test]
fn targeted_retry_accepts_only_the_named_failed_row() {
    let row = |id: &str, state: &str| UpdaterAppRow {
        id: id.into(),
        name: String::new(),
        state: state.into(),
        ignored: false,
        note: String::new(),
        rest: String::new(),
    };
    let apps = vec![row("failed tool", "failed"), row("current tool", "current")];
    assert!(failed_update_for_retry(&apps, "FAILED TOOL", true).is_some());
    assert!(failed_update_for_retry(&apps, "current tool", true).is_none());
    assert!(failed_update_for_retry(&apps, "unknown", true).is_none());
    assert!(failed_update_for_retry(&apps, "bad\nid", false).is_none());
}

#[test]
fn manual_refresh_survives_a_following_tick() {
    let mut cache = Some(machine(&["Spooler"]));
    let mut st = SvcState {
        failed_services: vec!["Spooler".into()],
        ..SvcState::default()
    };

    let fresh = rescan_failed_services(&mut cache, Some((1, vec![])));
    let _ = refresh_status(&mut st, fresh, 1_000);

    apply_live_metrics(&mut st, &current(cache));

    assert!(
        st.failed_services.is_empty(),
        "a manual refresh must not be reverted by the next tick"
    );
}

#[test]
fn tick_applies_the_cache_verbatim() {
    let sys = SystemState {
        collected_at: 123,
        collector_errors: vec!["disk".into()],
        cpu_usage_percent: metric(12.5),
        failed_services: vec!["W32Time".into()],
        ..machine(&[])
    };
    let mut st = SvcState::default();
    apply_live_metrics(&mut st, &sys);
    assert_eq!(st.cpu, metric(12.5));
    assert_eq!(st.failed_services, vec!["W32Time".to_string()]);
    assert_eq!(st.signals_at, 123);
    assert_eq!(st.signal_errors, vec!["disk".to_string()]);
}

#[test]
fn build_status_projects_metrics_and_failed_services() {
    let st = SvcState {
        cpu: metric(42.0),
        memory: metric(71.0),
        disk: metric(55.0),
        failed_services: vec!["Spooler".into(), "W32Time".into()],
        signals_at: 123,
        signal_errors: vec!["memory".into()],
        ..SvcState::default()
    };
    let payload = build_status(&st, &identity(), None, 1_000);
    assert_eq!(payload.cpu, metric(42.0));
    assert_eq!(payload.memory, metric(71.0));
    assert_eq!(payload.disk, metric(55.0));
    assert_eq!(
        payload.failed_services,
        vec!["Spooler".to_string(), "W32Time".to_string()]
    );
    assert_eq!(payload.signals_at, 123);
    assert_eq!(payload.signal_errors, vec!["memory".to_string()]);
    assert_eq!(payload.svc_version.as_deref(), Some("1.2.3"));
    assert_eq!(payload.protocol_version, 3);
    assert_eq!(payload.capabilities, ["command_results"]);
}

#[test]
fn startup_entries_are_shown_to_their_user_alone() {
    let st = SvcState {
        startup: Some(ScanView {
            running: false,
            scanned_at: 7,
            error: None,
            entries: vec!["x".into()],
        }),
        startup_owner_sid: Some("S-1-5-1".into()),
        ..SvcState::default()
    };
    assert!(build_status(&st, &identity(), Some("s-1-5-1"), 0)
        .startup
        .is_some());
    assert!(build_status(&st, &identity(), Some("S-1-5-2"), 0)
        .startup
        .is_none());
    assert!(build_status(&st, &identity(), None, 0).startup.is_none());
    assert!(startup_owner_matches(Some("S-1"), Some("s-1")));
    assert!(!startup_owner_matches(None, None));
    assert!(optional_sids_match(None, None));
    assert!(!optional_sids_match(Some("S-1"), None));
}

#[test]
fn a_switched_user_is_watched_anew() {
    let mut owner = Some("S-1".to_string());
    let same = watch_session_step(&mut owner, Some("s-1".into()));
    assert!(!same.clear && same.discover.is_none());
    let switched = watch_session_step(&mut owner, Some("S-2".into()));
    assert!(switched.clear);
    assert_eq!(switched.discover.as_deref(), Some("S-2"));
    assert_eq!(owner, None);
    assert_eq!(
        watch_session_found(&mut owner, "S-2", Some(("S-3".into(), vec![]))),
        None
    );
    assert_eq!(
        watch_session_found(&mut owner, "S-2", Some(("S-2".into(), vec!["d".into()]))),
        Some(vec!["d".to_string()])
    );
    assert_eq!(owner.as_deref(), Some("S-2"));
    assert_eq!(
        discover_watch_dirs_for_stable_user(Some("S".into()), Some(vec![]), Some("s".into())),
        Some(("S".to_string(), vec![]))
    );
    assert_eq!(
        discover_watch_dirs_for_stable_user(Some("S".into()), Some(vec![]), None),
        None
    );
}

#[test]
fn an_action_is_in_flight_once() {
    let mut st = SvcState::default();
    assert!(insert_in_flight(&mut st, "k"));
    assert!(!insert_in_flight(&mut st, "k"));
    assert!(is_occupied(&st, "k"));
    remove_in_flight(&mut st, "k");
    assert!(st.in_flight.is_empty());
    assert!(!is_occupied(&st, "k"));
}

#[test]
fn the_lists_of_recent_things_are_bounded() {
    let mut st = SvcState::default();
    for n in 0..RECENT_CAP as i64 + 5 {
        push_problem(&mut st, "d", metric(0.5), "a", true, false, None, n);
        push_execution(&mut st, "a", true, &"o".repeat(500), Some(n), n);
    }
    assert_eq!(st.recent_problems.len(), RECENT_CAP);
    assert_eq!(st.recent_problems[0].at, 5);
    assert_eq!(st.recent_executions.len(), RECENT_CAP);
    let last = &st.recent_executions[RECENT_CAP - 1];
    assert_eq!(last.undo_id, Some(24));
    assert_eq!(last.preview, "o".repeat(PREVIEW_CHARS));
}
