use eir_svc::json::read_json;
use eir_svc::metric::Metric;
use eir_svc::models::{NetworkInterface, SecurityPosture, SystemState};
use eir_svc::signals::wmi::{
    adapter_interface, current, disk_bytes, effective_firewall, fault_changed, fault_key,
    get_firewall, get_network_interfaces, get_services, i8_array_to_string, note_snapshot,
    parse_cpu_line, parse_defender_status, parse_ip_addr_json, parse_meminfo,
    parse_net_dev_errors, probe_step, rescan_failed_services, retain_or_report, snapshot_state,
    summarize_services, tick_deltas, update_status, ProbeState, ProbeStep, Probes,
};

fn metric(x: f32) -> Metric {
    Metric { bits: x.to_bits() }
}

fn state(failed: &[&str]) -> SystemState {
    SystemState {
        collected_at: 0,
        collector_errors: vec![],
        uptime_secs: 0,
        cpu_usage_percent: metric(0.0),
        memory_usage_percent: metric(0.0),
        memory_available_gb: metric(0.0),
        disk_usage_percent: metric(0.0),
        disk_free_gb: metric(0.0),
        running_services_count: 0,
        failed_services: failed.iter().map(|s| s.to_string()).collect(),
        network_interfaces: vec![],
        network_errors: 0,
        disk_health: String::new(),
        windows_update_status: String::new(),
        security: SecurityPosture::default(),
    }
}

#[test]
fn gpo_enforced_on_firewall_is_never_a_fault() {
    assert_eq!(effective_firewall(Some(true), Some(false)), Some(true));
}

#[test]
fn gpo_enforced_off_firewall_is_hands_off() {
    assert_eq!(effective_firewall(Some(false), Some(true)), None);
}

#[test]
fn locally_managed_firewall_uses_the_local_value() {
    assert_eq!(effective_firewall(None, Some(false)), Some(false));
    assert_eq!(effective_firewall(None, Some(true)), Some(true));
    assert_eq!(effective_firewall(None, None), None);
    let all = get_firewall([Some(1), None, Some(0)], [Some(0), Some(0), Some(1)]);
    assert_eq!(all.domain, Some(true));
    assert_eq!(all.private, Some(false));
    assert_eq!(all.public, None);
}

#[test]
fn defender_status_parses_a_healthy_line() {
    let s = parse_defender_status("True|True|0\r\n");
    assert_eq!(s.realtime_enabled, Some(true));
    assert_eq!(s.antivirus_enabled, Some(true));
    assert_eq!(s.signature_age_days, Some(0));
}

#[test]
fn defender_status_flags_disabled_realtime_and_stale_signatures() {
    let s = parse_defender_status("False|True|14");
    assert_eq!(s.realtime_enabled, Some(false));
    assert_eq!(s.signature_age_days, Some(14));
}

#[test]
fn defender_status_empty_output_is_all_unknown() {
    let s = parse_defender_status("");
    assert_eq!(s.realtime_enabled, None);
    assert_eq!(s.antivirus_enabled, None);
    assert_eq!(s.signature_age_days, None);
}

#[test]
fn failed_probe_keeps_last_good_value_and_reports_the_source() {
    let mut errors = Vec::new();
    assert_eq!(retain_or_report(None, &42_u32, "network", &mut errors), 42);
    assert_eq!(errors, ["network"]);
}

#[test]
fn fault_change_wakes_on_appear_clear_and_change_but_not_on_steady_state() {
    assert!(fault_changed("", "S|Spooler"), "fault appearing must wake");
    assert!(fault_changed("S|Spooler", ""), "fault clearing must wake");
    assert!(fault_changed("S|Spooler", "S|W32Time"));
    assert!(!fault_changed("S|Spooler", "S|Spooler"));
    assert!(!fault_changed("", ""));
}

#[test]
fn rescan_overwrites_the_cached_failed_services() {
    let mut shared = Some(state(&["StaleSentinelSvc"]));
    let returned = rescan_failed_services(&mut shared, Some((3, vec!["Fresh".to_string()])));
    let cached = shared.expect("a snapshot").failed_services;
    assert_eq!(cached, returned, "cache must equal the rescan result");
    assert!(
        !cached.iter().any(|s| s == "StaleSentinelSvc"),
        "stale value must be overwritten, not retained"
    );
}

#[test]
fn cpu_line_splits_idle_and_total_ticks() {
    let sample = "cpu  1000 200 300 5000 100 0 0 0 0 0\ncpu0 500 100 150 2500 50 0 0 0 0 0\n";
    let (idle, total) = parse_cpu_line(sample).expect("cpu line parsed");
    assert_eq!(idle, 5000 + 100);
    assert_eq!(total, 1000 + 200 + 300 + 5000 + 100);
    assert_eq!(parse_cpu_line("garbage"), None);
    assert_eq!(tick_deltas((10, 100), (15, 120)), Some((5, 20)));
    assert_eq!(tick_deltas((10, 100), (10, 100)), None);
}

#[test]
fn meminfo_computes_usage_and_available_gb() {
    let sample =
        "MemTotal:       16000000 kB\nMemFree:         2000000 kB\nMemAvailable:    8000000 kB\n";
    let (all, used, available) = parse_meminfo(sample).expect("meminfo parsed");
    let usage = used as f32 / all as f32 * 100.0;
    let available_gb = available as f32 / 1_048_576.0;
    assert!((usage - 50.0).abs() < 0.1, "usage={usage}");
    assert!(
        (available_gb - 7.629).abs() < 0.01,
        "available_gb={available_gb}"
    );
    assert_eq!(parse_meminfo("MemTotal: 0 kB"), None);
}

#[test]
fn ip_addr_json_maps_operstate_and_first_inet_address() {
    let sample = r#"[
        {
            "ifname": "eth0",
            "operstate": "UP",
            "addr_info": [
                {"family": "inet6", "local": "fe80::1"},
                {"family": "inet", "local": "10.0.0.5"}
            ]
        },
        {
            "ifname": "lo",
            "operstate": "UNKNOWN",
            "addr_info": [{"family": "inet", "local": "127.0.0.1"}]
        },
        {
            "ifname": "eth1",
            "operstate": "DOWN",
            "addr_info": []
        }
    ]"#;
    let interfaces = parse_ip_addr_json(&read_json(sample.as_bytes()).expect("json"));
    assert_eq!(interfaces.len(), 3);
    assert_eq!(interfaces[0].name, "eth0");
    assert_eq!(interfaces[0].status, "up");
    assert_eq!(interfaces[0].ipv4.as_deref(), Some("10.0.0.5"));
    assert_eq!(interfaces[2].status, "down");
    assert_eq!(interfaces[2].ipv4, None);
}

#[test]
fn net_dev_sums_errors_across_non_loopback_interfaces() {
    let sample = "Inter-|   Receive                                                |  Transmit\n \
                   face |bytes    packets errs drop fifo frame compressed multicast|bytes    packets errs drop fifo colls carrier compressed\n\
                     lo:     100       1    9    0    0     0          0         0      100       1    9    0    0     0       0          0\n\
                   eth0:    2000      20    3    0    0     0          0         0     3000      30    5    0    0     0       0          0\n";
    assert_eq!(parse_net_dev_errors(sample), Some(8));
}

#[test]
fn a_missing_systemctl_or_fields_is_reported_not_silently_zeroed() {
    let sample = "Inter-|   Receive\n face |bytes\n  eth0: 1 2\n";
    assert_eq!(parse_net_dev_errors(sample), Some(0));
}

#[test]
fn loopback_with_unknown_operstate_but_carrier_is_up() {
    let json = read_json(
        br#"[{"ifname":"lo","flags":["LOOPBACK","UP","LOWER_UP"],"operstate":"UNKNOWN","addr_info":[{"family":"inet","local":"127.0.0.1"}]},
            {"ifname":"eth1","flags":["BROADCAST","MULTICAST"],"operstate":"DOWN","addr_info":[]},
            {"ifname":"tun0","flags":["POINTOPOINT","NOARP"],"operstate":"UNKNOWN","addr_info":[]}]"#,
    )
    .expect("json");
    let parsed = parse_ip_addr_json(&json);
    assert_eq!(parsed[0].status, "up");
    assert_eq!(parsed[1].status, "down");
    assert_eq!(
        parsed[2].status, "down",
        "UNKNOWN without carrier stays down"
    );
    assert!(get_network_interfaces(&b"not json".to_vec()).is_none());
    assert_eq!(
        get_network_interfaces(&b"[]".to_vec()).map(|list| list.len()),
        Some(0)
    );
}

#[test]
fn a_snapshot_keeps_what_could_not_be_read_again() {
    let mut before = state(&["Old"]);
    before.network_errors = 9;
    before.cpu_usage_percent = metric(7.5);
    let probes = Probes {
        uptime_secs: 77,
        cpu_usage_percent: None,
        memory: Some((metric(50.0), metric(8.0))),
        disk: None,
        services: Some((4, vec!["New".to_string()])),
        network_interfaces: Some(vec![NetworkInterface {
            name: "lo".into(),
            status: "up".into(),
            ipv4: None,
        }]),
        network_errors: None,
    };
    let after = snapshot_state(before, probes, 1_234);
    assert_eq!(after.collected_at, 1_234);
    assert_eq!(after.uptime_secs, 77);
    assert_eq!(after.cpu_usage_percent, metric(7.5));
    assert_eq!(after.memory_usage_percent, metric(50.0));
    assert_eq!(after.memory_available_gb, metric(8.0));
    assert_eq!(after.failed_services, ["New"]);
    assert_eq!(after.running_services_count, 4);
    assert_eq!(after.network_errors, 9);
    assert_eq!(after.collector_errors.len(), 3);
    assert!(current(None).failed_services.is_empty());
}

#[test]
fn the_fault_key_ignores_the_order_of_faults() {
    let a = fault_key(&state(&["B", "A"]));
    assert_eq!(a, fault_key(&state(&["A", "B"])));
    assert_ne!(a, fault_key(&state(&["A"])));
    assert_eq!(fault_key(&state(&[])), "");
    let mut shared = None;
    let mut last = String::new();
    assert!(note_snapshot(&mut shared, &mut last, state(&["A"])));
    assert!(!note_snapshot(&mut shared, &mut last, state(&["A"])));
    assert!(note_snapshot(&mut shared, &mut last, state(&[])));
    assert_eq!(last, "");
    assert!(shared.is_some());
}

#[test]
fn services_and_devices_are_read_from_what_is_printed() {
    let (running, failed) = get_services(
        &b"a.service loaded active running A\nb.service loaded active running B\n".to_vec(),
        &b"c.service loaded failed failed C\n".to_vec(),
    );
    assert_eq!(running, 2);
    assert_eq!(failed, ["c.service"]);
    assert_eq!(
        summarize_services(vec![("x".into(), true), ("y".into(), false)]),
        (2, vec!["y".to_string()])
    );
    assert_eq!(i8_array_to_string(&b"eth0\0junk".to_vec()), "eth0");
    assert_eq!(
        adapter_interface("Ethernet".into(), "10.0.0.1".into()).status,
        "up"
    );
    assert_eq!(disk_bytes(100, 25, 4), Some((400, 300, 100)));
    assert_eq!(disk_bytes(0, 0, 4), None);
    assert_eq!(update_status(None), "unknown");
    assert_eq!(update_status(Some(vec![])), "unknown");
    let stored: Vec<u16> = "2026-01-01 10:00:00\0".encode_utf16().collect();
    assert_eq!(
        update_status(Some(stored)),
        "last_install: 2026-01-01 10:00:00"
    );
    assert_eq!(
        update_status(Some(vec![0xD800, 0])),
        "last_install: \u{fffd}"
    );
}

#[test]
fn a_probe_past_its_deadline_is_stopped() {
    assert_eq!(probe_step(ProbeState::Running, 9, 10), ProbeStep::Wait);
    assert_eq!(probe_step(ProbeState::Running, 10, 10), ProbeStep::Kill);
    assert_eq!(probe_step(ProbeState::Exited, 99, 10), ProbeStep::Read);
    assert_eq!(probe_step(ProbeState::Lost, 0, 10), ProbeStep::GiveUp);
}
