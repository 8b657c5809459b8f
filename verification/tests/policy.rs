use eir_svc::metric::Metric;
use eir_svc::models::FixAction;
use eir_svc::policy::{
    action_type_name, is_network_path, is_within, normalize_path_lexical, BlocklistConfig,
    Confidence, ExecutionConfig, ExecutionPolicy, Verdict, WhitelistConfig,
};

fn metric(x: f32) -> Metric {
    Metric { bits: x.to_bits() }
}

fn confidence(x: f32) -> Confidence {
    Confidence {
        value: metric(x),
        percent: format!("{:.0}", x * 100.0),
    }
}

fn execution(threshold: f32) -> ExecutionConfig {
    ExecutionConfig {
        confidence_threshold: confidence(threshold),
        max_retries_per_issue: 3,
        rate_limit_mins: 30,
        auto_approve_on_success_rate: metric(0.95),
    }
}

/// A blocklisted action must be blocked even at max confidence and even if it also
/// appears on the whitelist: there is no path to execute it.
#[test]
fn blocklisted_action_is_always_blocked() {
    let pol = ExecutionPolicy {
        execution: execution(0.85),
        whitelist: WhitelistConfig {
            actions: vec!["software_uninstall".into()],
        },
        blocklist: BlocklistConfig {
            services: vec![],
            paths: vec![],
            actions: vec!["software_uninstall".into()],
            tasks: vec![],
        },
    };
    let action = FixAction::SoftwareUninstall {
        package_name: "NordVPN".into(),
    };
    assert!(matches!(
        pol.evaluate(&action, &confidence(0.99)),
        Verdict::Block(_)
    ));
}

fn policy_with(whitelist: &[&str]) -> ExecutionPolicy {
    ExecutionPolicy {
        execution: execution(0.80),
        whitelist: WhitelistConfig {
            actions: whitelist.iter().map(|s| s.to_string()).collect(),
        },
        blocklist: BlocklistConfig {
            services: vec![],
            paths: vec![],
            actions: vec![],
            tasks: vec![],
        },
    }
}

#[test]
fn security_actions_follow_the_whitelist() {
    let pol = policy_with(&["firewall_enable", "defender_signature_update"]);

    let fw = FixAction::FirewallEnable {
        profile: "all".into(),
    };
    assert!(matches!(
        pol.evaluate(&fw, &confidence(0.90)),
        Verdict::AutoApprove
    ));
    assert!(matches!(
        pol.evaluate(&fw, &confidence(0.50)),
        Verdict::Block(_)
    ));
    assert!(matches!(
        pol.evaluate(&FixAction::DefenderRealtimeEnable, &confidence(0.99)),
        Verdict::RequireApproval(_)
    ));
}

#[test]
fn system_file_repairs_always_require_approval() {
    let pol = policy_with(&["service_restart", "firewall_enable"]);
    assert!(matches!(
        pol.evaluate(&FixAction::SfcScan, &confidence(0.99)),
        Verdict::RequireApproval(_)
    ));
    assert!(matches!(
        pol.evaluate(&FixAction::DismRestoreHealth, &confidence(0.99)),
        Verdict::RequireApproval(_)
    ));
}

fn policy_blocking_path(path: &str) -> ExecutionPolicy {
    ExecutionPolicy {
        execution: execution(0.80),
        whitelist: WhitelistConfig {
            actions: vec!["file_delete".into()],
        },
        blocklist: BlocklistConfig {
            services: vec![],
            paths: vec![path.into()],
            actions: vec![],
            tasks: vec![],
        },
    }
}

#[test]
fn path_blocklist_resists_separator_and_traversal_bypasses() {
    let pol = policy_blocking_path("C:\\Windows");
    let blocked = |p: &str| {
        matches!(
            pol.evaluate(&FixAction::FileDelete { path: p.into() }, &confidence(0.99)),
            Verdict::Block(_)
        )
    };
    assert!(blocked("C:\\Windows\\System32\\x.dll"));
    assert!(blocked("c:\\windows\\system32\\x.dll"));
    assert!(blocked("C:/Windows/System32/x.dll"));
    assert!(blocked("\\\\?\\C:\\Windows\\System32\\x.dll"));
    assert!(blocked("C:\\Windows\\..\\Windows\\System32\\x.dll"));
    assert!(blocked("C:\\Windows\\..\\..\\Windows\\System32\\x.dll"));
    assert!(!blocked("C:\\WindowsApps\\ok.txt"));
}

#[test]
fn unc_paths_are_blocked_for_filesystem_actions() {
    let pol = policy_with(&["log_cleanup", "file_delete"]);
    for p in [
        r"\\attacker\share\logs",
        "//attacker/share/logs",
        r"\\?\UNC\attacker\share\logs",
    ] {
        assert!(
            matches!(
                pol.evaluate(
                    &FixAction::LogCleanup {
                        path: p.into(),
                        days_old: 7
                    },
                    &confidence(0.99)
                ),
                Verdict::Block(_)
            ),
            "LogCleanup UNC not blocked: {p}"
        );
        assert!(
            matches!(
                pol.evaluate(&FixAction::FileDelete { path: p.into() }, &confidence(0.99)),
                Verdict::Block(_)
            ),
            "FileDelete UNC not blocked: {p}"
        );
    }
    assert!(matches!(
        pol.evaluate(
            &FixAction::LogCleanup {
                path: r"C:\Logs\App".into(),
                days_old: 7
            },
            &confidence(0.99)
        ),
        Verdict::AutoApprove
    ));
    assert!(is_network_path(r"\\a\b"));
    assert!(is_network_path("//a/b"));
    assert!(!is_network_path(r"C:\Logs\App"));
    assert!(!is_network_path(r"D:\x"));
}

#[test]
fn blocklisted_scheduled_task_is_never_auto_executed() {
    let pol = ExecutionPolicy {
        execution: execution(0.80),
        whitelist: WhitelistConfig {
            actions: vec!["task_disable".into(), "task_enable".into()],
        },
        blocklist: BlocklistConfig {
            services: vec![],
            paths: vec![],
            actions: vec![],
            tasks: vec!["\\Microsoft\\Windows\\Windows Defender".into()],
        },
    };
    let blocked = |name: &str| {
        matches!(
            pol.evaluate(
                &FixAction::TaskDisable {
                    task_name: name.into()
                },
                &confidence(0.99)
            ),
            Verdict::Block(_)
        )
    };
    assert!(blocked(
        "\\Microsoft\\Windows\\Windows Defender\\Windows Defender Scheduled Scan"
    ));
    assert!(blocked(
        "/microsoft/windows/windows defender/Windows Defender Cache Maintenance"
    ));
    assert!(matches!(
        pol.evaluate(
            &FixAction::TaskEnable {
                task_name: "\\Microsoft\\Windows\\Windows Defender\\Scan".into()
            },
            &confidence(0.99)
        ),
        Verdict::Block(_)
    ));
    assert!(matches!(
        pol.evaluate(
            &FixAction::TaskDisable {
                task_name: "\\VendorApp\\Updater".into()
            },
            &confidence(0.99)
        ),
        Verdict::AutoApprove
    ));
}

#[test]
fn registry_hive_alias_is_blocked_like_the_drive_form() {
    let pol = policy_blocking_path("HKLM:\\SYSTEM\\CurrentControlSet\\Services\\Critical");
    let action = FixAction::RegistryReset {
        key_path: "HKEY_LOCAL_MACHINE\\SYSTEM\\CurrentControlSet\\Services\\Critical".into(),
        value_name: "Start".into(),
        value_data: "4".into(),
    };
    assert!(matches!(
        pol.evaluate(&action, &confidence(0.99)),
        Verdict::Block(_)
    ));
}

fn block_text(v: Verdict) -> String {
    match v {
        Verdict::Block(reason) => reason,
        Verdict::RequireApproval(reason) => panic!("needs approval: {reason}"),
        Verdict::AutoApprove => panic!("runs"),
    }
}

#[test]
fn every_verdict_says_why() {
    let mut pol = policy_with(&["service_restart"]);
    let restart = |name: &str| FixAction::ServiceRestart {
        service_name: name.into(),
    };
    assert_eq!(
        block_text(pol.evaluate(&restart("Spooler"), &confidence(0.5))),
        "Confidence 50% below threshold 80%"
    );
    match pol.evaluate(&FixAction::SfcScan, &confidence(0.9)) {
        Verdict::RequireApproval(reason) => assert_eq!(
            reason,
            "Action 'sfc_scan' needs approval (not auto-executed)"
        ),
        _ => panic!("expected approval"),
    }
    pol.blocklist.services.push("RPCSS".into());
    assert_eq!(
        block_text(pol.evaluate(&restart("rpcss"), &confidence(1.0))),
        "Service 'rpcss' is on the blocklist"
    );
    assert!(pol.service_blocked("RpcSs"));
    assert!(!pol.service_blocked("Spooler"));
    pol.blocklist.actions.push("service_restart".into());
    assert_eq!(
        block_text(pol.evaluate(&restart("Spooler"), &confidence(1.0))),
        "Action 'service_restart' is disabled by policy"
    );
    pol.blocklist.paths.push(r"C:\Windows".into());
    assert_eq!(
        block_text(pol.evaluate(
            &FixAction::FileDelete {
                path: r"C:\Windows\x".into()
            },
            &confidence(1.0)
        )),
        r"Path 'C:\Windows\x' is on the blocklist"
    );
    assert_eq!(
        block_text(pol.evaluate(
            &FixAction::FileDelete {
                path: r"\\host\x".into()
            },
            &confidence(1.0)
        )),
        r"Refusing '\\host\x' — network/UNC paths are not allowed"
    );
    pol.blocklist.tasks.push(r"\Vendor".into());
    assert_eq!(
        block_text(pol.evaluate(
            &FixAction::TaskEnable {
                task_name: r"\Vendor\T".into()
            },
            &confidence(1.0)
        )),
        r"Scheduled task '\Vendor\T' is on the blocklist"
    );
    pol.blocklist.paths.push(r"HKLM:\SAM".into());
    assert_eq!(
        block_text(pol.evaluate(
            &FixAction::RegistryReset {
                key_path: r"hkey_local_machine\sam\x".into(),
                value_name: String::new(),
                value_data: String::new(),
            },
            &confidence(1.0)
        )),
        r"Registry path 'hkey_local_machine\sam\x' is on the blocklist"
    );
}

#[test]
fn a_confidence_that_is_no_number_is_not_below_the_threshold() {
    let pol = policy_with(&["sfc_scan"]);
    assert!(matches!(
        pol.evaluate(&FixAction::SfcScan, &confidence(f32::NAN)),
        Verdict::AutoApprove
    ));
    assert!(matches!(
        pol.evaluate(&FixAction::SfcScan, &confidence(-1.0)),
        Verdict::Block(_)
    ));
    assert!(matches!(
        pol.evaluate(&FixAction::SfcScan, &confidence(0.80)),
        Verdict::AutoApprove
    ));
}

#[test]
fn paths_come_to_components() {
    assert_eq!(
        normalize_path_lexical(r"  \\?\C:\A\.\B\..\..\..\c "),
        ["c:", "c"]
    );
    assert_eq!(
        normalize_path_lexical(r"HKEY_CURRENT_USER\Software"),
        ["hkcu:", "software"]
    );
    assert!(normalize_path_lexical(" / ").is_empty());
    assert_eq!(normalize_path_lexical("//?/C:/x"), ["?", "c:", "x"]);
    assert_eq!(normalize_path_lexical(r"\\?\C:/x"), ["c:", "x"]);
    assert_eq!(
        normalize_path_lexical(" HKEY_LOCAL_MACHINE/SAM "),
        normalize_path_lexical(r"hklm:\sam")
    );
    assert_eq!(normalize_path_lexical("ÄÖ/Straße"), ["äö", "straße"]);
    assert!(is_within(r"C:\a\b", "c:/A"));
    assert!(is_within(r"C:\a", r"C:\a"));
    assert!(!is_within(r"C:\ab", r"C:\a"));
    assert!(!is_within(r"C:\a", ""));
    assert_eq!(
        action_type_name(&FixAction::BcdEdit {
            element: String::new(),
            value: String::new()
        }),
        "bcd_edit"
    );
}
