use eir_svc::service_install::{
    configured_path_matches, first_unsafe_component, handle_control, harden_install_tree,
    install_or_update, is_direct_service_child, local_system_account, ordinary_disk_path,
    path_starts_with, paths_equal, program_files_roots, restart_args, service_path_is_allowed,
    BinaryCheck, CheckEvent, CheckRefusal, CheckStep, InstallEvent, InstallRefusal, InstallStep,
    ServiceConfig, ServiceControl, ServiceState, StepFailure, DIRECTORY, REPARSE_POINT,
};

const EXE: &str = r"C:\Program Files\Eir\eir-svc.exe";

fn roots() -> Vec<String> {
    vec![r"C:\Program Files".to_string()]
}

#[test]
fn service_binary_must_be_a_plain_eir_executable_under_program_files() {
    let roots = roots();
    assert!(service_path_is_allowed(
        r"C:\Program Files\Eir\eir-svc.exe",
        &roots
    ));
    for unsafe_path in [
        r"C:\Users\Alice\Eir\eir-svc.exe",
        r"C:\Program Files Evil\Eir\eir-svc.exe",
        r"C:\Program Files\Eir\..\..\Users\Alice\eir-svc.exe",
        r"C:\Program Files\Writable\Nested\eir-svc.exe",
        r"C:\Program Files\Eir\renamed.exe",
        r"\\server\share\Eir\eir-svc.exe",
    ] {
        assert!(
            !service_path_is_allowed(unsafe_path, &roots),
            "{unsafe_path} must not be registered as LocalSystem"
        );
    }
}

#[test]
fn paths_compare_by_their_components() {
    assert!(paths_equal(r"C:\a\b", r"c:/A/b/"));
    assert!(!paths_equal(r"C:\a\b", r"C:\a"));
    assert!(is_direct_service_child(EXE, r"C:\Program Files"));
    assert!(!is_direct_service_child(
        r"C:\Program Files\eir-svc.exe",
        r"C:\Program Files"
    ));
    assert!(path_starts_with(EXE, r"c:/program files"));
    assert!(!path_starts_with(EXE, r"C:\Program"));
    assert!(ordinary_disk_path(EXE));
    assert!(!ordinary_disk_path(r"\\?\C:\x"));
    assert!(!ordinary_disk_path("x"));
    assert_eq!(
        program_files_roots(
            r"C:\Program Files".into(),
            vec![
                None,
                Some(r"c:\program files".into()),
                Some(r"C:\Program Files (x86)".into())
            ]
        ),
        [r"C:\Program Files", r"C:\Program Files (x86)"]
    );
}

#[test]
fn accounts_and_registered_paths_are_compared_without_case() {
    assert!(local_system_account(Some("localsystem")));
    assert!(local_system_account(Some(r".\LocalSystem")));
    assert!(local_system_account(Some(r"NT AUTHORITY\System")));
    assert!(!local_system_account(Some("Alice")));
    assert!(!local_system_account(None));
    assert!(configured_path_matches(
        "\"c:\\program files\\eir\\EIR-SVC.exe\"",
        EXE
    ));
    assert!(configured_path_matches(EXE, EXE));
    assert!(!configured_path_matches("\"", EXE));
}

fn walked(upto: usize, canonical: &str, again: &str) -> BinaryCheck {
    let mut check = BinaryCheck::begin(EXE, &roots());
    let events = [
        CheckEvent::Components(vec![Some(0x20), Some(DIRECTORY)]),
        CheckEvent::File(0x20, 1),
        CheckEvent::Canonical(canonical.into(), roots()),
        CheckEvent::Regular(true),
        CheckEvent::Hardened,
        CheckEvent::Components(vec![Some(0x20), Some(DIRECTORY)]),
        CheckEvent::File(0x20, 1),
        CheckEvent::Canonical(again.into(), vec![]),
    ];
    for event in events.into_iter().take(upto) {
        check.advance(event);
    }
    check
}

#[test]
fn a_binary_is_accepted_after_every_step() {
    let check = walked(8, EXE, EXE);
    assert_eq!(check.step, CheckStep::Accepted);
    assert_eq!(check.canonical.as_deref(), Some(EXE));
}

#[test]
fn every_refusal_of_a_binary_has_its_cause() {
    let step = |check: BinaryCheck| match check.step {
        CheckStep::Refused(why) => why,
        other => panic!("not refused: {other:?}"),
    };
    assert_eq!(
        step(BinaryCheck::begin("eir-svc.exe", &roots())),
        CheckRefusal::NotOnALocalDrive
    );
    assert_eq!(
        step(BinaryCheck::begin(r"C:\Temp\Eir\eir-svc.exe", &roots())),
        CheckRefusal::OutsideProgramFiles
    );
    let mut failed = walked(1, EXE, EXE);
    failed.advance(CheckEvent::Failed(StepFailure::Open));
    failed.advance(CheckEvent::File(0x20, 1));
    assert_eq!(step(failed), CheckRefusal::StepFailed(StepFailure::Open));
    let mut astray = walked(1, EXE, EXE);
    astray.advance(CheckEvent::Hardened);
    assert_eq!(
        step(astray),
        CheckRefusal::StepFailed(StepFailure::OutOfOrder)
    );
    assert_eq!(
        step(walked(3, r"C:\Users\eir-svc.exe", EXE)),
        CheckRefusal::ResolvesOutsideProgramFiles
    );
    let mut device = walked(3, EXE, EXE);
    device.advance(CheckEvent::Regular(false));
    assert_eq!(step(device), CheckRefusal::NotARegularFile);
    let changed = step(walked(8, EXE, r"C:\Program Files\Eir2\eir-svc.exe"));
    assert_eq!(changed, CheckRefusal::ChangedMeanwhile);
    assert_eq!(
        changed.message(EXE),
        "the service executable changed while its permissions were secured"
    );
}

#[test]
fn a_link_anywhere_refuses_the_binary() {
    let refused = |upto: usize, event: CheckEvent| {
        let mut check = walked(upto, EXE, EXE);
        check.advance(event);
        check.step
    };
    let failed = |failure: StepFailure| CheckStep::Refused(CheckRefusal::StepFailed(failure));
    for upto in [0, 5] {
        assert_eq!(
            refused(
                upto,
                CheckEvent::Components(vec![Some(0x20), Some(REPARSE_POINT | DIRECTORY), None])
            ),
            failed(StepFailure::ReparsePoint)
        );
        assert_eq!(
            refused(upto, CheckEvent::Components(vec![Some(0x20), None])),
            failed(StepFailure::Inspect)
        );
    }
    for (attributes, links) in [(0x20, 2), (0x20 | REPARSE_POINT, 1), (DIRECTORY, 1)] {
        for upto in [1, 6] {
            assert_eq!(
                refused(upto, CheckEvent::File(attributes, links)),
                failed(StepFailure::NotSingleLink)
            );
        }
    }
    assert_eq!(
        first_unsafe_component(&vec![Some(0), Some(REPARSE_POINT), None]),
        Some((1, StepFailure::ReparsePoint))
    );
    assert_eq!(first_unsafe_component(&vec![Some(0), Some(DIRECTORY)]), None);
}

#[test]
fn a_refusal_names_the_path_that_it_is_about() {
    assert_eq!(
        CheckRefusal::OutsideProgramFiles.message(r"C:\Temp\eir-svc.exe"),
        r"refusing to register a LocalSystem binary outside Program Files: C:\Temp\eir-svc.exe"
    );
    assert_eq!(
        CheckRefusal::NotOnALocalDrive.message(EXE),
        "the service executable must use a local drive path"
    );
    let said = |failure: StepFailure| CheckRefusal::StepFailed(failure).message("P");
    assert_eq!(said(StepFailure::Inspect), "inspect P");
    assert_eq!(
        said(StepFailure::ReparsePoint),
        "service path contains a reparse point: P"
    );
    assert_eq!(said(StepFailure::Open), "open P without following links");
    assert_eq!(
        said(StepFailure::NotSingleLink),
        "service binary must be a regular file with exactly one hardlink: P"
    );
    assert_eq!(said(StepFailure::Canonicalize), "canonicalize P");
    assert_eq!(said(StepFailure::Recheck), "re-check P");
    assert_eq!(
        said(StepFailure::NoParent),
        "the service executable has no parent directory"
    );
    assert_eq!(said(StepFailure::RunTool), "run P");
    assert_eq!(
        said(StepFailure::OwnerNotSet(Some(-5))),
        "icacls could not set the protected owner on P (exit code Some(-5))"
    );
    assert_eq!(
        said(StepFailure::PermissionsNotReset(None)),
        "icacls could not reset the protected ACL on P (exit code None)"
    );
}

fn config(account: &str, path: &str) -> InstallEvent {
    InstallEvent::Config(ServiceConfig {
        own_process: true,
        auto_start: true,
        account_name: Some(account.into()),
        executable_path: path.into(),
    })
}

fn installed(events: &[InstallEvent]) -> InstallStep {
    let mut step = InstallStep::Connect;
    for event in events {
        step = install_or_update(step, event, EXE);
    }
    step
}

#[test]
fn a_new_service_is_created_and_seen_running() {
    assert_eq!(
        installed(&[
            InstallEvent::Succeeded,
            InstallEvent::Missing,
            InstallEvent::Succeeded,
            InstallEvent::Succeeded,
            InstallEvent::AlreadyRunning,
            config("LocalSystem", EXE),
            InstallEvent::Status(ServiceState::StartPending),
        ]),
        InstallStep::Done
    );
}

#[test]
fn an_update_leaves_what_is_not_its_own() {
    let refused = |events: &[InstallEvent]| match installed(events) {
        InstallStep::Refused(why) => why,
        other => panic!("not refused: {other:?}"),
    };
    assert_eq!(refused(&[InstallEvent::Failed]), InstallRefusal::Connect);
    assert_eq!(
        refused(&[
            InstallEvent::Succeeded,
            InstallEvent::Succeeded,
            config("Alice", EXE)
        ]),
        InstallRefusal::ForeignAccount
    );
    assert_eq!(
        refused(&[
            InstallEvent::Succeeded,
            InstallEvent::Succeeded,
            config("LocalSystem", EXE),
            InstallEvent::Status(ServiceState::StopPending),
        ]),
        InstallRefusal::NotStopped
    );
    let started = || {
        vec![
            InstallEvent::Succeeded,
            InstallEvent::Succeeded,
            config("LocalSystem", EXE),
            InstallEvent::Status(ServiceState::Stopped),
            InstallEvent::Succeeded,
            InstallEvent::Succeeded,
            InstallEvent::Succeeded,
        ]
    };
    let mut elsewhere = started();
    elsewhere.push(config("LocalSystem", r"C:\x.exe"));
    assert_eq!(refused(&elsewhere), InstallRefusal::NotRetained);
    let mut stopped = started();
    stopped.push(config("LocalSystem", EXE));
    stopped.push(InstallEvent::Status(ServiceState::Stopped));
    assert_eq!(refused(&stopped), InstallRefusal::StoppedAtOnce);
    assert_eq!(
        InstallRefusal::StoppedAtOnce.message(),
        "the service stopped immediately after installation"
    );
}

#[test]
fn every_step_of_an_installation_has_its_failure() {
    for (step, why) in [
        (InstallStep::Open, InstallRefusal::Open),
        (InstallStep::ReadExisting, InstallRefusal::ReadExisting),
        (
            InstallStep::ReadExistingStatus,
            InstallRefusal::ReadExistingStatus,
        ),
        (InstallStep::Change, InstallRefusal::Change),
        (InstallStep::Create, InstallRefusal::Create),
        (InstallStep::Describe, InstallRefusal::Describe),
        (InstallStep::Start, InstallRefusal::Start),
        (InstallStep::VerifyConfig, InstallRefusal::VerifyConfig),
        (InstallStep::VerifyStatus, InstallRefusal::VerifyStatus),
    ] {
        assert_eq!(
            install_or_update(step, &InstallEvent::Failed, EXE),
            InstallStep::Refused(why)
        );
    }
}

#[test]
fn controls_are_answered() {
    let stop = handle_control(ServiceControl::Stop);
    assert!(stop.stop && stop.handled);
    let asked = handle_control(ServiceControl::Interrogate);
    assert!(!asked.stop && asked.handled);
    assert!(!handle_control(ServiceControl::Other).handled);
}

#[test]
fn the_restart_helper_prints_to_its_log() {
    let args = restart_args("'C:\\Eir\\eir-restart.log'");
    assert_eq!(args[..3], ["-NoProfile", "-NonInteractive", "-Command"]);
    assert!(args[3].starts_with("& { Get-Date -Format o; $d=(Get-Date).AddSeconds(60); while("));
    assert!(args[3].ends_with("Name,Status,StartType } *> 'C:\\Eir\\eir-restart.log'"));
}

#[test]
fn the_install_tree_is_owned_by_administrators() {
    let steps = harden_install_tree(r"C:\Program Files\Eir", EXE);
    assert_eq!(steps.len(), 4);
    assert_eq!(
        steps[0],
        [r"C:\Program Files\Eir", "/setowner", "*S-1-5-32-544", "/Q"]
    );
    assert_eq!(steps[2][0], EXE);
}
