use eir_svc::session::{
    active_user_profile_dir, configured_ai_user, drive_root, sole_active_session,
    system_drive_root, windows_drive_root, SessionInfo,
};

#[test]
fn selects_one_active_console_or_rdp_session_and_fails_closed_on_multiple() {
    let active = || SessionInfo {
        id: 2,
        active: true,
    };
    let disconnected = SessionInfo {
        id: 3,
        active: false,
    };
    assert_eq!(sole_active_session(&[active(), disconnected]), Some(2));
    assert_eq!(sole_active_session(&[active(), active()]), None);
    assert_eq!(sole_active_session(&[]), None);
}

#[test]
fn derives_the_real_windows_drive_root() {
    assert_eq!(drive_root("D:\\Windows").as_deref(), Some("D:\\"));
    assert_eq!(
        drive_root("\\\\?\\E:\\Windows").as_deref(),
        Some("\\\\?\\E:\\")
    );
    assert_eq!(drive_root("\\\\server\\share\\Windows"), None);
    assert_eq!(drive_root("Windows"), None);
}

#[test]
fn headless_linux_has_no_desktop_profile() {
    assert!(active_user_profile_dir().is_none());
}

#[test]
fn system_drive_root_is_the_unix_root() {
    assert_eq!(system_drive_root(), "/");
}

#[test]
fn the_drive_of_a_missing_root_is_the_usual_one() {
    assert_eq!(windows_drive_root(Some("E:\\Windows")), "E:\\");
    assert_eq!(windows_drive_root(Some("Windows")), "C:\\");
    assert_eq!(windows_drive_root(None), "C:\\");
}

#[test]
fn a_blank_user_is_no_user() {
    assert_eq!(configured_ai_user(Some("  eir ")).as_deref(), Some("eir"));
    assert_eq!(configured_ai_user(Some(" \t")), None);
    assert_eq!(configured_ai_user(None), None);
}
