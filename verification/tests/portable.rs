use eir_svc::paths::sibling_path;
use eir_svc::portable::{
    should_restart_service_after_settings, validated_portable_pipe_name,
    validated_portable_sentinel_at, validated_portable_state_root_at,
};

#[test]
fn portable_sentinel_must_be_a_regular_sibling_of_the_service() {
    let service = r"C:\Temp\eir-portable-sentinel-7\eir-svc.exe";
    let sentinel = r"C:\Temp\eir-portable-sentinel-7\eir-portable.running";
    let outside = r"C:\Temp\eir-portable-sentinel-7\other\eir-portable.running";
    assert_eq!(
        validated_portable_sentinel_at(sentinel, Some(sentinel), Some(service)).as_deref(),
        Some(sentinel)
    );
    assert_eq!(
        validated_portable_sentinel_at(outside, Some(outside), Some(service)),
        None
    );
    assert_eq!(
        validated_portable_sentinel_at(sentinel, None, Some(service)),
        None
    );
    assert_eq!(
        validated_portable_sentinel_at("other.running", Some(sentinel), Some(service)),
        None
    );
}

#[test]
fn portable_pipe_name_is_random_and_bounded() {
    assert!(validated_portable_pipe_name(
        r"\\.\pipe\EirSvcPortable-0123456789abcdef0123456789abcdef"
    )
    .is_some());
    assert!(validated_portable_pipe_name(r"\\.\pipe\EirSvc").is_none());
    assert!(validated_portable_pipe_name(
        r"\\.\pipe\EirSvcPortable-0123456789abcdef0123456789abcde!"
    )
    .is_none());
    assert!(validated_portable_pipe_name(
        r"\\.\pipe\EirSvcPortable-0123456789abcdef0123456789abcdef0"
    )
    .is_none());
}

#[test]
fn portable_state_root_is_exact_local_app_data_directory() {
    let expected = r"C:\Users\a\AppData\Local\EirPortable";
    let outside = r"C:\Users\a\AppData\Local\Other";
    assert_eq!(
        validated_portable_state_root_at(Some(expected), Some(expected), true).as_deref(),
        Some(expected)
    );
    assert_eq!(
        validated_portable_state_root_at(Some(outside), Some(expected), true),
        None
    );
    assert_eq!(
        validated_portable_state_root_at(Some(expected), Some(expected), false),
        None
    );
    assert_eq!(
        validated_portable_state_root_at(Some(expected), None, true),
        None
    );
}

#[test]
fn portable_settings_never_invoke_the_installed_service_restart() {
    assert!(should_restart_service_after_settings(true, false));
    assert!(!should_restart_service_after_settings(true, true));
    assert!(!should_restart_service_after_settings(false, false));
}

#[test]
fn portable_ui_path_is_derived_before_canonicalisation() {
    assert_eq!(
        sibling_path(r"C:\Temp\eir-portable-ui-path\eir-svc.exe", "eir.exe").as_deref(),
        Some(r"C:\Temp\eir-portable-ui-path\eir.exe")
    );
    assert_eq!(sibling_path(r"C:\", "eir.exe"), None);
}
