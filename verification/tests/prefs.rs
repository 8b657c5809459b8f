use eir_svc::prefs::{
    admit_preference, list_preferences, prepare_preference, sanitize_text, stored_preference,
    validate_key, Preference, PreferenceError, StoredPreference, MAX_ACTION_PREFERENCES,
};

fn stored(key: &str, token: &str, summary: &str, at: Option<&str>) -> StoredPreference {
    StoredPreference {
        action_key: key.to_string(),
        preference: token.to_string(),
        summary: summary.to_string(),
        target: String::new(),
        created_at: at.map(str::to_string),
    }
}

#[test]
fn set_get_clear_round_trips() {
    let mut store: Vec<(String, &'static str)> = Vec::new();
    for preference in [Preference::Ignore, Preference::AlwaysApprove] {
        let row = prepare_preference(
            "process_kill|chrome",
            preference,
            "Kill chrome.exe",
            "chrome",
        )
        .expect("a row to store");
        assert_eq!(row.action_key, "process_kill|chrome");
        assert_eq!(row.summary, "Kill chrome.exe");
        assert_eq!(row.target, "chrome");
        store.retain(|(key, _)| *key != row.action_key);
        store.push((row.action_key, row.token));
        assert_eq!(stored_preference(Some(store[0].1)), Some(preference));
        assert_eq!(store.len(), 1);
    }
    store.clear();
    assert_eq!(stored_preference(store.first().map(|row| row.1)), None);
}

#[test]
fn list_returns_newest_first_and_skips_unknown_tokens() {
    let list = list_preferences(vec![
        stored("b|2", "always_approve", "B", Some("2026-01-01T00:00:01Z")),
        stored("c|3", "sometimes", "C", None),
        stored("a|1", "ignore", "A", Some("2026-01-01T00:00:00Z")),
    ]);
    assert_eq!(list.len(), 2);
    assert_eq!(list[0].action_key, "b|2");
    assert_eq!(list[0].preference, "always_approve");
    assert_eq!(list[1].preference, "ignore");
    assert_eq!(list[0].created_at, 1_767_225_601);
}

#[test]
fn a_time_that_cannot_be_read_is_shown_as_zero() {
    let list = list_preferences(vec![
        stored("a", "ignore", "A", Some("yesterday")),
        stored("b", "ignore", "B", None),
    ]);
    assert_eq!((list[0].created_at, list[1].created_at), (0, 0));
}

#[test]
fn empty_key_is_rejected() {
    assert!(prepare_preference("  ", Preference::Ignore, "x", "").is_err());
    assert_eq!(validate_key("\0\r\n "), Err(PreferenceError::EmptyKey));
    assert_eq!(
        PreferenceError::EmptyKey.message(),
        "action preference key is empty"
    );
}

#[test]
fn a_new_key_needs_room_and_a_known_one_does_not() {
    let full = MAX_ACTION_PREFERENCES as i64;
    assert_eq!(admit_preference(true, full), Ok(()));
    assert_eq!(admit_preference(false, full - 1), Ok(()));
    assert_eq!(
        admit_preference(false, full),
        Err(PreferenceError::LimitReached)
    );
    assert_eq!(
        PreferenceError::LimitReached.message(),
        "action preference limit reached (256)"
    );
}

#[test]
fn tokens_read_back_and_texts_are_cleaned() {
    for preference in [Preference::Ignore, Preference::AlwaysApprove] {
        assert_eq!(
            Preference::from_token(preference.as_token()),
            Some(preference)
        );
    }
    assert_eq!(Preference::from_token("Ignore"), None);
    assert_eq!(sanitize_text("  a\0b\r\tc  ", 10), "ab\tc");
    assert_eq!(sanitize_text("\u{3000}äöü", 3), "äö");
    let row = prepare_preference(" k ", Preference::Ignore, " ", " t ").expect("a row");
    assert_eq!((row.summary.as_str(), row.target.as_str()), ("k", "t"));
    assert_eq!(row.token, "ignore");
}
