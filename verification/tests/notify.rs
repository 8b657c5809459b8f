use eir_svc::notify::{
    alert_identity, command_for, dedup_key, plan_send, RecentlySent, DEDUP_TTL,
};

const SECOND: u64 = 1_000_000_000;

#[test]
fn dedup_key_is_stable_and_distinguishes_real_changes() {
    let a = dedup_key("error", "caddy.service", "unit failed");
    let b = dedup_key("error", "caddy.service", "unit failed");
    assert_eq!(a, b);
    let c = dedup_key("error", "caddy.service", "unit failed again");
    assert_ne!(a, c);
    let d = dedup_key("warning", "caddy.service", "unit failed");
    assert_ne!(a, d);
}

#[test]
fn the_key_is_the_digest_of_the_parts() {
    assert_eq!(
        alert_identity("error", "caddy.service", "unit failed"),
        "error:caddy.service:unit failed"
    );
    assert_eq!(
        dedup_key("error", "caddy.service", "unit failed"),
        "7da5abddf0d02239d5755d67dbb16b9f4e51e4cf4831d68f76eea67d51b96827"
    );
}

#[test]
fn a_fresh_key_is_not_deduped_but_a_repeat_within_the_window_is() {
    let key = "test-key-4711";
    let mut sent = RecentlySent::new();
    assert!(
        !sent.already_sent_recently(key, 5 * SECOND),
        "first send must go through"
    );
    assert!(
        sent.already_sent_recently(key, 5 * SECOND),
        "an immediate repeat must be suppressed"
    );
}

#[test]
fn an_alert_may_come_again_once_the_window_is_over() {
    let mut sent = RecentlySent::new();
    assert!(!sent.already_sent_recently("k", SECOND));
    assert!(sent.already_sent_recently("k", SECOND + DEDUP_TTL - 1));
    assert!(!sent.already_sent_recently("other", SECOND + DEDUP_TTL - 1));
    assert!(!sent.already_sent_recently("k", SECOND + DEDUP_TTL));
    assert_eq!(sent.entries.len(), 2);
}

#[test]
fn an_alert_held_back_does_not_lengthen_the_window() {
    let mut sent = RecentlySent::new();
    assert!(!sent.already_sent_recently("k", 0));
    for n in 1..4 {
        assert!(!sent.already_sent_recently(&format!("other {n}"), n));
        assert!(sent.already_sent_recently("k", DEDUP_TTL - 4 + n));
    }
    assert!(!sent.already_sent_recently("k", DEDUP_TTL));
}

#[test]
fn an_empty_command_is_a_silent_no_op() {
    let mut sent = RecentlySent::new();
    assert!(plan_send(&vec![], &mut sent, "error", "test", "message", SECOND).is_none());
    assert!(sent.entries.is_empty());
    assert!(command_for(&vec![], "message").is_none());
}

#[test]
fn the_message_is_appended_as_the_final_argument_not_interpolated() {
    let command = vec![
        "sh".to_string(),
        "-c".to_string(),
        "cat > /tmp/eir-notify-test.out".to_string(),
    ];
    let malicious = "hello; rm -rf / #";
    let mut sent = RecentlySent::new();
    let line = plan_send(
        &command,
        &mut sent,
        "error",
        "eir-notify-test",
        malicious,
        SECOND,
    )
    .expect("a command to run");
    assert_eq!(line.program, "sh");
    assert_eq!(
        line.args,
        ["-c", "cat > /tmp/eir-notify-test.out", malicious],
        "the message must never be evaluated as shell syntax"
    );
    assert!(plan_send(
        &command,
        &mut sent,
        "error",
        "eir-notify-test",
        malicious,
        2 * SECOND
    )
    .is_none());
}
