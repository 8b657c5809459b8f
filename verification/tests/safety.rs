use eir_svc::safety::rate_limited;

#[test]
fn success_within_window_rate_limits() {
    assert!(!rate_limited(0, 0));
    assert!(rate_limited(1, 1));
}

#[test]
fn repeated_failures_trip_the_breaker() {
    assert!(!rate_limited(0, 1));
    assert!(!rate_limited(0, 2));
    assert!(rate_limited(0, 3));
    assert!(!rate_limited(0, 0));
}

#[test]
fn more_failures_never_release_what_is_held_back() {
    for successes in 0..4 {
        for total in successes..8 {
            if rate_limited(successes, total) {
                assert!(rate_limited(successes, total + 1));
            }
        }
    }
}
