use eir_svc::metric::Metric;
use eir_svc::models::{
    EventLogEntry, FileChange, LogEvent, Moment, ScreenError, SecurityPosture, SignalSnapshot,
    SystemState,
};
use eir_svc::signals::feed::{
    from_snapshot, is_repeat, one_line, screen_view, Feed, SignalView, FEED_CAP, MAX_SUMMARY_CHARS,
    REPEAT_WINDOW_SECS,
};

fn quiet_state() -> SystemState {
    let zero = Metric {
        bits: 0f32.to_bits(),
    };
    SystemState {
        collected_at: 0,
        collector_errors: vec![],
        uptime_secs: 0,
        cpu_usage_percent: zero,
        memory_usage_percent: zero,
        memory_available_gb: zero,
        disk_usage_percent: zero,
        disk_free_gb: zero,
        running_services_count: 0,
        failed_services: vec![],
        network_interfaces: vec![],
        network_errors: 0,
        disk_health: String::new(),
        windows_update_status: String::new(),
        security: SecurityPosture::default(),
    }
}

fn snap() -> SignalSnapshot {
    let t = Moment {
        secs: 1_000,
        nanos: 0,
    };
    let event = |level: &str| EventLogEntry {
        timestamp: t,
        level: level.into(),
        source: "Application Error".into(),
        message: "Faulting application name: app.exe,\n exception 0xc0000005".into(),
        event_id: 1000,
    };
    let change = |severity: &str| FileChange {
        path: "C:\\x.log".into(),
        kind: "modify".into(),
        size_bytes: 1,
        timestamp: t,
        log_event: Some(LogEvent {
            program: "Backup".into(),
            log_path: "C:\\x.log".into(),
            severity: severity.into(),
            error_snippets: vec!["starting\nERROR disk full\nstopping".into()],
            content_excerpt: String::new(),
        }),
    };
    SignalSnapshot {
        timestamp: t,
        event_log: vec![event("Error"), event("Warning")],
        file_changes: vec![change("ERROR"), change("WARN")],
        system_state: quiet_state(),
        decision_history: vec![],
        screen_errors: vec![],
        user_report: None,
    }
}

#[test]
fn lists_only_error_level_items_with_a_readable_summary() {
    let items = from_snapshot(&snap());
    assert_eq!(items.len(), 2);
    assert_eq!(items[0].source, "event_log");
    assert_eq!(
        items[0].summary,
        "Event 1000: Faulting application name: app.exe, exception 0xc0000005"
    );
    assert_eq!(items[1].source, "app_log");
    assert_eq!(items[1].app, "Backup");
    assert_eq!(items[1].summary, "ERROR disk full");
}

fn item(at: i64, summary: &str) -> SignalView {
    SignalView {
        at,
        source: "screen".into(),
        app: "a.exe".into(),
        summary: summary.into(),
    }
}

fn summaries(feed: &Feed) -> Vec<&str> {
    feed.items().iter().map(|v| v.summary.as_str()).collect()
}

#[test]
fn clear_empties_the_feed_and_a_prompt_repeat_stays_hidden() {
    let mut feed = Feed::new();
    feed.push(vec![item(10, "a"), item(20, "b")]);
    assert_eq!(feed.clear(), 2);
    assert!(summaries(&feed).is_empty());
    feed.push(vec![item(30, "a")]);
    assert!(
        summaries(&feed).is_empty(),
        "the same report arriving again straight away stays cleared"
    );
    feed.push(vec![item(30 + REPEAT_WINDOW_SECS, "a"), item(40, "c")]);
    assert_eq!(
        summaries(&feed),
        ["c", "a"],
        "a later recurrence and anything new are listed"
    );
    assert_eq!(feed.clear(), 2);
    assert_eq!(feed.clear(), 0);
}

#[test]
fn dismiss_removes_only_the_matching_item() {
    let mut feed = Feed::new();
    feed.push(vec![item(10, "a"), item(20, "b")]);
    assert!(feed.dismiss(&item(10, "a")));
    assert_eq!(summaries(&feed), ["b"]);
    assert!(!feed.dismiss(&item(10, "a")), "it is no longer listed");
    assert!(
        !feed.dismiss(&item(99, "b")),
        "an item is matched on every field, not the text alone"
    );
    feed.push(vec![item(15, "a")]);
    assert_eq!(summaries(&feed), ["b"], "a dismissed item stays dismissed");
}

#[test]
fn push_is_newest_first_bounded_and_skips_recent_repeats() {
    let mut feed = Feed::new();
    feed.push(vec![item(1, "x"), item(2, "y"), item(3, "x")]);
    assert_eq!(summaries(&feed), ["y", "x"]);
    feed.push(vec![item(1 + REPEAT_WINDOW_SECS, "x")]);
    assert_eq!(summaries(&feed)[0], "x", "an old repeat is listed again");
    feed.push(
        (0..50)
            .map(|i| item(100_000 + i, &format!("m{i}")))
            .collect(),
    );
    assert_eq!(feed.items().len(), FEED_CAP);
    assert_eq!(summaries(&feed)[0], "m49");
}

#[test]
fn screen_view_describes_dialogs_and_hangs() {
    let t = Moment { secs: 5, nanos: 0 };
    let dialog = ScreenError {
        timestamp: t,
        app: "outlook.exe".into(),
        title: "Microsoft Outlook".into(),
        text: "Cannot open the folder.".into(),
        hung: false,
    };
    assert_eq!(
        screen_view(&dialog).summary,
        "Microsoft Outlook — Cannot open the folder."
    );
    let hung = ScreenError {
        hung: true,
        text: String::new(),
        title: "Report.docx - Word".into(),
        ..dialog
    };
    let v = screen_view(&hung);
    assert_eq!(v.source, "hung");
    assert_eq!(v.summary, "Stopped responding: Report.docx - Word");
    assert_eq!(
        one_line(&"x".repeat(400)).chars().count(),
        MAX_SUMMARY_CHARS
    );
}

#[test]
fn a_repeat_is_told_by_all_but_its_time() {
    assert!(is_repeat(&item(10, "a"), &item(10 + REPEAT_WINDOW_SECS - 1, "a")));
    assert!(!is_repeat(&item(10, "a"), &item(10 + REPEAT_WINDOW_SECS, "a")));
    assert!(!is_repeat(&item(10, "a"), &item(10, "b")));
    assert_eq!(one_line(" a\n\tb  c "), "a b c");
}

#[test]
fn nothing_listed_repeats_what_is_listed_or_dismissed() {
    let item = |at: i64, summary: &str| SignalView {
        at,
        source: "screen".into(),
        app: "a.exe".into(),
        summary: summary.into(),
    };
    let mut feed = Feed::new();
    feed.push(vec![item(100, "boom"), item(101, "boom"), item(101, "crash")]);
    assert_eq!(feed.items().len(), 2);
    assert!(feed.dismiss(&item(100, "boom")));
    feed.push(vec![item(102, "boom"), item(103, "third")]);
    assert_eq!(feed.clear(), 2);
    feed.push(vec![item(104, "fourth"), item(105, "boom"), item(105, "crash")]);
    assert_eq!(feed.items().len(), 1);
    feed.push(vec![item(100 + REPEAT_WINDOW_SECS, "boom")]);
    assert_eq!(feed.items()[0].summary, "boom");
    for (i, a) in feed.items().iter().enumerate() {
        for b in &feed.items()[i + 1..] {
            assert!(!is_repeat(a, b));
        }
    }
}
