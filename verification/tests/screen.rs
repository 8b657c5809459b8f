use eir_svc::models::Moment;
use eir_svc::signals::screen::{
    clean, normalise, ReportError, ScreenErrorBuffer, BUFFER_CAP, MAX_TEXT_CHARS,
    REPEAT_WINDOW_SECS,
};

fn at(secs: i64) -> Moment {
    Moment { secs, nanos: 0 }
}

#[test]
fn normalise_bounds_text_and_strips_paths() {
    let e = normalise(
        r"C:\Users\Alice\AppData\Local\App\app.exe",
        "  App\r\n Error ",
        &format!("line one\n\n\tline two {}", "x".repeat(5000)),
        false,
        at(1),
    )
    .expect("valid report");
    assert_eq!(e.app, "app.exe");
    assert_eq!(e.title, "App Error");
    assert!(e.text.starts_with("line one line two x"));
    assert_eq!(e.text.chars().count(), MAX_TEXT_CHARS);
    assert!(!e.text.contains("Alice"));
}

#[test]
fn normalise_rejects_empty_reports_but_accepts_a_bare_hang() {
    assert!(normalise("", "t", "x", false, at(1)).is_err());
    assert!(normalise("a.exe", " ", "\n", false, at(1)).is_err());
    let hung = normalise("a.exe", "Editor", "ignored text", true, at(1)).expect("hang");
    assert!(hung.hung);
    assert!(hung.text.is_empty());
}

#[test]
fn buffer_drops_repeats_inside_the_window_and_caps_pending() {
    let mut b = ScreenErrorBuffer::new();
    let e = |t: i64, text: &str| normalise("a.exe", "A", text, false, at(t)).expect("ok");
    assert!(b.push(e(100, "boom")));
    assert!(
        !b.push(e(200, "BOOM")),
        "case-only repeat is the same message"
    );
    assert!(b.push(e(200, "other")));
    assert!(
        b.push(e(100 + REPEAT_WINDOW_SECS, "boom")),
        "window expired"
    );
    assert_eq!(b.drain().len(), 3);
    assert!(b.drain().is_empty(), "drain is one-shot");
    for i in 0..(BUFFER_CAP as i64 + 5) {
        b.push(e(10_000 + i, &format!("m{i}")));
    }
    let kept = b.drain();
    assert_eq!(kept.len(), BUFFER_CAP);
    assert_eq!(kept[0].text, "m5", "oldest reports are dropped first");
}

#[test]
fn a_message_counts_once_in_a_window_whatever_comes_between() {
    let mut b = ScreenErrorBuffer::new();
    let e = |t: i64, text: &str| normalise("a.exe", "A", text, false, at(t)).expect("ok");
    assert!(b.push(e(0, "boom")));
    for t in 1..9 {
        assert!(b.push(e(t, &format!("other {t}"))));
        assert!(!b.push(e(t, "boom")), "held back, and the window is not renewed");
    }
    assert_eq!(b.drain().len(), 9);
    assert!(!b.push(e(REPEAT_WINDOW_SECS - 1, "Boom")));
    assert!(b.push(e(REPEAT_WINDOW_SECS, "boom")));
    let from = |app: &str| normalise(app, "A", "boom", false, at(REPEAT_WINDOW_SECS)).expect("ok");
    assert!(b.push(from("b.exe")), "another application's message is another");
}

#[test]
fn each_refused_report_says_what_it_lacks() {
    let refused = |app: &str, title: &str| match normalise(app, title, "", false, at(1)) {
        Err(error) => error,
        Ok(_) => panic!("accepted"),
    };
    assert_eq!(refused(" ", "t"), ReportError::NoApplication);
    assert_eq!(refused("a.exe", ""), ReportError::NoText);
    assert_ne!(
        ReportError::NoApplication.message(),
        ReportError::NoText.message()
    );
    assert_eq!(clean(" a \u{1}\n b", 10), "a b");
    assert_eq!(clean("abcdef", 3), "abc");
}

#[test]
fn the_same_report_is_held_back_whatever_its_text() {
    let mut b = ScreenErrorBuffer::new();
    let e = |t: i64| normalise("a|b.exe", "\u{130}|\u{3a3}", "\u{df} | X", false, at(t)).expect("ok");
    assert!(b.push(e(100)));
    assert!(!b.push(e(101)));
    assert!(!b.push(e(99 + REPEAT_WINDOW_SECS)));
    assert!(b.push(e(100 + REPEAT_WINDOW_SECS)));
}
