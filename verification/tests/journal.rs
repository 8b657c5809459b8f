use eir_svc::clock::{FIRST_SECOND, LAST_SECOND};
use eir_svc::json::{read_json, Json};
use eir_svc::models::{EventLogEntry, Moment};
use eir_svc::signals::journal::{
    attach_tail, cursor_moved, dedup_fingerprint, failed_unit, failed_unit_entry,
    failed_units_context, interpret_journalctl, journal_lines, journalctl_args, message_text, parse_entry,
    priority_level, select_entries, stored_cursor, unit_args, unit_tail, valid_unit_name,
    Interpreted, Poll, PollOutcome, RawEntry, AFTER_CURSOR_LINE_CAP, MAX_FAILED_UNITS_CONTEXT,
    MAX_MESSAGE_CHARS,
};

const NOW: Moment = Moment {
    secs: 1_000,
    nanos: 0,
};

/// One line of the journal, decoded field by field.
fn decoded(line: &str) -> Option<RawEntry> {
    let value = read_json(line.as_bytes())?;
    let text = |key: &str| value.get(key).and_then(Json::as_text).map(str::to_string);
    Some(RawEntry {
        cursor: text("__CURSOR"),
        realtime_us: text("__REALTIME_TIMESTAMP"),
        priority: text("PRIORITY"),
        syslog_identifier: text("SYSLOG_IDENTIFIER"),
        systemd_unit: text("_SYSTEMD_UNIT"),
        message: text("MESSAGE").map(Json::Text),
        message_id: text("MESSAGE_ID"),
        unit: text("UNIT"),
    })
}

fn lines(text: &str, count: usize) -> Vec<Option<RawEntry>> {
    (0..count).map(|_| decoded(text)).collect()
}

#[test]
fn priority_maps_error_warning_and_drops_the_rest() {
    assert_eq!(priority_level("0"), Some("Error"));
    assert_eq!(priority_level("3"), Some("Error"));
    assert_eq!(priority_level("4"), Some("Warning"));
    assert_eq!(priority_level("5"), None);
    assert_eq!(priority_level("6"), None);
    assert_eq!(priority_level("7"), None);
    assert_eq!(priority_level("garbage"), None);
}

#[test]
fn message_text_decodes_a_plain_string_and_a_byte_array() {
    let json = |text: &str| read_json(text.as_bytes()).expect("json");
    assert_eq!(message_text(&json("\"hello\"")), "hello".to_string());
    assert_eq!(message_text(&json("[104, 105]")), "hi".to_string());
    assert_eq!(message_text(&json("null")), String::new());
    assert_eq!(message_text(&json("[104, 255, 105]")), "h\u{fffd}i");
}

#[test]
fn dedup_fingerprint_is_stable_across_digits_and_differs_on_real_changes() {
    let a = dedup_fingerprint("sshd", "Failed password for baduser from 1.2.3.4 port 5555");
    let b = dedup_fingerprint("sshd", "Failed password for baduser from 1.2.3.4 port 9999");
    assert_eq!(
        a, b,
        "PID/port digits alone must not change the fingerprint"
    );
    let c = dedup_fingerprint("sshd", "Accepted publickey for ubuntu from 1.2.3.4");
    assert_ne!(
        a, c,
        "a genuinely different message must change the fingerprint"
    );
}

#[test]
fn a_real_swatbox_kernel_sample_maps_to_an_error_level_entry() {
    let sample = r#"{"SYSLOG_IDENTIFIER":"kernel","__REALTIME_TIMESTAMP":"1790328612438306","__CURSOR":"s=9626dfc4ac6241148501266f238bebb1;i=25c932;b=4b13c5c21c9f4e66823e122f43d63961;m=1990d4e388;t=65c4b5cf9c122;x=3e4bc76d146d5774","MESSAGE":"[UFW BLOCK] SRC=78.128.112.6 DST=51.195.201.245","__SEQNUM":"2476338","PRIORITY":"4"}"#;
    let raw = decoded(sample).expect("real sample decodes");
    let entry = parse_entry(&raw, NOW).expect("mapped entry");
    assert_eq!(entry.level, "Warning");
    assert_eq!(entry.source, "kernel");
    assert!(entry.message.contains("UFW BLOCK"));
    assert_eq!(entry.timestamp.secs, 1_790_328_612);
    assert_eq!(entry.timestamp.nanos, 438_306_000);
}

#[test]
fn a_moment_beyond_the_calendar_counts_as_now() {
    let at = |micros: &str| {
        let line = format!("{{\"PRIORITY\":\"3\",\"__REALTIME_TIMESTAMP\":\"{micros}\"}}");
        let raw = decoded(&line).expect("a line");
        parse_entry(&raw, NOW).expect("an entry").timestamp
    };
    assert_eq!(at("8210266876799000000").secs, LAST_SECOND);
    assert_eq!(at("8210266876800000000"), NOW);
    assert_eq!(at("-8334601228800000000").secs, FIRST_SECOND);
    assert_eq!(at("-8334601228801000000"), NOW);
    assert_eq!(at("-1"), NOW);
}

#[test]
fn a_real_swatbox_unit_sample_falls_back_to_systemd_unit_as_source() {
    let sample = r#"{"UNIT":"ssh.service","_SYSTEMD_UNIT":"ssh.service","MESSAGE":"Started ssh.service - OpenBSD Secure Shell server.","_SOURCE_REALTIME_TIMESTAMP":"1790218813199405","__REALTIME_TIMESTAMP":"1790218813199405","PRIORITY":"6"}"#;
    let raw = decoded(sample).expect("real sample decodes");
    assert!(parse_entry(&raw, NOW).is_none());
    let mut louder = raw;
    louder.priority = Some("3".into());
    let entry = parse_entry(&louder, NOW).expect("mapped entry");
    assert_eq!(entry.source, "ssh.service");
}

#[test]
fn unit_args_build_repeated_dash_u_flags_and_skip_blanks() {
    let channels = vec![
        "caddy.service".to_string(),
        String::new(),
        "ssh.service".to_string(),
    ];
    assert_eq!(
        unit_args(&channels),
        vec!["-u", "caddy.service", "-u", "ssh.service"]
    );
    assert!(unit_args(&vec![]).is_empty());
}

const LINE: &str = r#"{"__CURSOR":"c","PRIORITY":"4","MESSAGE":"x"}"#;

#[test]
fn interpret_journalctl_reseeds_when_the_line_cap_is_hit() {
    assert!(matches!(
        interpret_journalctl(
            true,
            lines(LINE, AFTER_CURSOR_LINE_CAP),
            Some("stale-cursor"),
            false
        ),
        Interpreted::Reseed
    ));
}

#[test]
fn interpret_journalctl_reseeds_on_nonzero_exit_status() {
    assert!(matches!(
        interpret_journalctl(false, vec![], Some("some-cursor"), false),
        Interpreted::Reseed
    ));
}

#[test]
fn interpret_journalctl_is_ready_under_the_line_cap() {
    match interpret_journalctl(
        true,
        lines(LINE, AFTER_CURSOR_LINE_CAP - 1),
        Some("cursor"),
        false,
    ) {
        Interpreted::Ready {
            raw_entries,
            newest_cursor,
        } => {
            assert_eq!(raw_entries.len(), AFTER_CURSOR_LINE_CAP - 1);
            assert_eq!(newest_cursor.as_deref(), Some("c"));
        }
        Interpreted::Reseed => panic!("expected Ready, got Reseed"),
    }
}

#[test]
fn interpret_journalctl_never_reseeds_while_priming_even_with_no_output() {
    assert!(matches!(
        interpret_journalctl(true, vec![], None, true),
        Interpreted::Ready { .. }
    ));
}

#[test]
fn a_crashed_unit_is_an_error_attributed_to_the_unit() {
    let raw = decoded(
        r#"{"MESSAGE_ID":"d9b373ed55a64feb8242e02dbe79a49c","UNIT":"report-exporter.service","SYSLOG_IDENTIFIER":"systemd","PRIORITY":"4","MESSAGE":"report-exporter.service: Failed with result 'exit-code'.","__REALTIME_TIMESTAMP":"1790341213000000"}"#,
    )
    .expect("decode");
    let e = parse_entry(&raw, NOW).expect("kept");
    assert_eq!(e.level, "Error");
    assert_eq!(e.source, "report-exporter.service");
    assert_eq!(failed_unit(&raw).as_deref(), Some("report-exporter.service"));
    let other = decoded(r#"{"SYSLOG_IDENTIFIER":"kernel","PRIORITY":"4","MESSAGE":"x"}"#)
        .expect("decode");
    let o = parse_entry(&other, NOW).expect("kept");
    assert_eq!(o.level, "Warning");
    assert_eq!(o.source, "kernel");
    assert_eq!(o.timestamp.secs, NOW.secs, "without a time it is now");
    assert!(!valid_unit_name("-n9999"));
    assert!(!valid_unit_name("a b"));
    assert!(valid_unit_name("getty@tty1.service"));
}

#[test]
fn a_message_is_cut_and_a_unit_log_is_attached_below_it() {
    let mut raw = decoded(LINE).expect("decode");
    raw.message = Some(Json::Text("m".repeat(MAX_MESSAGE_CHARS + 10)));
    let entry = parse_entry(&raw, NOW).expect("kept");
    assert_eq!(entry.message.chars().count(), MAX_MESSAGE_CHARS);
    let entry = attach_tail(
        EventLogEntry {
            message: "failed".into(),
            ..entry
        },
        "line 1\nline 2",
    );
    assert!(entry.message.starts_with("failed"));
    assert!(entry.message.ends_with("line 1\nline 2"));
    assert_eq!(unit_tail(&b"  a\nb\n".to_vec()).as_deref(), Some("a\nb"));
    assert_eq!(unit_tail(&b" \n".to_vec()), None);
    assert_eq!(unit_tail(&b"a\xffb".to_vec()).as_deref(), Some("a\u{fffd}b"));
}

#[test]
fn a_stale_position_is_given_up_once() {
    let mut poll = Poll::begin(Some("old"));
    assert!(matches!(poll.next(false, vec![]), PollOutcome::Again));
    assert!(poll.reseeded);
    match poll.next(true, lines(LINE, 1)) {
        PollOutcome::Lines(kept, cursor) => {
            assert_eq!(cursor, "c");
            assert!(kept.len() <= 1);
        }
        _ => panic!("expected lines"),
    }
    let mut fresh = Poll::begin(Some("old"));
    match fresh.next(true, vec![]) {
        PollOutcome::Lines(kept, cursor) => {
            assert!(kept.is_empty());
            assert_eq!(cursor, "old");
        }
        _ => panic!("expected no lines"),
    }
}

#[test]
fn repeats_inside_one_poll_are_selected_once() {
    let raw = |message: &str| RawEntry {
        message: Some(Json::Text(message.into())),
        ..decoded(LINE).expect("decode")
    };
    let selected = select_entries(&vec![raw("pid 1 died"), raw("pid 22 died"), raw("else")], NOW);
    assert_eq!(selected.len(), 2);
    assert_eq!(selected[0].entry.message, "pid 1 died");
    assert_eq!(selected[1].entry.message, "else");
}

#[test]
fn failed_units_without_an_entry_get_one() {
    let known = failed_unit_entry("a.service", None, NOW);
    assert_eq!(known.level, "Error");
    assert_eq!(known.source, "a.service");
    let units: Vec<String> = ["a.service", "b.service", "-x"]
        .iter()
        .map(|u| u.to_string())
        .collect();
    assert_eq!(
        failed_units_context(&units, &vec![known]),
        ["b.service"],
        "a unit that already reported needs nothing more"
    );
    let many: Vec<String> = (0..20).map(|n| format!("u{n}.service")).collect();
    assert_eq!(
        failed_units_context(&many, &vec![]).len(),
        MAX_FAILED_UNITS_CONTEXT
    );
}

#[test]
fn what_is_printed_comes_in_lines() {
    assert_eq!(
        journal_lines(&b"{}\r\na\xffb\n".to_vec()),
        ["{}", "a\u{fffd}b"]
    );
}

#[test]
fn the_position_is_stored_trimmed_and_only_when_it_moved() {
    assert_eq!(stored_cursor(" s=1 \n").as_deref(), Some("s=1"));
    assert_eq!(stored_cursor("\n"), None);
    assert!(cursor_moved("b", Some("a")));
    assert!(cursor_moved("b", None));
    assert!(!cursor_moved("b", Some("b")));
    let args = journalctl_args(&vec!["x.service".into()], Some("s=1"), false);
    assert!(args.iter().any(|a| a == "-u"));
    assert!(args.iter().any(|a| a.contains("s=1")));
}
