use eir_svc::models::{FileChange, LogEvent, Moment};
use eir_svc::signals::file_watch::{
    absorb_chunk, auto_watch_roots, discover_watch_dirs, drop_warning_due, extension_of_path,
    guard_steps, is_ignored_dir, is_log_candidate, is_plain_directory, is_recent_log,
    is_single_link_file, is_text_extension, log_change, merge_change, replace_roots, plan_read, profile_watch_roots,
    replacement_watch_dirs, take_chunk, watched_set_changed, worth_queueing, ChangeRing,
    GuardRefusal, WatchEvent, DROP_WARNING_EVERY, MAX_READ_BYTES, RING_SIZE,
};
use eir_svc::signals::log_memory::LogMemory;
use eir_svc::signals::log_parser::MAX_SNIPPETS;

const NOW: u64 = 1_000_000_000;

/// Looks at a file that holds `content`, as the watcher does.
fn try_parse_log(path: &str, content: &[u8], memory: &mut LogMemory) -> Option<LogEvent> {
    let start = plan_read(path, content.len() as u64, memory, NOW)?;
    let bytes = content[start.offset as usize..].to_vec();
    let (text, read_to) = take_chunk(&bytes, start.offset, start.mid_line);
    absorb_chunk(path, &text, read_to, memory, NOW)
}

#[test]
fn a_large_file_is_read_from_its_tail_without_the_partial_first_line() {
    let filler = "x".repeat(MAX_READ_BYTES as usize);
    let content = format!("HEAD-should-be-gone\n{filler}\nTAIL-ERROR-marker\n").into_bytes();
    let len = content.len() as u64;
    let start = len - MAX_READ_BYTES;

    let (tail, read_to) = take_chunk(&content[start as usize..].to_vec(), start, true);

    assert!(tail.len() as u64 <= MAX_READ_BYTES);
    assert!(tail.contains("TAIL-ERROR-marker"));
    assert!(!tail.contains("HEAD-should-be-gone"));
    assert_eq!(read_to, len);
}

#[test]
fn a_line_still_being_written_is_left_for_the_next_read() {
    let mut content = b"line1\nERROR boom\nERROR half-writ".to_vec();
    let (text, read_to) = take_chunk(&content, 0, false);
    assert!(text.contains("ERROR boom"));
    assert!(!text.contains("half-writ"));
    assert_eq!(read_to, "line1\nERROR boom\n".len() as u64);

    content.extend(b"ten\n");
    let (rest, _) = take_chunk(&content[read_to as usize..].to_vec(), read_to, false);
    assert_eq!(rest, "ERROR half-written\n");
}

#[test]
fn a_line_without_an_end_is_not_taken_at_all() {
    let half = b"ERROR half-writ".to_vec();
    assert_eq!(take_chunk(&half, 0, false), (String::new(), 0));
    assert_eq!(take_chunk(&half, 40, true), (String::new(), 40));
    assert_eq!(take_chunk(&vec![], 7, false), (String::new(), 7));

    let path = r"C:\Temp-logs\slow.log";
    let mut memory = LogMemory::new();
    assert!(try_parse_log(path, &half, &mut memory).is_none());
    let whole = b"ERROR half-written\n".to_vec();
    let event = try_parse_log(path, &whole, &mut memory).expect("the line has ended");
    assert_eq!(event.error_snippets, ["ERROR half-written"]);
}

#[test]
fn a_line_longer_than_a_read_holds_up_nothing() {
    let path = r"C:\Temp-logs\wide.log";
    let mut memory = LogMemory::new();
    let mut content = vec![b'x'; MAX_READ_BYTES as usize];
    assert!(try_parse_log(path, &content, &mut memory).is_none());
    content.extend(b"xx\nERROR broke\n");
    let event = try_parse_log(path, &content, &mut memory).expect("read from its tail");
    assert_eq!(event.error_snippets, ["ERROR broke"]);
}

#[test]
fn two_reads_take_what_one_would() {
    let all = b"a\nERROR one\nERROR two".to_vec();
    let (first, read_to) = take_chunk(&all[..6].to_vec(), 0, false);
    let (second, end) = take_chunk(&all[read_to as usize..].to_vec(), read_to, false);
    assert_eq!(format!("{first}{second}"), take_chunk(&all, 0, false).0);
    assert_eq!(end, take_chunk(&all, 0, false).1);
}

#[test]
fn a_log_reports_only_what_was_newly_written() {
    let path = r"C:\Temp-logs\renderer.log";
    let mut content =
        b"[16:10:01] [error] Permissions policy violation: encrypted-media\n".to_vec();
    let mut memory = LogMemory::new();

    let first = try_parse_log(path, &content, &mut memory).expect("first sighting");
    assert_eq!(first.severity, "ERROR");

    content.extend(b"[16:12:44] [error] Permissions policy violation: encrypted-media\n[16:12:45] [info] ready\n");
    assert!(
        try_parse_log(path, &content, &mut memory).is_none(),
        "the same message again is not news"
    );
    assert!(
        try_parse_log(path, &content, &mut memory).is_none(),
        "nothing appended means nothing to report"
    );

    content.extend(b"[16:13:02] [error] Disk write failed: device not ready\n");
    let next = try_parse_log(path, &content, &mut memory).expect("a new error");
    assert_eq!(next.error_snippets.len(), 1);
    assert!(next.error_snippets[0].contains("Disk write failed"));
    assert!(!next.error_snippets[0].contains("Permissions policy"));
}

#[test]
fn structured_state_files_are_not_read_as_logs() {
    let mut memory = LogMemory::new();
    let parsed = try_parse_log(
        r"C:\Temp-logs\session.json",
        br#"{"status":"ok","errors":0,"crashed":false}"#,
        &mut memory,
    );
    assert!(parsed.is_none());
}

#[test]
fn eir_folders_and_the_user_temp_folder_are_ignored() {
    for ignored in [
        r"C:\Users\Swatto\AppData\Local\Temp\eir-opencode-4984-59",
        r"\\?\C:\Users\Swatto\AppData\Local\Temp\scoped_dir1_2\EBWebView",
        r"C:\Windows\SystemTemp\eir-codex-12-3",
        r"C:\ProgramData\Eir\staging",
        r"C:\Users\Swatto\AppData\Local\co.swatto.eir\EBWebView",
    ] {
        assert!(is_ignored_dir(ignored), "{ignored} must be ignored");
    }
    for watched in [
        r"C:\Users\Swatto\AppData\Roaming\discord\logs",
        r"C:\Users\Swatto\AppData\Local\Battle.net\Logs",
        r"C:\Windows\Logs\CBS",
        r"C:\Windows\Temp",
        r"C:\ProgramData\NVIDIA Corporation\NVIDIA App\UXD",
        r"C:\Users\Swatto\AppData\Local\Weird Eir-like App",
    ] {
        assert!(!is_ignored_dir(watched), "{watched} must stay watched");
    }
}

#[test]
fn only_log_file_changes_are_queued() {
    let modified = |path: &str| WatchEvent::Modified(vec![path.to_string()]);
    assert!(worth_queueing(&modified(
        r"C:\Users\Swatto\AppData\Roaming\discord\logs\renderer_js.log"
    )));
    assert!(worth_queueing(&WatchEvent::Created(vec![
        r"C:\ProgramData\App\LOGS\Setup.LOG".to_string()
    ])));
    for noise in [
        r"C:\Users\Swatto\AppData\Local\Google\Chrome\User Data\Default\Cache\f_00a1b2",
        r"C:\Users\Swatto\AppData\Roaming\Grok Bot\sentry\session.json",
        r"C:\Users\Swatto\AppData\Local\Temp\cq-gate.log",
        r"C:\Users\Swatto\AppData\Local\Temp\eir-codex-1-2\stdout.txt",
    ] {
        assert!(!worth_queueing(&modified(noise)), "{noise} was queued");
    }
    assert!(!worth_queueing(&WatchEvent::Other(vec![
        r"C:\Logs\app.log".to_string()
    ])));
    assert!(
        worth_queueing(&WatchEvent::Failed),
        "errors still reach the thread so they are logged"
    );
}

fn change(severity: &str, snippet: &str, at: i64) -> FileChange {
    FileChange {
        path: r"C:\Logs\app.log".into(),
        kind: "modified".into(),
        size_bytes: 10,
        timestamp: Moment { secs: at, nanos: 0 },
        log_event: Some(LogEvent {
            program: "App".into(),
            log_path: r"C:\Logs\app.log".into(),
            severity: severity.into(),
            error_snippets: vec![snippet.into()],
            content_excerpt: snippet.into(),
        }),
    }
}

#[test]
fn changes_to_one_file_merge_into_a_single_pending_entry() {
    let mut pending = change("WARN", "WARN slow", 1);
    pending = merge_change(pending, change("ERROR", "ERROR broke", 2));
    pending = merge_change(pending, change("WARN", "WARN again", 3));
    let event = pending.log_event.expect("event");
    assert_eq!(event.severity, "ERROR", "the highest severity is kept");
    assert_eq!(
        event.error_snippets,
        ["WARN slow", "ERROR broke", "WARN again"]
    );
    assert_eq!(pending.timestamp.secs, 3);

    let mut full = change("ERROR", "e0", 1);
    for index in 1..10 {
        full = merge_change(full, change("ERROR", &format!("e{index}"), 1));
    }
    assert_eq!(
        full.log_event.expect("event").error_snippets.len(),
        MAX_SNIPPETS
    );
}

#[test]
fn the_ring_merges_by_path_and_keeps_the_newest() {
    let mut ring = ChangeRing::new();
    ring.note(change("WARN", "w", 1));
    ring.note(change("ERROR", "e", 2));
    let drained = ring.drain();
    assert_eq!(drained.len(), 1);
    assert!(ring.drain().is_empty());
    for n in 0..RING_SIZE + 3 {
        ring.note(FileChange {
            path: format!(r"C:\Logs\{n}.log"),
            ..change("ERROR", "e", 1)
        });
    }
    let kept = ring.drain();
    assert_eq!(kept.len(), RING_SIZE);
    assert_eq!(kept[0].path, r"C:\Logs\3.log");
}

#[test]
fn only_a_real_root_change_drops_buffered_events() {
    let a = r"C:\A".to_string();
    let b = r"C:\B".to_string();
    let sent = replacement_watch_dirs(&vec![a.clone(), b.clone()]);
    let resent = replacement_watch_dirs(&vec![b.clone(), a.clone(), a.clone()]);
    let switched = replacement_watch_dirs(&vec![r"C:\Other".to_string()]);

    assert!(!watched_set_changed(&sent, &resent));
    assert!(watched_set_changed(&sent, &switched));
    assert!(watched_set_changed(&sent, &vec![]));
}

#[test]
fn another_users_changes_are_dropped() {
    let mut watched = vec![r"C:\A".to_string()];
    let mut ring = ChangeRing::new();
    let mut memory = LogMemory::new();
    ring.note(change("ERROR", "e", 1));
    memory.mark_read(r"C:\A\x.log", 5, NOW);
    let same = vec![r"C:/A/".to_string()];
    assert!(!replace_roots(&mut watched, same, &mut ring, &mut memory));
    assert_eq!((ring.pending.len(), memory.file_count()), (1, 1));
    let other = vec![r"C:\B".to_string()];
    assert!(replace_roots(&mut watched, other, &mut ring, &mut memory));
    assert_eq!((ring.pending.len(), memory.file_count()), (0, 0));
    assert_eq!(watched, [r"C:\B"]);
}

#[test]
fn a_log_event_becomes_a_change() {
    let event = change("ERROR", "e", 1).log_event.expect("event");
    let at = Moment { secs: 9, nanos: 1 };
    let made = log_change(true, r"C:\x.log".into(), 7, at, event);
    assert_eq!((made.kind.as_str(), made.size_bytes), ("created", 7));
    let event = made.log_event.expect("event");
    assert!(event.is_actionable());
    let made = log_change(false, r"C:\x.log".into(), 7, at, event);
    assert_eq!(made.kind, "modified");
}

#[test]
fn automatic_user_roots_come_from_the_active_profile() {
    let roots = profile_watch_roots("D:\\Profiles\\Active");
    assert_eq!(
        roots,
        [
            "D:\\Profiles\\Active\\AppData\\Local".to_string(),
            "D:\\Profiles\\Active\\AppData\\Roaming".to_string(),
        ]
    );
}

#[test]
fn replacement_update_drops_previous_user_roots_and_keeps_shared_roots() {
    let old_user = r"C:\Users\Old\AppData\Local\App".to_string();
    let new_user = r"C:\Users\New\AppData\Local\App".to_string();
    let shared = r"C:\ProgramData\App".to_string();
    let desired = replacement_watch_dirs(&vec![new_user.clone(), shared.clone()]);

    assert!(!desired.contains(&old_user));
    assert!(desired.contains(&new_user));
    assert!(desired.contains(&shared));
}

#[test]
fn discovery_reports_nothing_to_watch_in_this_phase() {
    assert_eq!(discover_watch_dirs(&[]), Some(Vec::new()));
    assert_eq!(
        discover_watch_dirs(&["/var/log".to_string()]),
        Some(Vec::new())
    );
}

#[test]
fn files_are_told_by_their_extension_and_their_age() {
    assert!(is_text_extension("log"));
    assert!(!is_text_extension("json"));
    assert_eq!(extension_of_path(r"C:\a\b.LOG").as_deref(), Some("LOG"));
    assert!(is_log_candidate(r"C:\Logs\a.log"));
    assert!(!is_log_candidate(r"C:\Logs\a"));
    assert!(is_recent_log(true, r"C:\Logs\a.log", Some(11), 10));
    assert!(!is_recent_log(true, r"C:\Logs\a.log", Some(10), 10));
    assert!(!is_recent_log(false, r"C:\Logs\a.log", Some(99), 10));
    assert!(!is_recent_log(true, r"C:\Logs\a.log", None, 10));
}

#[test]
fn a_guarded_path_is_opened_part_by_part() {
    assert_eq!(
        guard_steps(r"C:\a\b").expect("steps"),
        [r"C:\a", r"C:\a\b"]
    );
    assert!(matches!(
        guard_steps(r"\\server\share\x"),
        Err(GuardRefusal::NotLocal)
    ));
    assert!(matches!(guard_steps(r"C:\"), Err(GuardRefusal::TooBroad)));
    assert!(is_plain_directory(0x10));
    assert!(!is_plain_directory(0x410));
    assert!(!is_plain_directory(0x20));
    assert!(is_single_link_file(0x20, 1));
    assert!(!is_single_link_file(0x20, 2));
    assert!(!is_single_link_file(0x10, 1));
}

#[test]
fn watched_roots_and_warnings() {
    let roots = auto_watch_roots("C:\\", None, Some(r"C:\Users\a"));
    assert!(roots.contains(&r"C:\Users\a\AppData\Local".to_string()));
    assert!(!drop_warning_due(0, None, NOW));
    assert!(drop_warning_due(1, None, NOW));
    assert!(!drop_warning_due(1, Some(NOW), NOW + DROP_WARNING_EVERY - 1));
    assert!(drop_warning_due(1, Some(NOW), NOW + DROP_WARNING_EVERY));
}

#[test]
fn a_file_read_in_many_goes_is_taken_once() {
    let file = b"one\ntwo\n\nthree and more\nfo".to_vec();
    let mut text = String::new();
    let mut at = 0;
    for size in [0, 2, 4, 4, 7, 9, 20, 25, file.len()] {
        let (part, to) = take_chunk(&file[at as usize..size].to_vec(), at, false);
        text.push_str(&part);
        at = to;
    }
    assert_eq!((text, at), take_chunk(&file, 0, false));
    assert_eq!(at, 24);
}
