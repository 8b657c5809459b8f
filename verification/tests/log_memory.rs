use eir_svc::signals::log_memory::{
    signature, LogMemory, ReadStart, MAX_FILES, MAX_LINES_PER_FILE, SEEN_TTL,
};

const MAX: u64 = 1000;
const NOW: u64 = 1_000_000_000;

fn path(name: &str) -> String {
    format!(r"C:\Logs\{name}.log")
}

fn from(offset: u64, mid_line: bool) -> Option<ReadStart> {
    Some(ReadStart { offset, mid_line })
}

#[test]
fn other_lines_do_not_make_a_reported_line_new() {
    let mut memory = LogMemory::new();
    let log = path("busy");
    assert!(memory.first_sighting(&log, "ERROR disk full", NOW));
    let letters = "abcdefghijklmnopqrstuvwxyz";
    for (n, c) in letters.chars().enumerate() {
        let line = format!("ERROR {c}");
        assert!(memory.first_sighting(&log, &line, NOW + n as u64));
        assert!(!memory.first_sighting(&log, "error: DISK full!", NOW + n as u64));
    }
    assert!(memory.first_sighting(&log, "ERROR disk full", NOW + SEEN_TTL));
}

#[test]
fn a_new_file_is_read_from_its_tail() {
    let mut memory = LogMemory::new();
    assert_eq!(
        memory.read_start(&path("small"), 300, MAX, NOW),
        from(0, false)
    );
    assert_eq!(
        memory.read_start(&path("big"), 5000, MAX, NOW),
        from(4000, true)
    );
    assert_eq!(memory.read_start(&path("empty"), 0, MAX, NOW), None);
}

#[test]
fn a_growing_file_is_read_from_where_the_last_read_stopped() {
    let mut memory = LogMemory::new();
    let log = path("app");
    memory.mark_read(&log, 300, NOW);
    assert_eq!(memory.read_start(&log, 450, MAX, NOW), from(300, false));
    assert_eq!(
        memory.read_start(&log, 300, MAX, NOW),
        None,
        "nothing appended means nothing to read"
    );
}

#[test]
fn a_rotated_or_hugely_grown_file_is_read_from_its_tail_again() {
    let mut memory = LogMemory::new();
    let log = path("app");
    memory.mark_read(&log, 3000, NOW);
    assert_eq!(
        memory.read_start(&log, 200, MAX, NOW),
        from(0, false),
        "a file that shrank was rotated or truncated"
    );
    memory.mark_read(&log, 200, NOW);
    assert_eq!(memory.read_start(&log, 9000, MAX, NOW), from(8000, true));
    memory.mark_read(&log, 9000, NOW);
    assert_eq!(memory.read_start(&log, 0, MAX, NOW), None);
    assert_eq!(
        memory.read_start(&log, 100, MAX, NOW),
        from(0, false),
        "growth after truncation to zero starts from the beginning"
    );
}

#[test]
fn a_line_repeated_with_new_timestamps_is_reported_once_per_ttl() {
    let mut memory = LogMemory::new();
    let log = path("discord");
    let start = NOW;
    let first = "[2026-09-26 16:10:01.030] [error] Permissions policy violation: encrypted-media is not allowed.";
    let later = "[2026-09-26 16:12:44.901] [error] Permissions policy violation: encrypted-media is not allowed.";
    assert!(memory.first_sighting(&log, first, start));
    assert!(!memory.first_sighting(&log, later, start + 60_000_000_000));
    assert!(
        memory.first_sighting(&log, "[error] Disk quota exceeded", start),
        "a different message is new"
    );
    assert!(
        memory.first_sighting(&path("other"), first, start),
        "the memory is per file"
    );
    assert!(
        memory.first_sighting(&log, later, start + SEEN_TTL),
        "after the TTL the line is reported again"
    );
}

#[test]
fn memory_stays_bounded() {
    let mut memory = LogMemory::new();
    for index in 0..(MAX_FILES + 10) {
        memory.mark_read(
            &path(&format!("f{index}")),
            1,
            NOW + index as u64 * 1_000_000,
        );
    }
    assert_eq!(memory.file_count(), MAX_FILES);
    assert!(
        memory.line_count(&path("f0")).is_none(),
        "the least recently touched file is forgotten first"
    );

    let log = path("busy");
    for index in 0..(MAX_LINES_PER_FILE + 10) {
        let line = format!("error kind{}", "x".repeat(index + 1));
        assert!(memory.first_sighting(&log, &line, NOW));
    }
    assert_eq!(memory.line_count(&log), Some(MAX_LINES_PER_FILE));
}

#[test]
fn a_signature_ignores_digits_and_case() {
    assert_eq!(
        signature("[16:10:01] ERROR code 5"),
        signature("[23:59:59] error code 77")
    );
    assert_ne!(signature("error a"), signature("error b"));
}

#[test]
fn a_line_is_reported_once_whatever_happens_between() {
    let mut memory = LogMemory::new();
    let (log, other) = (path("app"), path("other"));
    assert!(memory.first_sighting(&log, "ERROR disk full", NOW));
    assert!(memory.first_sighting(&other, "ERROR disk full", NOW));
    memory.mark_read(&log, 300, NOW + 1);
    memory.read_start(&log, 20, MAX, NOW + 2);
    memory.mark_read(&other, 5, NOW + 3);
    assert!(memory.first_sighting(&log, "ERROR other", NOW + 4));
    assert!(!memory.first_sighting(&log, "ERROR disk full", NOW + SEEN_TTL - 1));
    assert!(memory.first_sighting(&log, "ERROR disk full", NOW + SEEN_TTL));
    assert!(!memory.first_sighting(&log, "ERROR disk full", NOW + SEEN_TTL + 1));
    assert!(memory.first_sighting(&other, "ERROR disk full", NOW + SEEN_TTL + 1));
}
