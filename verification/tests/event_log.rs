use eir_svc::models::{EventLogEntry, Moment};
use eir_svc::signals::event_log::{
    insertion_strings, larger_buffer, level_name, oldest_first, parse_record, source_name,
    wakes_the_loop, ChannelCursors, ChannelScan, EventBuffer, BUFFER_CAP, HEADER_LEN,
    MAX_EVENT_RECORD_BYTES, MAX_PER_POLL,
};

#[test]
fn insertion_strings_recover_event_details_with_bounds() {
    let mut bytes = vec![0u8; 12];
    for value in ["service failed", "error 1067", "ignored"] {
        bytes.extend(value.encode_utf16().flat_map(u16::to_le_bytes));
        bytes.extend(0u16.to_le_bytes());
    }

    assert_eq!(
        insertion_strings(&bytes, 12, 2, 64),
        vec!["service failed", "error 1067"]
    );
    assert_eq!(
        insertion_strings(&bytes, bytes.len() + 1, 2, 64),
        Vec::<String>::new()
    );
    assert_eq!(insertion_strings(&bytes, 12, 2, 7), vec!["service"]);
}

#[test]
fn the_texts_of_a_record_are_bounded_together() {
    let texts = |strings: &[&str], count: usize, max: usize| {
        let mut bytes = vec![0u8; 2];
        for text in strings {
            bytes.extend(wide(text));
        }
        insertion_strings(&bytes, 2, count, max)
    };
    assert_eq!(texts(&["abcd", "efgh", "ijkl"], 3, 6), ["abcd", "ef"]);
    assert_eq!(texts(&["a  b", "c"], 2, 5), ["a b", "c"]);
    assert_eq!(texts(&["\u{1f600}\u{1f600}"], 1, 3), ["\u{1f600}\u{fffd}"]);
    assert_eq!(texts(&["x"; 40], 40, 1000).len(), 16);
    assert!(texts(&["x"], 1, 0).is_empty());
}

#[test]
fn malformed_record_header_is_rejected_before_it_is_read() {
    assert!(parse_record(&vec![0u8; 4]).is_none());

    let mut truncated = vec![0u8; HEADER_LEN];
    truncated[..4].copy_from_slice(&u32::MAX.to_le_bytes());
    assert!(parse_record(&truncated).is_none());
}

fn wide(text: &str) -> Vec<u8> {
    let mut out: Vec<u8> = text.encode_utf16().flat_map(u16::to_le_bytes).collect();
    out.extend(0u16.to_le_bytes());
    out
}

fn record(number: u32, time: u32, event_id: u32, event_type: u16, source: &str, text: &str) -> Vec<u8> {
    let mut tail = wide(source);
    let string_offset = (HEADER_LEN + tail.len()) as u32;
    tail.extend(wide(text));
    let length = (HEADER_LEN + tail.len()) as u32;
    let mut out = vec![0u8; HEADER_LEN];
    out[0..4].copy_from_slice(&length.to_le_bytes());
    out[8..12].copy_from_slice(&number.to_le_bytes());
    out[12..16].copy_from_slice(&time.to_le_bytes());
    out[20..24].copy_from_slice(&event_id.to_le_bytes());
    out[24..26].copy_from_slice(&event_type.to_le_bytes());
    out[26..28].copy_from_slice(&1u16.to_le_bytes());
    out[36..40].copy_from_slice(&string_offset.to_le_bytes());
    out.extend(tail);
    out
}

#[test]
fn a_record_gives_its_parts() {
    let bytes = record(7, 1_000, 0xC000_03E8, 1, "Application Error", "app.exe crashed");
    let (header, body) = parse_record(&bytes).expect("a record");
    assert_eq!(header.record_number, 7);
    assert_eq!(header.time_generated, 1_000);
    assert_eq!(header.event_type, 1);
    assert_eq!(header.num_strings, 1);
    assert_eq!(source_name(&body), "Application Error");
    assert_eq!(level_name(8), None);
    assert_eq!(level_name(1), Some("Error"));
    assert_eq!(level_name(2), Some("Warning"));
    assert_eq!(level_name(4), Some("Information"));
}

#[test]
fn a_channel_delivers_what_is_newer_than_its_position() {
    let mut bytes = record(9, 2_000, 0xC000_03E8, 1, "App", "newest");
    bytes.extend(record(8, 1_500, 5, 8, "App", "an audited success"));
    bytes.extend(record(7, 1_000, 6, 2, "App", "older"));
    bytes.extend(record(6, 500, 6, 1, "App", "delivered before"));
    let mut cursors = ChannelCursors::new();
    let mut first = cursors.begin("System");
    first.absorb(&bytes);
    assert!(first.entries.is_empty(), "the first poll delivers nothing");
    assert_eq!(first.cursor(), 9);

    let mut scan = ChannelScan::begin(6, false);
    scan.absorb(&bytes);
    assert!(scan.done);
    assert_eq!(scan.cursor(), 9);
    let entries = oldest_first(scan.entries);
    assert_eq!(entries.len(), 2);
    assert_eq!(entries[0].level, "Warning");
    assert_eq!(entries[0].timestamp.secs, 1_000);
    assert_eq!(entries[1].level, "Error");
    assert!(entries[1].message.contains("newest"));
    assert_eq!(entries[1].event_id, 0x03E8);

    cursors.record("System", 9);
    let mut again = cursors.begin("System");
    again.absorb(&bytes);
    assert!(again.entries.is_empty());
}

#[test]
fn a_poll_of_many_reads_is_bounded() {
    let read = |from: u32, to: u32| {
        let mut bytes = Vec::new();
        for number in (to..from).rev() {
            bytes.extend(record(number, 1_000, 5, 1, "App", "x"));
        }
        bytes
    };
    let mut scan = ChannelScan::begin(1, false);
    scan.absorb(&read(1_000, 940));
    assert_eq!((scan.entries.len(), scan.done), (60, false));
    scan.absorb(&read(940, 880));
    assert_eq!((scan.entries.len(), scan.done), (MAX_PER_POLL, true));
    scan.absorb(&read(880, 700));
    assert_eq!(scan.entries.len(), MAX_PER_POLL);
    assert_eq!(scan.cursor(), 999, "the newest record is the position");

    let mut first = ChannelScan::begin(0, true);
    first.absorb(&read(1_000, 990));
    first.absorb(&read(990, 980));
    assert!(first.entries.is_empty());
}

fn entry(level: &str, number: u32) -> EventLogEntry {
    EventLogEntry {
        timestamp: Moment { secs: 0, nanos: 0 },
        level: level.into(),
        source: String::new(),
        message: String::new(),
        event_id: number,
    }
}

#[test]
fn the_buffer_keeps_the_newest() {
    let mut buffer = EventBuffer::new();
    buffer.push_all((0..BUFFER_CAP as u32 + 5).map(|n| entry("Error", n)).collect());
    let kept = buffer.drain();
    assert_eq!(kept.len(), BUFFER_CAP);
    assert_eq!(kept[0].event_id, 5);
    assert!(buffer.drain().is_empty());
    assert!(wakes_the_loop(&vec![entry("Error", 0)]));
    assert!(!wakes_the_loop(&vec![]));
}

#[test]
fn a_larger_buffer_is_bounded() {
    assert_eq!(larger_buffer(5_000, 4_096), Some(5_000));
    assert_eq!(larger_buffer(4_096, 4_096), None);
    assert_eq!(larger_buffer(MAX_EVENT_RECORD_BYTES + 1, 4_096), None);
}
