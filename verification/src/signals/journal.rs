//! The systemd journal: what is asked of it, what its entries mean, and when a stored
//! position in it is given up.

use crate::clock::{calendar_holds, moment_at};
use crate::json::{byte_len, utf8_len, Json};
use crate::models::{EventLogEntry, Moment};
use crate::signals::event_log::{EntryModel, MAX_PER_POLL};
use crate::text::{
    ascii_alphanumeric, ascii_digit, capped_text_is_a_start, char_cap, chars_of, decimal,
    decimal_int, head, is_ascii_alphanumeric, is_ascii_digit, lines, lines_of, lossy_utf8,
    opt_view, parse_i64, parse_nat, parsed_int, parsed_nat, push_text, same, string_range, trim,
    trimmed, trimmed_text_lies_between_white_space, unicode_whitespace, utf8_lossy, views,
    written_number_reads_back,
};
use std::collections::hash_map::DefaultHasher;
use std::hash::Hasher;
use vstd::prelude::*;
use vstd::std_specs::hash::*;
use vstd::string::*;
use vstd::utf8::*;

verus! {

/// Characters kept of an entry's message.
pub const MAX_MESSAGE_CHARS: usize = 2048;

/// What systemd marks the message by that a unit ended in failure. It is logged as a
/// warning, and counts as an error so that a crash is reacted to at once.
pub const UNIT_RESULT_MESSAGE_ID: &'static str = "d9b373ed55a64feb8242e02dbe79a49c";

/// Characters kept of a failed unit's own log.
pub const MAX_UNIT_TAIL_CHARS: usize = 1500;

/// Lines that one poll after a stored position ever reads. The journal answers a position
/// that it no longer knows with everything it has; so many lines at once are taken as that.
pub const AFTER_CURSOR_LINE_CAP: usize = 500;

/// Failed units whose own log is attached to one analysis at most.
pub const MAX_FAILED_UNITS_CONTEXT: usize = 5;

/// One line of the journal, as far as it is read.
pub struct RawEntry {
    pub cursor: Option<String>,
    pub realtime_us: Option<String>,
    pub priority: Option<String>,
    pub syslog_identifier: Option<String>,
    pub systemd_unit: Option<String>,
    pub message: Option<Json>,
    pub message_id: Option<String>,
    pub unit: Option<String>,
}

// ── Units ─────────────────────────────────────────────────────────────────────

/// The characters of a unit's name.
pub open spec fn unit_char(c: char) -> bool {
    ascii_alphanumeric(c) || c == '@' || c == '.' || c == '_' || c == '-' || c == ':' || c == '\\'
}

/// A unit's name: plain characters, a letter or digit first, so that it can never read as
/// an option of a command.
pub open spec fn valid_unit(unit: Seq<char>) -> bool {
    &&& unit.len() > 0
    &&& utf8_len(unit) <= 256
    &&& ascii_alphanumeric(unit[0])
    &&& forall|i: int| 0 <= i < unit.len() ==> unit_char(#[trigger] unit[i])
}

/// Whether a text is a unit's name.
pub fn valid_unit_name(unit: &str) -> (r: bool)
    ensures
        r == valid_unit(unit@),
{
    let v = chars_of(unit);
    if v.len() == 0 || byte_len(unit) > 256 || !is_ascii_alphanumeric(v[0]) {
        return false;
    }
    let mut i: usize = 0;
    while i < v.len()
        invariant
            i <= v@.len(),
            v@ == unit@,
            forall|k: int| 0 <= k < i ==> unit_char(#[trigger] v@[k]),
        decreases v@.len() - i,
    {
        let c: char = v[i];
        if !(is_ascii_alphanumeric(c) || c == '@' || c == '.' || c == '_' || c == '-' || c == ':'
            || c == '\\') {
            assert(!unit_char(unit@[i as int]));
            return false;
        }
        i += 1;
    }
    true
}

/// A unit's name never reads as an option.
pub proof fn unit_name_is_no_option(unit: Seq<char>)
    requires
        valid_unit(unit),
    ensures
        unit[0] != '-',
{
}

/// The unit that an entry reports as failed, if it is such an entry.
pub open spec fn unit_failed(raw: RawEntry) -> Option<Seq<char>> {
    if opt_view(raw.message_id) == Some(UNIT_RESULT_MESSAGE_ID@) && raw.unit is Some && valid_unit(
        (raw.unit->0)@,
    ) {
        opt_view(raw.unit)
    } else {
        None
    }
}

/// The unit that an entry reports as failed, if it is such an entry.
pub fn failed_unit(raw: &RawEntry) -> (r: Option<String>)
    ensures
        opt_view(r) == unit_failed(*raw),
{
    let marked = match &raw.message_id {
        Some(id) => same(id.as_str(), UNIT_RESULT_MESSAGE_ID),
        None => false,
    };
    if !marked {
        return None;
    }
    match &raw.unit {
        Some(unit) => {
            if valid_unit_name(unit.as_str()) {
                Some(unit.clone())
            } else {
                None
            }
        },
        None => None,
    }
}

/// The last `max` characters of a text, or all of it where it is shorter.
pub open spec fn tail(s: Seq<char>, max: int) -> Seq<char> {
    if s.len() <= max {
        s
    } else {
        s.skip(s.len() - max)
    }
}

/// The end of a unit's own log, from what the journal printed of it; none where that is
/// blank.
pub fn unit_tail(printed: &Vec<u8>) -> (r: Option<String>)
    ensures
        opt_view(r) == ({
            let end = tail(trim(utf8_lossy(printed@)), MAX_UNIT_TAIL_CHARS as int);
            if end.len() > 0 {
                Some(end)
            } else {
                None
            }
        }),
{
    let text = lossy_utf8(printed.as_slice());
    let body = trimmed(text.as_str());
    let v = chars_of(body.as_str());
    let n: usize = v.len();
    let from: usize = if n <= MAX_UNIT_TAIL_CHARS {
        0
    } else {
        n - MAX_UNIT_TAIL_CHARS
    };
    let end = string_range(&v, from, n);
    assert(end@ =~= tail(body@, MAX_UNIT_TAIL_CHARS as int));
    if end.as_str().is_empty() {
        None
    } else {
        Some(end)
    }
}

/// Whether one of the entries comes from a source.
pub open spec fn mentioned(entries: Seq<EventLogEntry>, source: Seq<char>) -> bool {
    exists|i: int| 0 <= i < entries.len() && (#[trigger] entries[i]).source@ == source
}

/// Whether a failed unit still has to be explained.
pub open spec fn unexplained(entries: Seq<EventLogEntry>, unit: Seq<char>) -> bool {
    valid_unit(unit) && !mentioned(entries, unit)
}

/// The failed units whose log is to be attached: the first few that the entries say nothing
/// about yet.
pub open spec fn units_to_explain(failed: Seq<Seq<char>>, entries: Seq<EventLogEntry>) -> Seq<
    Seq<char>,
>
    decreases failed.len(),
{
    if failed.len() == 0 {
        Seq::empty()
    } else {
        let before = units_to_explain(failed.drop_last(), entries);
        if before.len() < MAX_FAILED_UNITS_CONTEXT && unexplained(entries, failed.last()) {
            before.push(failed.last())
        } else {
            before
        }
    }
}

fn is_mentioned(entries: &Vec<EventLogEntry>, source: &str) -> (r: bool)
    ensures
        r == mentioned(entries@, source@),
{
    let mut i: usize = 0;
    while i < entries.len()
        invariant
            i <= entries@.len(),
            forall|k: int| 0 <= k < i ==> (#[trigger] entries@[k]).source@ != source@,
        decreases entries@.len() - i,
    {
        if same(entries[i].source.as_str(), source) {
            return true;
        }
        i += 1;
    }
    false
}

/// The failed units whose log is to be attached to an analysis of the entries.
pub fn failed_units_context(failed_units: &Vec<String>, entries: &Vec<EventLogEntry>) -> (r: Vec<
    String,
>)
    ensures
        views(r@) == units_to_explain(views(failed_units@), entries@),
{
    let ghost all = views(failed_units@);
    let mut out: Vec<String> = Vec::new();
    let mut i: usize = 0;
    assert(all.take(0) =~= Seq::<Seq<char>>::empty());
    assert(views(out@) =~= Seq::<Seq<char>>::empty());
    while i < failed_units.len()
        invariant
            i <= failed_units@.len(),
            all == views(failed_units@),
            views(out@) == units_to_explain(all.take(i as int), entries@),
        decreases failed_units@.len() - i,
    {
        assert(all.take(i + 1).drop_last() =~= all.take(i as int));
        assert(all.take(i + 1).last() == failed_units@[i as int]@);
        assert(views(out@).len() == out@.len());
        let unit = failed_units[i].as_str();
        if out.len() < MAX_FAILED_UNITS_CONTEXT && valid_unit_name(unit) && !is_mentioned(
            entries,
            unit,
        ) {
            push_text(&mut out, unit);
        }
        i += 1;
    }
    assert(all.take(all.len() as int) =~= all);
    out
}

/// The entry that tells an analysis why a unit is down.
pub open spec fn failed_entry(unit: Seq<char>, log: Option<Seq<char>>, now: Moment) -> EntryModel {
    EntryModel {
        timestamp: now,
        level: "Error"@,
        source: unit,
        message: match log {
            Some(tail) => unit + " is in the failed state. Recent log of "@ + unit + ":\n"@ + tail,
            None => unit + " is in the failed state (no recent log available)."@,
        },
        event_id: 0,
    }
}

/// The entry that tells an analysis why a unit is down.
pub fn failed_unit_entry(unit: &str, log: Option<&str>, now: Moment) -> (r: EventLogEntry)
    ensures
        r@ == failed_entry(
            unit@,
            match log {
                Some(tail) => Some(tail@),
                None => None,
            },
            now,
        ),
{
    let mut message = unit.to_owned();
    match log {
        Some(tail) => {
            message.append(" is in the failed state. Recent log of ");
            message.append(unit);
            message.append(":\n");
            message.append(tail);
        },
        None => {
            message.append(" is in the failed state (no recent log available).");
        },
    }
    EventLogEntry {
        timestamp: now,
        level: "Error".to_owned(),
        source: unit.to_owned(),
        message,
        event_id: 0,
    }
}

// ── Entries ───────────────────────────────────────────────────────────────────

/// The level that a priority stands for: 0 to 3 are errors, 4 a warning, the rest is not
/// listed.
pub open spec fn level_of_priority(priority: Seq<char>) -> Option<Seq<char>> {
    match parsed_nat(trim(priority), u32::MAX as int) {
        Some(n) => if n <= 3 {
            Some("Error"@)
        } else if n == 4 {
            Some("Warning"@)
        } else {
            None
        },
        None => None,
    }
}

/// The level that a priority stands for.
pub fn priority_level(priority: &str) -> (r: Option<&'static str>)
    ensures
        match r {
            Some(level) => level_of_priority(priority@) == Some(level@),
            None => level_of_priority(priority@) is None,
        },
{
    let text = trimmed(priority);
    match parse_nat(text.as_str(), u32::MAX as u64) {
        Some(n) => {
            if n <= 3 {
                Some("Error")
            } else if n == 4 {
                Some("Warning")
            } else {
                None
            }
        },
        None => None,
    }
}

/// The bytes that an array of numbers lists; what is no whole number is passed over.
pub open spec fn listed_bytes(items: Seq<Json>) -> Seq<u8>
    decreases items.len(),
{
    if items.len() == 0 {
        Seq::empty()
    } else {
        match items.last() {
            Json::Number(Some(n)) => listed_bytes(items.drop_last()).push((n as int % 256) as u8),
            _ => listed_bytes(items.drop_last()),
        }
    }
}

/// The text of a message, which the journal writes as a string or, where it is no text, as
/// an array of its bytes.
pub open spec fn text_of_message(value: Json) -> Seq<char> {
    match value {
        Json::Text(s) => s@,
        Json::Array(items) => utf8_lossy(listed_bytes(items@)),
        _ => Seq::empty(),
    }
}

/// The text of a message.
pub fn message_text(value: &Json) -> (r: String)
    ensures
        r@ == text_of_message(*value),
{
    match value {
        Json::Text(s) => s.clone(),
        Json::Array(items) => {
            let mut bytes: Vec<u8> = Vec::new();
            let mut i: usize = 0;
            assert(items@.take(0) =~= Seq::<Json>::empty());
            while i < items.len()
                invariant
                    i <= items@.len(),
                    bytes@ == listed_bytes(items@.take(i as int)),
                decreases items@.len() - i,
            {
                assert(items@.take(i + 1).drop_last() =~= items@.take(i as int));
                assert(items@.take(i + 1).last() == items@[i as int]);
                if let Json::Number(Some(n)) = &items[i] {
                    let low: u8 = (*n % 256) as u8;
                    bytes.push(low);
                }
                i += 1;
            }
            assert(items@.take(items@.len() as int) =~= items@);
            lossy_utf8(bytes.as_slice())
        },
        _ => String::new(),
    }
}

/// A text without its ASCII digits.
pub open spec fn without_digits(s: Seq<char>) -> Seq<char>
    decreases s.len(),
{
    if s.len() == 0 {
        Seq::empty()
    } else if ascii_digit(s.last()) {
        without_digits(s.drop_last())
    } else {
        without_digits(s.drop_last()).push(s.last())
    }
}

fn strip_digits(s: &str) -> (r: String)
    ensures
        r@ == without_digits(s@),
{
    let mut out = String::new();
    assert(s@.take(0) =~= Seq::<char>::empty());
    for c in it: s.chars()
        invariant
            it.seq() == s@,
            out@ == without_digits(s@.take(it.index() as int)),
    {
        let ghost next = s@.take(it.index() as int + 1);
        assert(next.drop_last() =~= s@.take(it.index() as int));
        assert(next.last() == c);
        if !is_ascii_digit(c) {
            out.push(c);
        }
    }
    assert(s@.take(s@.len() as int) =~= s@);
    out
}

/// What tells two entries of one poll apart: their source and their message, both without
/// digits.
pub open spec fn fingerprint(source: Seq<char>, message: Seq<char>) -> u64 {
    DefaultHasher::spec_finish(
        seq![
            encode_utf8(without_digits(source)),
            seq![0xffu8],
            encode_utf8(without_digits(message)),
            seq![0xffu8],
        ],
    )
}

/// What tells two entries of one poll apart. It does not change with numbers in the text
/// alone, so that one recurring source cannot fill a poll.
pub fn dedup_fingerprint(source: &str, message: &str) -> (r: u64)
    ensures
        r == fingerprint(source@, message@),
{
    let a = strip_digits(source);
    let b = strip_digits(message);
    let mark: [u8; 1] = [0xff];
    assert(mark@ =~= seq![0xffu8]);
    let mut hasher = DefaultHasher::new();
    hasher.write(a.as_str().as_bytes());
    hasher.write(&mark);
    hasher.write(b.as_str().as_bytes());
    hasher.write(&mark);
    assert(hasher@ =~= seq![
        encode_utf8(without_digits(source@)),
        seq![0xffu8],
        encode_utf8(without_digits(message@)),
        seq![0xffu8],
    ]);
    hasher.finish()
}

/// Entries that differ in digits alone have one fingerprint.
pub proof fn digits_do_not_tell_apart(
    source: Seq<char>,
    other_source: Seq<char>,
    a: Seq<char>,
    b: Seq<char>,
)
    requires
        without_digits(source) == without_digits(other_source),
        without_digits(a) == without_digits(b),
    ensures
        fingerprint(source, a) == fingerprint(other_source, b),
{
}

/// The moment that a count of microseconds since 1970 stands for, if it stands for one that
/// is not before 1970 by a fraction of a second and is on the calendar.
pub open spec fn moment_of_micros(us: Option<Seq<char>>) -> Option<Moment> {
    match us {
        Some(text) => match parsed_int(text, i64::MIN as int, i64::MAX as int) {
            Some(n) => {
                let secs = truncated_quotient(n, 1_000_000);
                let rest = n - secs * 1_000_000;
                if rest >= 0 && calendar_holds(secs as i64) {
                    Some(Moment { secs: secs as i64, nanos: (rest * 1000) as u32 })
                } else {
                    None
                }
            },
            None => None,
        },
        None => None,
    }
}

/// Division that rounds toward zero.
pub open spec fn truncated_quotient(n: int, d: int) -> int {
    if n >= 0 {
        n / d
    } else {
        -((-n) / d)
    }
}

fn micros_to_moment(us: &Option<String>) -> (r: Option<Moment>)
    ensures
        r == moment_of_micros(opt_view(*us)),
{
    match us {
        Some(text) => match parse_i64(text.as_str()) {
            Some(n) => {
                let n: i128 = n as i128;
                let secs: i64 = if n >= 0 {
                    (n / 1_000_000) as i64
                } else {
                    -(((-n) / 1_000_000) as i64)
                };
                let rest: i128 = n - secs as i128 * 1_000_000;
                if rest < 0 {
                    return None;
                }
                assert(rest < 1_000_000);
                moment_at(secs, (rest * 1000) as u32)
            },
            None => None,
        },
        None => None,
    }
}

/// The entry that a line of the journal stands for, at the given moment where it has none
/// of its own: of a failed unit an error of that unit, of any other line what its priority
/// says, from its identifier, its unit, or the journal.
pub open spec fn parsed_entry(raw: RawEntry, now: Moment) -> Option<EntryModel> {
    let failed = unit_failed(raw);
    let level = match failed {
        Some(_) => Some("Error"@),
        None => match raw.priority {
            Some(priority) => level_of_priority(priority@),
            None => None,
        },
    };
    match level {
        Some(level) => Some(
            EntryModel {
                timestamp: match moment_of_micros(opt_view(raw.realtime_us)) {
                    Some(moment) => moment,
                    None => now,
                },
                level,
                source: match (failed, raw.syslog_identifier, raw.systemd_unit) {
                    (Some(unit), _, _) => unit,
                    (None, Some(name), _) => name@,
                    (None, None, Some(unit)) => unit@,
                    (None, None, None) => "journal"@,
                },
                message: head(
                    trim(
                        match raw.message {
                            Some(value) => text_of_message(value),
                            None => Seq::empty(),
                        },
                    ),
                    MAX_MESSAGE_CHARS as int,
                ),
                event_id: 0,
            },
        ),
        None => None,
    }
}

/// The entry that a line of the journal stands for, if it is one to list.
pub fn parse_entry(raw: &RawEntry, now: Moment) -> (r: Option<EventLogEntry>)
    ensures
        match r {
            Some(entry) => parsed_entry(*raw, now) == Some(entry@),
            None => parsed_entry(*raw, now) is None,
        },
{
    let failed = failed_unit(raw);
    let level = match &failed {
        Some(_) => "Error",
        None => match &raw.priority {
            Some(priority) => match priority_level(priority.as_str()) {
                Some(level) => level,
                None => return None,
            },
            None => return None,
        },
    };
    let source = match failed {
        Some(unit) => unit,
        None => match &raw.syslog_identifier {
            Some(name) => name.clone(),
            None => match &raw.systemd_unit {
                Some(unit) => unit.clone(),
                None => "journal".to_owned(),
            },
        },
    };
    let text = match &raw.message {
        Some(value) => message_text(value),
        None => String::new(),
    };
    assert(raw.message is None ==> text@ =~= Seq::<char>::empty());
    let text = trimmed(text.as_str());
    let message = char_cap(text.as_str(), MAX_MESSAGE_CHARS);
    let timestamp = match micros_to_moment(&raw.realtime_us) {
        Some(moment) => moment,
        None => now,
    };
    Some(EventLogEntry { timestamp, level: level.to_owned(), source, message, event_id: 0 })
}

// ── Polling ───────────────────────────────────────────────────────────────────

/// The options that restrict a poll to units; blank names are passed over.
pub open spec fn unit_options(channels: Seq<Seq<char>>) -> Seq<Seq<char>>
    decreases channels.len(),
{
    if channels.len() == 0 {
        Seq::empty()
    } else {
        let before = unit_options(channels.drop_last());
        if trim(channels.last()).len() > 0 {
            before.push("-u"@).push(channels.last())
        } else {
            before
        }
    }
}

/// The options that restrict a poll to the named units.
pub fn unit_args(channels: &Vec<String>) -> (r: Vec<String>)
    ensures
        views(r@) == unit_options(views(channels@)),
{
    let ghost all = views(channels@);
    let mut out: Vec<String> = Vec::new();
    let mut i: usize = 0;
    assert(all.take(0) =~= Seq::<Seq<char>>::empty());
    assert(views(out@) =~= Seq::<Seq<char>>::empty());
    while i < channels.len()
        invariant
            i <= channels@.len(),
            all == views(channels@),
            views(out@) == unit_options(all.take(i as int)),
        decreases channels@.len() - i,
    {
        assert(all.take(i + 1).drop_last() =~= all.take(i as int));
        assert(all.take(i + 1).last() == channels@[i as int]@);
        let name = trimmed(channels[i].as_str());
        if !name.as_str().is_empty() {
            push_text(&mut out, "-u");
            push_text(&mut out, channels[i].as_str());
        }
        i += 1;
    }
    assert(all.take(all.len() as int) =~= all);
    out
}

/// The arguments of one poll: after a stored position, a bounded number of lines; without
/// one, the newest line alone. Only warnings and worse, but for the line that tells where
/// the journal stands.
pub open spec fn poll_options(
    channels: Seq<Seq<char>>,
    cursor: Option<Seq<char>>,
    priming: bool,
) -> Seq<Seq<char>> {
    let start = seq!["-o"@, "json"@, "--no-pager"@];
    let place = match cursor {
        Some(c) => seq!["--after-cursor"@, c, "-n"@, "500"@],
        None => seq!["-n"@, "1"@],
    };
    let floor = if priming {
        Seq::empty()
    } else {
        seq!["-p"@, "warning"@]
    };
    start + place + floor + unit_options(channels)
}

/// The arguments of one poll.
pub fn journalctl_args(channels: &Vec<String>, cursor: Option<&str>, priming: bool) -> (r: Vec<
    String,
>)
    ensures
        views(r@) == poll_options(
            views(channels@),
            match cursor {
                Some(c) => Some(c@),
                None => None,
            },
            priming,
        ),
{
    let mut args: Vec<String> = Vec::new();
    assert(views(args@) =~= Seq::<Seq<char>>::empty());
    push_text(&mut args, "-o");
    push_text(&mut args, "json");
    push_text(&mut args, "--no-pager");
    match cursor {
        Some(c) => {
            push_text(&mut args, "--after-cursor");
            push_text(&mut args, c);
            push_text(&mut args, "-n");
            push_text(&mut args, "500");
        },
        None => {
            push_text(&mut args, "-n");
            push_text(&mut args, "1");
        },
    }
    if !priming {
        push_text(&mut args, "-p");
        push_text(&mut args, "warning");
    }
    let ghost before = views(args@);
    let mut units = unit_args(channels);
    let ghost more = units@;
    let ghost had = args@;
    args.append(&mut units);
    assert(views(args@) =~= before + views(more));
    assert(views(args@) =~= poll_options(
        views(channels@),
        match cursor {
            Some(c) => Some(c@),
            None => None,
        },
        priming,
    ));
    args
}

/// The lines that the journal printed.
pub fn journal_lines(printed: &Vec<u8>) -> (r: Vec<String>)
    ensures
        views(r@) == lines(utf8_lossy(printed@)),
{
    let text = lossy_utf8(printed.as_slice());
    lines_of(text.as_str())
}

/// What the output of one poll means.
pub enum Interpreted {
    /// The stored position cannot be relied on.
    Reseed,
    /// The lines that could be read, and the newest position among them.
    Ready { raw_entries: Vec<RawEntry>, newest_cursor: Option<String> },
}

/// The lines that could be read, in order.
pub open spec fn readable_lines(parsed: Seq<Option<RawEntry>>) -> Seq<RawEntry>
    decreases parsed.len(),
{
    if parsed.len() == 0 {
        Seq::empty()
    } else {
        match parsed.last() {
            Some(raw) => readable_lines(parsed.drop_last()).push(raw),
            None => readable_lines(parsed.drop_last()),
        }
    }
}

/// The position of the last line that has one, or the one before them all.
pub open spec fn newest_position(lines: Seq<RawEntry>, cursor: Option<Seq<char>>) -> Option<
    Seq<char>,
>
    decreases lines.len(),
{
    if lines.len() == 0 {
        cursor
    } else {
        match lines.last().cursor {
            Some(c) => Some(c@),
            None => newest_position(lines.drop_last(), cursor),
        }
    }
}

/// Whether the output of a poll means that the stored position is to be given up: the poll
/// failed, or it came back with so many lines that the position was not honoured.
pub open spec fn must_reseed(success: bool, lines: nat, priming: bool) -> bool {
    !success || (!priming && lines >= AFTER_CURSOR_LINE_CAP)
}

/// What the output of one poll means, given each of its lines as far as it could be read.
pub fn interpret_journalctl(
    success: bool,
    parsed: Vec<Option<RawEntry>>,
    cursor: Option<&str>,
    priming: bool,
) -> (r: Interpreted)
    ensures
        ({
            let lines = readable_lines(parsed@);
            let start = match cursor {
                Some(c) => Some(c@),
                None => None,
            };
            match r {
                Interpreted::Reseed => must_reseed(success, lines.len(), priming),
                Interpreted::Ready { raw_entries, newest_cursor } => {
                    &&& !must_reseed(success, lines.len(), priming)
                    &&& raw_entries@ == lines
                    &&& opt_view(newest_cursor) == newest_position(lines, start)
                },
            }
        }),
{
    if !success {
        return Interpreted::Reseed;
    }
    let ghost all = parsed@;
    let ghost start = match cursor {
        Some(c) => Some(c@),
        None => None,
    };
    let mut raw_entries: Vec<RawEntry> = Vec::new();
    let mut newest_cursor: Option<String> = match cursor {
        Some(c) => Some(c.to_owned()),
        None => None,
    };
    assert(all.take(0) =~= Seq::<Option<RawEntry>>::empty());
    for line in it: parsed
        invariant
            it.seq() == all,
            raw_entries@ == readable_lines(all.take(it.index() as int)),
            opt_view(newest_cursor) == newest_position(raw_entries@, start),
    {
        let ghost next = all.take(it.index() as int + 1);
        assert(next.drop_last() =~= all.take(it.index() as int));
        assert(next.last() == line);
        if let Some(raw) = line {
            if let Some(c) = &raw.cursor {
                newest_cursor = Some(c.clone());
            }
            let ghost before = raw_entries@;
            raw_entries.push(raw);
            assert(raw_entries@.drop_last() =~= before);
        }
    }
    assert(all.take(all.len() as int) =~= all);
    if !priming && raw_entries.len() >= AFTER_CURSOR_LINE_CAP {
        return Interpreted::Reseed;
    }
    Interpreted::Ready { raw_entries, newest_cursor }
}

/// One poll under way: the position it starts from, and whether it gave one up already.
pub struct Poll {
    pub cursor: Option<String>,
    pub reseeded: bool,
}

/// What a poll comes to.
pub enum PollOutcome {
    /// Ask the journal once more, from where it stands now.
    Again,
    /// The poll failed; what was known of the journal stays as it is.
    Failed,
    /// The lines to look at, and the position after them.
    Lines(Vec<RawEntry>, String),
}

impl Poll {
    /// Start a poll after a stored position, if there is one.
    pub fn begin(cursor: Option<&str>) -> (r: Poll)
        ensures
            !r.reseeded,
            opt_view(r.cursor) == (match cursor {
                Some(c) => Some(c@),
                None => None,
            }),
    {
        Poll {
            cursor: match cursor {
                Some(c) => Some(c.to_owned()),
                None => None,
            },
            reseeded: false,
        }
    }

    /// Go on after the journal's answer. A position that cannot be relied on is given up
    /// once, and then nothing is delivered: what comes next is where the journal stands. If
    /// that fails as well, the poll has failed.
    pub fn next(&mut self, success: bool, parsed: Vec<Option<RawEntry>>) -> (r: PollOutcome)
        ensures
            old(self).reseeded ==> !(r is Again),
            ({
                let priming = old(self).cursor is None;
                let lines = readable_lines(parsed@);
                let newest = newest_position(lines, opt_view(old(self).cursor));
                if must_reseed(success, lines.len(), priming) {
                    if old(self).reseeded {
                        r is Failed && *final(self) == *old(self)
                    } else {
                        r is Again && final(self).reseeded && final(self).cursor is None
                    }
                } else {
                    &&& *final(self) == *old(self)
                    &&& match newest {
                        Some(position) => r is Lines && r->Lines_1@ == position && r->Lines_0@ == (
                        if priming {
                            Seq::empty()
                        } else {
                            lines
                        }),
                        None => r is Failed,
                    }
                }
            }),
    {
        let priming = self.cursor.is_none();
        let start = match &self.cursor {
            Some(c) => Some(c.as_str()),
            None => None,
        };
        match interpret_journalctl(success, parsed, start, priming) {
            Interpreted::Reseed => {
                if self.reseeded {
                    PollOutcome::Failed
                } else {
                    self.reseeded = true;
                    self.cursor = None;
                    PollOutcome::Again
                }
            },
            Interpreted::Ready { raw_entries, newest_cursor } => match newest_cursor {
                Some(position) => {
                    if priming {
                        PollOutcome::Lines(Vec::new(), position)
                    } else {
                        PollOutcome::Lines(raw_entries, position)
                    }
                },
                None => PollOutcome::Failed,
            },
        }
    }
}

/// An entry to deliver, and the failed unit whose log goes with it.
pub struct Selected {
    pub entry: EventLogEntry,
    pub unit: Option<String>,
}

/// Whether an entry with this fingerprint is among those that are delivered.
pub open spec fn fingerprinted(picked: Seq<EntryModel>, mark: u64) -> bool {
    exists|i: int|
        0 <= i < picked.len() && fingerprint((#[trigger] picked[i]).source, picked[i].message)
            == mark
}

/// The entries that a poll delivers: those to list, each fingerprint once, up to the cap.
pub open spec fn delivered(lines: Seq<RawEntry>, now: Moment) -> Seq<EntryModel>
    decreases lines.len(),
{
    if lines.len() == 0 {
        Seq::empty()
    } else {
        let before = delivered(lines.drop_last(), now);
        match parsed_entry(lines.last(), now) {
            Some(e) if before.len() < MAX_PER_POLL && !fingerprinted(
                before,
                fingerprint(e.source, e.message),
            ) => before.push(e),
            _ => before,
        }
    }
}

/// A poll delivers no two entries with one fingerprint, and no more than the cap.
pub proof fn fingerprint_is_delivered_once(lines: Seq<RawEntry>, now: Moment)
    ensures
        delivered(lines, now).len() <= MAX_PER_POLL,
        forall|a: int, b: int|
            0 <= a < b < delivered(lines, now).len() ==> fingerprint(
                (#[trigger] delivered(lines, now)[a]).source,
                delivered(lines, now)[a].message,
            ) != fingerprint(
                (#[trigger] delivered(lines, now)[b]).source,
                delivered(lines, now)[b].message,
            ),
    decreases lines.len(),
{
    if lines.len() > 0 {
        fingerprint_is_delivered_once(lines.drop_last(), now);
    }
}

/// The failed unit, if there is one, of each delivered entry.
pub open spec fn delivered_units(lines: Seq<RawEntry>, now: Moment) -> Seq<Option<Seq<char>>>
    decreases lines.len(),
{
    if lines.len() == 0 {
        Seq::empty()
    } else if delivered(lines, now).len() > delivered(lines.drop_last(), now).len() {
        delivered_units(lines.drop_last(), now).push(unit_failed(lines.last()))
    } else {
        delivered_units(lines.drop_last(), now)
    }
}

/// The entries that a poll delivers, each with the failed unit whose log goes with it.
pub fn select_entries(lines: &Vec<RawEntry>, now: Moment) -> (r: Vec<Selected>)
    ensures
        r@.map_values(|s: Selected| s.entry@) == delivered(lines@, now),
        r@.map_values(|s: Selected| opt_view(s.unit)) == delivered_units(lines@, now),
        r@.len() <= MAX_PER_POLL,
{
    let mut out: Vec<Selected> = Vec::new();
    let mut seen: Vec<u64> = Vec::new();
    let mut i: usize = 0;
    let ghost entries = |s: Selected| s.entry@;
    let ghost units = |s: Selected| opt_view(s.unit);
    assert(lines@.take(0) =~= Seq::<RawEntry>::empty());
    assert(out@.map_values(entries) =~= delivered(lines@.take(0), now));
    assert(out@.map_values(units) =~= delivered_units(lines@.take(0), now));
    while i < lines.len()
        invariant
            i <= lines@.len(),
            entries == (|s: Selected| s.entry@),
            units == (|s: Selected| opt_view(s.unit)),
            out@.len() <= MAX_PER_POLL,
            out@.map_values(entries) == delivered(lines@.take(i as int), now),
            out@.map_values(units) == delivered_units(lines@.take(i as int), now),
            seen@.len() == out@.len(),
            forall|k: int|
                0 <= k < out@.len() ==> #[trigger] seen@[k] == fingerprint(
                    delivered(lines@.take(i as int), now)[k].source,
                    delivered(lines@.take(i as int), now)[k].message,
                ),
        decreases lines@.len() - i,
    {
        let ghost next = lines@.take(i + 1);
        let ghost before = delivered(lines@.take(i as int), now);
        assert(next.drop_last() =~= lines@.take(i as int));
        assert(next.last() == lines@[i as int]);
        assert(before.len() == out@.len());
        if out.len() < MAX_PER_POLL {
            if let Some(entry) = parse_entry(&lines[i], now) {
                let mark: u64 = dedup_fingerprint(entry.source.as_str(), entry.message.as_str());
                let known = contains_mark(&seen, mark);
                proof {
                    if known {
                        let k = choose|k: int| 0 <= k < seen@.len() && #[trigger] seen@[k] == mark;
                        assert(fingerprint(before[k].source, before[k].message) == mark);
                    } else if fingerprinted(before, mark) {
                        let k = choose|k: int|
                            0 <= k < before.len() && fingerprint(
                                (#[trigger] before[k]).source,
                                before[k].message,
                            ) == mark;
                        assert(seen@[k] == mark);
                    }
                }
                if !known {
                    let unit = failed_unit(&lines[i]);
                    let ghost was = out@;
                    let item = Selected { entry, unit };
                    out.push(item);
                    seen.push(mark);
                    proof {
                        assert(delivered(next, now) == before.push(item.entry@));
                        assert(out@.map_values(entries) =~= was.map_values(entries).push(
                            item.entry@,
                        ));
                        assert(out@.map_values(units) =~= was.map_values(units).push(
                            opt_view(item.unit),
                        ));
                    }
                }
            }
        }
        i += 1;
    }
    assert(lines@.take(lines@.len() as int) =~= lines@);
    out
}

fn contains_mark(seen: &Vec<u64>, mark: u64) -> (r: bool)
    ensures
        r == exists|k: int| 0 <= k < seen@.len() && #[trigger] seen@[k] == mark,
{
    let mut i: usize = 0;
    while i < seen.len()
        invariant
            i <= seen@.len(),
            forall|k: int| 0 <= k < i ==> #[trigger] seen@[k] != mark,
        decreases seen@.len() - i,
    {
        if seen[i] == mark {
            return true;
        }
        i += 1;
    }
    false
}

/// An entry with the log of its failed unit after its message.
pub fn attach_tail(entry: EventLogEntry, log: &str) -> (r: EventLogEntry)
    ensures
        r@ == (EntryModel {
            message: entry.message@ + "\nRecent log of "@ + entry.source@ + ":\n"@ + log@,
            ..entry@
        }),
{
    let mut message = entry.message;
    message.append("\nRecent log of ");
    message.append(entry.source.as_str());
    message.append(":\n");
    message.append(log);
    EventLogEntry {
        timestamp: entry.timestamp,
        level: entry.level,
        source: entry.source,
        message,
        event_id: entry.event_id,
    }
}

/// The position that a stored text holds: the text without the white space around it; a
/// blank text holds none.
pub fn stored_cursor(text: &str) -> (r: Option<String>)
    ensures
        opt_view(r) == (if trim(text@).len() > 0 {
            Some(trim(text@))
        } else {
            None
        }),
{
    let cursor = trimmed(text);
    if cursor.as_str().is_empty() {
        None
    } else {
        Some(cursor)
    }
}

/// Whether a position has to be stored: it is not the one that is.
pub fn cursor_moved(new: &str, stored: Option<&str>) -> (r: bool)
    ensures
        r == (match stored {
            Some(c) => new@ != c@,
            None => new@.len() > 0,
        }),
{
    match stored {
        Some(c) => !same(new, c),
        None => !new.is_empty(),
    }
}

// ── What a poll promises ──────────────────────────────────────────────────────

/// The position after a poll is that of the last line that has one: of any line with a
/// position and none after it, it is that line's; the old one is kept where no line has any.
pub proof fn position_is_of_the_last_line_with_one(
    lines: Seq<RawEntry>,
    cursor: Option<Seq<char>>,
    i: int,
)
    ensures
        0 <= i < lines.len() && lines[i].cursor is Some && (forall|j: int|
            i < j < lines.len() ==> (#[trigger] lines[j]).cursor is None) ==> newest_position(
            lines,
            cursor,
        ) == Some((lines[i].cursor->0)@),
        (forall|j: int| 0 <= j < lines.len() ==> (#[trigger] lines[j]).cursor is None)
            ==> newest_position(lines, cursor) == cursor,
        lines.len() > 0 && lines.last().cursor is Some ==> newest_position(lines, cursor) == Some(
            (lines.last().cursor->0)@,
        ),
    decreases lines.len(),
{
    if lines.len() > 0 {
        let before = lines.drop_last();
        position_is_of_the_last_line_with_one(before, cursor, i);
        assert(lines[lines.len() - 1] == lines.last());
        if forall|j: int| 0 <= j < lines.len() ==> (#[trigger] lines[j]).cursor is None {
            assert forall|j: int| 0 <= j < before.len() implies (
            #[trigger] before[j]).cursor is None by {
                assert(lines[j].cursor is None);
            }
        }
        if 0 <= i < before.len() && forall|j: int|
            i < j < lines.len() ==> (#[trigger] lines[j]).cursor is None {
            assert(lines[lines.len() - 1].cursor is None);
            assert forall|j: int| i < j < before.len() implies (
            #[trigger] before[j]).cursor is None by {
                assert(lines[j].cursor is None);
            }
        }
    }
}

/// The lines that are read are those that could be, all of them and in order.
pub proof fn lines_that_could_be_read_are_read(parsed: Seq<Option<RawEntry>>)
    ensures
        readable_lines(parsed) == parsed.filter(|l: Option<RawEntry>| l is Some).map_values(
            |l: Option<RawEntry>| l->0,
        ),
    decreases parsed.len(),
{
    reveal(Seq::filter);
    if parsed.len() > 0 {
        let before = parsed.drop_last();
        lines_that_could_be_read_are_read(before);
        let some = |l: Option<RawEntry>| l is Some;
        let open = |l: Option<RawEntry>| l->0;
        if parsed.last() is Some {
            assert(parsed.filter(some) == before.filter(some).push(parsed.last()));
            assert(before.filter(some).push(parsed.last()).map_values(open)
                =~= before.filter(some).map_values(open).push(parsed.last()->0));
        }
    }
}

/// A position is given up where the journal failed, or where it answered with as many lines as
/// it was asked for; a first look is given up only where the journal failed.
pub proof fn position_is_given_up_where_it_was_not_honoured(
    success: bool,
    lines: nat,
    priming: bool,
)
    ensures
        !success ==> must_reseed(success, lines, priming),
        success && priming ==> !must_reseed(success, lines, priming),
        success && !priming && lines < 500 ==> !must_reseed(success, lines, priming),
        success && !priming && lines >= 500 ==> must_reseed(success, lines, priming),
{
}

/// The failed units that are explained are the first few that have a proper name and that no
/// entry speaks of.
pub proof fn first_unexplained_units_are_explained(
    failed: Seq<Seq<char>>,
    entries: Seq<EventLogEntry>,
)
    ensures
        ({
            let open = failed.filter(
                |u: Seq<char>|
                    valid_unit(u) && !(exists|i: int|
                        0 <= i < entries.len() && (#[trigger] entries[i]).source@ == u),
            );
            units_to_explain(failed, entries) == open.take(
                if open.len() <= 5 {
                    open.len() as int
                } else {
                    5
                },
            )
        }),
    decreases failed.len(),
{
    reveal(Seq::filter);
    let keep = |u: Seq<char>|
        valid_unit(u) && !(exists|i: int|
            0 <= i < entries.len() && (#[trigger] entries[i]).source@ == u);
    let open = failed.filter(keep);
    if failed.len() == 0 {
        assert(open.take(0) =~= Seq::<Seq<char>>::empty());
    } else {
        let before = failed.drop_last();
        first_unexplained_units_are_explained(before, entries);
        let had = before.filter(keep);
        let n = if had.len() <= 5 {
            had.len() as int
        } else {
            5
        };
        let unit = failed.last();
        assert(keep(unit) == unexplained(entries, unit));
        if keep(unit) {
            assert(open == had.push(unit));
            if had.len() < 5 {
                assert(had.take(n) =~= had);
                assert(open.take(n + 1) =~= had.take(n).push(unit));
            } else {
                assert(open.take(5) =~= had.take(5));
            }
        } else {
            assert(open == had);
        }
    }
}

/// The journal's priorities from emergency to error are errors, the next is a warning, and
/// nothing that is less urgent, or no number, is listed.
pub proof fn urgent_priorities_are_listed(n: nat)
    ensures
        n <= 3 ==> level_of_priority(decimal(n)) == Some("Error"@),
        n == 4 ==> level_of_priority(decimal(n)) == Some("Warning"@),
        n > 4 ==> level_of_priority(decimal(n)) is None,
{
    written_number_reads_back(n, 0, u32::MAX as int, Seq::empty());
    lemma_decimal_has_no_white_space(n);
    lemma_trim_plain(decimal(n));
}

proof fn lemma_trim_plain(s: Seq<char>)
    requires
        forall|k: int| 0 <= k < s.len() ==> !unicode_whitespace(#[trigger] s[k]),
    ensures
        trim(s) == s,
{
    let (i, j) = trimmed_text_lies_between_white_space(s);
    if i > 0 {
        assert(unicode_whitespace(s[0]));
    }
    if j < s.len() {
        assert(unicode_whitespace(s[j]));
    }
    assert(s.subrange(0, s.len() as int) =~= s);
}

proof fn lemma_decimal_has_no_white_space(n: nat)
    ensures
        decimal(n).len() > 0,
        forall|k: int| 0 <= k < decimal(n).len() ==> !unicode_whitespace(#[trigger] decimal(n)[k]),
    decreases n,
{
    if n >= 10 {
        lemma_decimal_has_no_white_space(n / 10);
        let d = decimal(n);
        assert forall|k: int| 0 <= k < d.len() implies !unicode_whitespace(#[trigger] d[k]) by {
            if k < d.len() - 1 {
                assert(d[k] == decimal(n / 10)[k]);
            }
        }
    }
}

/// A unit's name holds no white space, no slash, no quote and nothing that a shell reads, and
/// is of a bounded length.
pub proof fn unit_name_is_plain(unit: Seq<char>, i: int)
    requires
        valid_unit(unit),
        0 <= i < unit.len(),
    ensures
        unit[0] != '-' && unit[0] != '.',
        (unit[i] as u32) < 128,
        !('\0' <= unit[i] <= ' '),
        unit[i] != '/' && unit[i] != '"' && unit[i] != '\'' && unit[i] != '$' && unit[i] != ';'
            && unit[i] != '|' && unit[i] != '&' && unit[i] != '*' && unit[i] != '=',
        utf8_len(unit) <= 256,
{
}

/// A plain name of letters, digits, dots, dashes and the like is a unit's name.
pub proof fn plain_name_is_a_unit_name(unit: Seq<char>)
    requires
        unit.len() > 0,
        utf8_len(unit) <= 256,
        'a' <= unit[0] <= 'z' || 'A' <= unit[0] <= 'Z' || '0' <= unit[0] <= '9',
        forall|i: int|
            0 <= i < unit.len() ==> 'a' <= (#[trigger] unit[i]) <= 'z' || 'A' <= unit[i] <= 'Z'
                || '0' <= unit[i] <= '9' || unit[i] == '-' || unit[i] == '.' || unit[i] == '_'
                || unit[i] == '@' || unit[i] == ':' || unit[i] == '\\',
    ensures
        valid_unit(unit),
{
    assert forall|i: int| 0 <= i < unit.len() implies unit_char(#[trigger] unit[i]) by {
        let c = unit[i];
    }
}

/// A line reports a failed unit exactly where it bears the mark of such lines and names a
/// proper unit, and then it is that unit.
pub proof fn failed_unit_is_the_one_named(raw: RawEntry)
    ensures
        raw.message_id is Some && (raw.message_id->0)@ == UNIT_RESULT_MESSAGE_ID@ && raw.unit is Some
            && valid_unit((raw.unit->0)@) ==> unit_failed(raw) == Some((raw.unit->0)@),
        unit_failed(raw) is Some ==> raw.message_id is Some && (raw.message_id->0)@
            == UNIT_RESULT_MESSAGE_ID@ && raw.unit is Some && valid_unit((raw.unit->0)@),
{
}

/// The tail of a text is its end, as long as the cap lets it be.
pub proof fn tail_is_the_end(s: Seq<char>, max: int)
    requires
        max >= 0,
    ensures
        tail(s, max).len() == (if s.len() <= max {
            s.len() as int
        } else {
            max
        }),
        forall|k: int|
            0 <= k < tail(s, max).len() ==> #[trigger] tail(s, max)[k] == s[k + s.len() - tail(
                s,
                max,
            ).len()],
{
}

/// A message that is listed byte by byte is those bytes, in order.
pub proof fn listed_bytes_are_the_numbers(items: Seq<Json>)
    requires
        forall|i: int|
            0 <= i < items.len() ==> ((#[trigger] items[i]) matches Json::Number(Some(n)) && n < 256),
    ensures
        listed_bytes(items).len() == items.len(),
        forall|i: int|
            0 <= i < items.len() ==> items[i] == Json::Number(
                Some(#[trigger] listed_bytes(items)[i] as u64),
            ),
    decreases items.len(),
{
    if items.len() > 0 {
        let before = items.drop_last();
        assert forall|i: int| 0 <= i < before.len() implies ((#[trigger] before[i]) matches
            Json::Number(Some(n)) && n < 256) by {
            assert(items[i] == before[i]);
        }
        listed_bytes_are_the_numbers(before);
        let last = items[items.len() - 1];
        assert(last == items.last());
        assert forall|i: int| 0 <= i < items.len() implies items[i] == Json::Number(
            Some(#[trigger] listed_bytes(items)[i] as u64),
        ) by {
            if i < before.len() {
                assert(before[i] == items[i]);
                assert(listed_bytes(items)[i] == listed_bytes(before)[i]);
            }
        }
    }
}

/// What is left without digits is every other character, in order.
pub proof fn only_digits_are_left_out(s: Seq<char>)
    ensures
        without_digits(s) == s.filter(|c: char| !('0' <= c && c <= '9')),
    decreases s.len(),
{
    reveal(Seq::filter);
    if s.len() > 0 {
        only_digits_are_left_out(s.drop_last());
    }
}

/// A count of microseconds since 1970 stands for that moment, to the microsecond.
pub proof fn moment_is_of_its_microseconds(n: nat)
    requires
        n <= i64::MAX,
    ensures
        moment_of_micros(Some(decimal(n))) matches Some(m) ==> m.secs * 1_000_000 + m.nanos / 1000
            == n && m.nanos % 1000 == 0 && m.nanos < 1_000_000_000,
        calendar_holds((n / 1_000_000) as i64) ==> moment_of_micros(Some(decimal(n))) is Some,
        moment_of_micros(None) is None,
{
    written_number_reads_back(n, n as int, i64::MAX as int, Seq::empty());
    assert(decimal_int(n as int) == decimal(n));
    lemma_parsed_int_bound(decimal(n));
}

proof fn lemma_parsed_int_bound(s: Seq<char>)
    requires
        parsed_int(s, -(i64::MAX as int), i64::MAX as int) is Some,
    ensures
        parsed_int(s, i64::MIN as int, i64::MAX as int) == parsed_int(
            s,
            -(i64::MAX as int),
            i64::MAX as int,
        ),
{
}

/// What an entry says: of a failed unit it is an error of that unit; of any other line its
/// level is that of the line's priority, and its source the line's identifier, else its unit.
/// Its message is the start of the line's own, and its moment the line's own where it has one.
pub proof fn entry_says_what_its_line_says(raw: RawEntry, now: Moment)
    ensures
        unit_failed(raw) matches Some(unit) ==> parsed_entry(raw, now) is Some && (parsed_entry(
            raw,
            now,
        )->0).level == "Error"@ && (parsed_entry(raw, now)->0).source == unit,
        unit_failed(raw) is None ==> (parsed_entry(raw, now) is Some <==> raw.priority is Some
            && level_of_priority((raw.priority->0)@) is Some),
        parsed_entry(raw, now) matches Some(e) ==> {
            &&& unit_failed(raw) is None ==> Some(e.level) == level_of_priority(
                (raw.priority->0)@,
            )
            &&& unit_failed(raw) is None && raw.syslog_identifier is Some ==> e.source == (
            raw.syslog_identifier->0)@
            &&& unit_failed(raw) is None && raw.syslog_identifier is None && raw.systemd_unit is Some
                ==> e.source == (raw.systemd_unit->0)@
            &&& e.message.len() <= 2048
            &&& raw.message matches Some(Json::Text(text)) ==> e.message.is_prefix_of(trim(text@))
            &&& raw.message matches Some(Json::Text(text)) ==> trim(text@).len() <= 2048
                ==> e.message == trim(text@)
            &&& moment_of_micros(opt_view(raw.realtime_us)) is None ==> e.timestamp == now
            &&& moment_of_micros(opt_view(raw.realtime_us)) matches Some(m) ==> e.timestamp == m
        },
{
    if parsed_entry(raw, now) is Some {
        if let Some(Json::Text(text)) = raw.message {
            capped_text_is_a_start(trim(text@), 2048);
        }
    }
}

/// The options that restrict a poll name each channel that is not blank, in order.
pub proof fn each_channel_is_asked_for(channels: Seq<Seq<char>>, k: int)
    ensures
        unit_options(channels).len() == 2 * channels.filter(
            |c: Seq<char>| trim(c).len() > 0,
        ).len(),
        0 <= k < channels.filter(|c: Seq<char>| trim(c).len() > 0).len() ==> unit_options(
            channels,
        )[2 * k] == "-u"@ && unit_options(channels)[2 * k + 1] == channels.filter(
            |c: Seq<char>| trim(c).len() > 0,
        )[k],
    decreases channels.len(),
{
    reveal(Seq::filter);
    if channels.len() > 0 {
        let before = channels.drop_last();
        each_channel_is_asked_for(before, k);
        let keep = |c: Seq<char>| trim(c).len() > 0;
        let had = before.filter(keep);
        let was = unit_options(before);
        if trim(channels.last()).len() > 0 {
            assert(keep(channels.last()));
            assert(channels.filter(keep) == had.push(channels.last()));
            assert(unit_options(channels) == was.push("-u"@).push(channels.last()));
        } else {
            assert(!keep(channels.last()));
        }
    }
}

/// A poll asks after the stored position for what the cap allows, and for warnings and worse;
/// without a position it asks for the newest line alone.
pub proof fn poll_asks_after_the_position(channels: Seq<Seq<char>>, cursor: Seq<char>)
    ensures
        ({
            let after = poll_options(channels, Some(cursor), false);
            &&& after.len() == 9 + unit_options(channels).len()
            &&& after[3] == "--after-cursor"@ && after[4] == cursor
            &&& after[5] == "-n"@ && after[6] == "500"@
            &&& after[7] == "-p"@ && after[8] == "warning"@
            &&& after.skip(9) == unit_options(channels)
        }),
        ({
            let first = poll_options(channels, None, true);
            &&& first[0] == "-o"@ && first[1] == "json"@
            &&& first[3] == "-n"@ && first[4] == "1"@
            &&& first.skip(5) == unit_options(channels)
        }),
{
    assert(poll_options(channels, Some(cursor), false).skip(9) =~= unit_options(channels));
    assert(poll_options(channels, None, true).skip(5) =~= unit_options(channels));
}

/// Every line to list is delivered, or another with its fingerprint is, unless the cap is
/// reached; what is delivered is of some line; and each comes with its own failed unit.
pub proof fn new_entries_are_delivered(lines: Seq<RawEntry>, now: Moment)
    ensures
        forall|i: int|
            0 <= i < lines.len() && parsed_entry(#[trigger] lines[i], now) is Some && delivered(
                lines,
                now,
            ).len() < MAX_PER_POLL ==> fingerprinted(
                delivered(lines, now),
                fingerprint(
                    (parsed_entry(lines[i], now)->0).source,
                    (parsed_entry(lines[i], now)->0).message,
                ),
            ),
        delivered_units(lines, now).len() == delivered(lines, now).len(),
        forall|k: int|
            0 <= k < delivered(lines, now).len() ==> exists|i: int|
                0 <= i < lines.len() && parsed_entry(#[trigger] lines[i], now) == Some(
                    #[trigger] delivered(lines, now)[k],
                ) && unit_failed(lines[i]) == delivered_units(lines, now)[k],
    decreases lines.len(),
{
    if lines.len() > 0 {
        let before = lines.drop_last();
        new_entries_are_delivered(before, now);
        let had = delivered(before, now);
        let all = delivered(lines, now);
        assert forall|i: int|
            0 <= i < lines.len() && parsed_entry(#[trigger] lines[i], now) is Some && all.len()
                < MAX_PER_POLL implies fingerprinted(
            all,
            fingerprint(
                (parsed_entry(lines[i], now)->0).source,
                (parsed_entry(lines[i], now)->0).message,
            ),
        ) by {
            let e = parsed_entry(lines[i], now)->0;
            let mark = fingerprint(e.source, e.message);
            if i < before.len() {
                assert(before[i] == lines[i]);
                assert(fingerprinted(had, mark));
                let k = choose|k: int|
                    0 <= k < had.len() && fingerprint((#[trigger] had[k]).source, had[k].message)
                        == mark;
                assert(all[k] == had[k]);
            } else if all.len() > had.len() {
                assert(all[all.len() - 1] == e);
            }
        }
        assert forall|k: int| 0 <= k < all.len() implies exists|i: int|
            0 <= i < lines.len() && parsed_entry(#[trigger] lines[i], now) == Some(
                #[trigger] all[k],
            ) && unit_failed(lines[i]) == delivered_units(lines, now)[k] by {
            if k < had.len() {
                assert(all[k] == had[k]);
                let i = choose|i: int|
                    0 <= i < before.len() && parsed_entry(#[trigger] before[i], now) == Some(
                        had[k],
                    ) && unit_failed(before[i]) == delivered_units(before, now)[k];
                assert(lines[i] == before[i]);
            } else {
                assert(parsed_entry(lines[lines.len() - 1], now) == Some(all[k]));
            }
        }
    }
}

/// A poll gives every line that could be read, in order, and the position of the last of them that
/// has one, so that the next poll goes on behind it; without one the position stays.
pub proof fn next_poll_goes_on_behind_the_last_line(
    success: bool,
    parsed: Vec<Option<RawEntry>>,
    cursor: Option<&str>,
    priming: bool,
    r: Interpreted,
    i: int,
)
    requires
        call_ensures(interpret_journalctl, (success, parsed, cursor, priming), r),
    ensures
        !success ==> r is Reseed,
        success && priming ==> r is Ready,
        r matches Interpreted::Ready { raw_entries, newest_cursor } ==> {
            &&& raw_entries@ == parsed@.filter(|l: Option<RawEntry>| l is Some).map_values(
                |l: Option<RawEntry>| l->0,
            )
            &&& 0 <= i < raw_entries@.len() && raw_entries@[i].cursor is Some && (forall|j: int|
                i < j < raw_entries@.len() ==> (#[trigger] raw_entries@[j]).cursor is None)
                ==> newest_cursor is Some && newest_cursor->0@ == (raw_entries@[i].cursor->0)@
            &&& raw_entries@.len() == 0 && cursor is Some ==> newest_cursor is Some
                && newest_cursor->0@ == cursor->0@
            &&& raw_entries@.len() == 0 && cursor is None ==> newest_cursor is None
        },
{
    let lines = readable_lines(parsed@);
    let start = match cursor {
        Some(c) => Some(c@),
        None => None,
    };
    lines_that_could_be_read_are_read(parsed@);
    position_is_of_the_last_line_with_one(lines, start, i);
}

/// A poll that cannot go on from its position starts over once without it, and fails after that;
/// one that starts without a position delivers no lines, only where to go on.
pub proof fn poll_starts_over_once(
    poll: &mut Poll,
    success: bool,
    parsed: Vec<Option<RawEntry>>,
    r: PollOutcome,
)
    requires
        call_ensures(Poll::next, (poll, success, parsed), r),
    ensures
        !success && !old(poll).reseeded ==> r is Again && final(poll).cursor is None && final(poll).reseeded,
        old(poll).reseeded ==> !(r is Again),
        !success && old(poll).reseeded ==> r is Failed,
        old(poll).cursor is None && r is Lines ==> r->Lines_0@.len() == 0,
        old(poll).cursor is Some && r is Lines ==> r->Lines_0@ == parsed@.filter(
            |l: Option<RawEntry>| l is Some,
        ).map_values(|l: Option<RawEntry>| l->0),
        r is Lines && parsed@.len() > 0 && parsed@.last() is Some && parsed@.last()->0.cursor
            is Some ==> r->Lines_1@ == (parsed@.last()->0.cursor->0)@,
{
    let lines = readable_lines(parsed@);
    lines_that_could_be_read_are_read(parsed@);
    position_is_of_the_last_line_with_one(lines, opt_view(old(poll).cursor), lines.len() - 1);
    if parsed@.len() > 0 && parsed@.last() is Some {
        assert(lines.last() == parsed@.last()->0);
    }
}

/// A stored position counts without the white space around it, and a blank one is none; it has
/// moved where it is another one.
pub proof fn stored_position_is_read_back(
    text: &str,
    r: Option<String>,
    new: &str,
    stored: Option<&str>,
    moved: bool,
)
    requires
        call_ensures(stored_cursor, (text,), r),
        call_ensures(cursor_moved, (new, stored), moved),
    ensures
        r is Some <==> trim(text@).len() > 0,
        r is Some ==> r->0@ == trim(text@),
        stored is Some ==> (moved <==> new@ != stored->0@),
        stored is None ==> (moved <==> new@.len() > 0),
{
}

/// The tail of a unit's log is put behind the entry's own message, and nothing else of the entry
/// changes.
pub proof fn tail_is_put_behind_the_message(entry: EventLogEntry, log: &str, r: EventLogEntry)
    requires
        call_ensures(attach_tail, (entry, log), r),
    ensures
        entry.message@.is_prefix_of(r.message@) && log@.is_suffix_of(r.message@),
        r@ == (EntryModel { message: r@.message, ..entry@ }),
{
    assert(r@.message == r.message@);
    assert(r.message@.take(entry.message@.len() as int) =~= entry.message@);
    assert(r.message@.skip(r.message@.len() - log@.len()) =~= log@);
}

/// The entry about a failed unit names it as its source, is an error at the moment it is made, and
/// ends in the unit's own log where there is one.
pub proof fn failed_unit_is_told(
    unit: &str,
    log: Option<&str>,
    now: Moment,
    r: EventLogEntry,
)
    requires
        call_ensures(failed_unit_entry, (unit, log, now), r),
    ensures
        r@.source == unit@ && r@.level == "Error"@ && r@.timestamp == now,
        unit@.is_prefix_of(r@.message),
        log is Some ==> log->0@.is_suffix_of(r@.message),
{
    assert(r@.message.take(unit@.len() as int) =~= unit@);
    if log is Some {
        assert(r@.message.skip(r@.message.len() - log->0@.len()) =~= log->0@);
    }
}

/// A message is its text, or what its bytes write; anything else is no message.
pub proof fn message_is_its_text_or_bytes(s: String, items: Vec<Json>)
    ensures
        text_of_message(Json::Text(s)) == s@,
        text_of_message(Json::Array(items)) == utf8_lossy(listed_bytes(items@)),
{
}

/// A time before 1970 that is no whole second, or one beyond the calendar, is no moment.
pub proof fn times_beyond_the_calendar_are_no_moments(n: nat)
    requires
        n <= i64::MAX,
    ensures
        n % 1_000_000 != 0 ==> moment_of_micros(Some(seq!['-'] + decimal(n))) is None,
        !calendar_holds((n / 1_000_000) as i64) ==> moment_of_micros(Some(decimal(n))) is None,
{
    written_number_reads_back(n, n as int, i64::MAX as int, Seq::empty());
    assert(decimal_int(n as int) == decimal(n));
    lemma_parsed_int_bound(decimal(n));
    if n % 1_000_000 != 0 {
        written_number_reads_back(n, -(n as int), i64::MAX as int, Seq::empty());
        assert(decimal_int(-(n as int)) == seq!['-'] + decimal(n));
        lemma_parsed_int_bound(seq!['-'] + decimal(n));
        assert(n - (n / 1_000_000) * 1_000_000 == n % 1_000_000);
    }
}

} // verus!
